//! What an instruction does to each key, and to each artifact that is stored.
use crate::artifact::{
    law_artifact_of_its_datum, ArtifactView, DatumView, InstructionView, StateView,
};
use crate::cause::{cause_bytes, cause_of};
use crate::commit::{CommitPhaseView, CommitView};
use crate::error::ErrorView;
use crate::index::{after, ancestor, is_first_stop, is_stop, search_range, state_at, Contents};
use crate::key::{
    before, filled, law_keys_are_distinct, lemma_parts_in_key, lemma_pointwise_before, parts_in,
    parts_of, KeyKind, PartsView,
};
use crate::laws::contents::{
    holds, is_consistent, law_assert_stores, law_instructions_keep_consistent, law_update_replaces,
    lemma_ancestor, lemma_before_total, lemma_first_stop_unique, lemma_search_range,
};
use crate::laws::naming::{collide, law_reference_tells_artifacts_apart};
use crate::laws::order::is_key_of;
use crate::name::{lemma_name_part_injective, name_part};
use crate::protocol::{Process, RequestView};
use crate::value::ValueView;
use vstd::prelude::*;

verus! {

/// Asserting the update of a stored artifact puts the update, which has the new value
/// and is otherwise of the same entity and attribute, in the place of that artifact
/// and of no other: every other artifact stays as it is, but for one that has the keys
/// of the update. No bytes of a stored artifact may collide with those of the updated
/// one.
pub proof fn law_update_replaces_what_it_refers_to(
    contents: Contents,
    artifact: ArtifactView,
    value: ValueView,
    other: ArtifactView,
)
    requires
        is_consistent(contents),
        artifact.valid(),
        other.valid(),
        holds(contents, artifact),
        forall|rival: ArtifactView| #[trigger]
            holds(contents, rival) && rival.valid() ==> !collide(
                rival.is.bytes(),
                artifact.is.bytes(),
            ) && !collide(cause_bytes(rival), cause_bytes(artifact)),
    ensures
        artifact.updated(value).the == artifact.the,
        artifact.updated(value).of == artifact.of,
        artifact.updated(value).is == value,
        after(contents, InstructionView::Assert(artifact.updated(value))) matches Ok(changed) && {
            let update = artifact.updated(value);
            &&& is_consistent(changed)
            &&& holds(changed, update)
            &&& parts_of(artifact) != parts_of(update) ==> !holds(changed, artifact)
            &&& other != artifact && parts_of(other) != parts_of(update) ==> holds(changed, other)
                == holds(contents, other)
        },
{
    let update = artifact.updated(value);
    assert forall|rival: ArtifactView|
        holds(contents, rival) && rival.valid() && rival.of == artifact.of && rival.the
            == artifact.the && #[trigger] cause_of(rival) == cause_of(artifact) implies rival
        == artifact by {
        law_reference_tells_artifacts_apart(rival, artifact);
    }
    law_update_replaces(contents, artifact, value, other);
    law_instructions_keep_consistent(contents, InstructionView::Assert(update));
    let changed = after(contents, InstructionView::Assert(update))->Ok_0;
    if other != artifact && parts_of(other) != parts_of(update) && parts_of(other) == parts_of(
        artifact,
    ) {
        law_artifact_of_its_datum(other);
        law_artifact_of_its_datum(artifact);
        assert(!holds(contents, other));
        law_assert_stores(contents, update, other);
    }
}

/// Asserting an artifact leaves what is stored for another entity or another attribute
/// as it is, whatever its cause.
pub proof fn law_assert_keeps_other_entities_and_attributes(
    contents: Contents,
    artifact: ArtifactView,
    other: ArtifactView,
)
    requires
        is_consistent(contents),
        artifact.valid(),
        other.valid(),
        other.of != artifact.of || other.the != artifact.the,
    ensures
        after(contents, InstructionView::Assert(artifact)) matches Ok(changed) && holds(
            changed,
            other,
        ) == holds(contents, other),
{
    let key = parts_of(other).key(KeyKind::Entity);
    law_assert_sets_its_keys(contents, artifact, key);
    lemma_parts_in_key(parts_of(other), KeyKind::Entity);
    if parts_of(other).entity == parts_of(artifact).entity {
        lemma_name_part_injective(other.of, artifact.of);
    }
    if parts_of(other).attribute == parts_of(artifact).attribute {
        lemma_name_part_injective(other.the, artifact.the);
    }
    if is_key_of(key, artifact) {
        let kind = choose|kind: KeyKind| key == #[trigger] parts_of(artifact).key(kind);
        law_keys_are_distinct(parts_of(other), parts_of(artifact), KeyKind::Entity, kind);
    }
    let changed = after(contents, InstructionView::Assert(artifact))->Ok_0;
    if state_at(changed, key) != state_at(contents, key) {
        let old = choose|old: ArtifactView| #[trigger] gives_way(contents, artifact, old, key);
        let kind = choose|kind: KeyKind| key == #[trigger] parts_of(old).key(kind);
        law_keys_are_distinct(parts_of(other), parts_of(old), KeyKind::Entity, kind);
    }
}

/// Whether a key is taken out when an artifact is asserted: it is one of a stored
/// artifact of the same entity and attribute that the cause refers to.
pub open spec fn gives_way(
    contents: Contents,
    artifact: ArtifactView,
    old: ArtifactView,
    key: Seq<u8>,
) -> bool {
    &&& old.valid()
    &&& holds(contents, old)
    &&& old.of == artifact.of
    &&& old.the == artifact.the
    &&& artifact.cause == Some(cause_of(old))
    &&& is_key_of(key, old)
}

/// Asserting an artifact puts its stored form under its three keys. Another key is left
/// as it is, unless it is one of the artifact that the cause refers to: it is taken out
/// then.
pub proof fn law_assert_sets_its_keys(contents: Contents, artifact: ArtifactView, key: Seq<u8>)
    requires
        is_consistent(contents),
        artifact.valid(),
    ensures
        after(contents, InstructionView::Assert(artifact)) matches Ok(changed) && if is_key_of(
            key,
            artifact,
        ) {
            state_at(changed, key) == Some(StateView::Added(artifact.datum()))
        } else {
            ||| state_at(changed, key) == state_at(contents, key)
            ||| state_at(changed, key) is None && exists|old: ArtifactView| #[trigger]
                gives_way(contents, artifact, old, key)
        },
{
    let parts = parts_of(artifact);
    assert(is_key_of(parts.key(KeyKind::Entity), artifact));
    assert(is_key_of(parts.key(KeyKind::Attribute), artifact));
    assert(is_key_of(parts.key(KeyKind::Value), artifact));
    if is_key_of(key, artifact) {
        let kind = choose|kind: KeyKind| key == #[trigger] parts_of(artifact).key(kind);
        assert(kind == KeyKind::Entity || kind == KeyKind::Attribute || kind == KeyKind::Value);
    }
    if let Some(cause) = artifact.cause {
        lemma_ancestor(contents, parts, cause);
        if let Ok(Some(found)) = ancestor(contents, search_range(parts), cause) {
            let parts = parts_in(KeyKind::Entity, found);
            let old = choose|old: ArtifactView|
                holds(contents, old) && old.valid() && parts_of(old) == parts
                    && #[trigger] cause_of(old) == cause;
            lemma_name_part_injective(old.of, artifact.of);
            lemma_name_part_injective(old.the, artifact.the);
            if key == parts.key(KeyKind::Entity) || key == parts.key(KeyKind::Attribute) || key
                == parts.key(KeyKind::Value) {
                assert(is_key_of(key, old));
                assert(gives_way(contents, artifact, old, key));
            }
        }
    }
}

/// Retracting an artifact puts the mark that it was retracted under its three keys,
/// and leaves every other key as it is.
pub proof fn law_retract_marks_its_keys(contents: Contents, artifact: ArtifactView, key: Seq<u8>)
    ensures
        after(contents, InstructionView::Retract(artifact)) matches Ok(changed) && state_at(
            changed,
            key,
        ) == if is_key_of(key, artifact) {
            Some(StateView::Removed)
        } else {
            state_at(contents, key)
        },
{
    let parts = parts_of(artifact);
    assert(is_key_of(parts.key(KeyKind::Entity), artifact));
    assert(is_key_of(parts.key(KeyKind::Attribute), artifact));
    assert(is_key_of(parts.key(KeyKind::Value), artifact));
    if is_key_of(key, artifact) {
        let kind = choose|kind: KeyKind| key == #[trigger] parts_of(artifact).key(kind);
        assert(kind == KeyKind::Entity || kind == KeyKind::Attribute || kind == KeyKind::Value);
    }
}

/// The entity keys with the entity and the attribute of some parts are searched, but
/// for the greatest ones.
proof fn lemma_searched(parts: PartsView, other: PartsView)
    requires
        parts.valid(),
        other.valid(),
        other.entity == parts.entity,
        other.attribute == parts.attribute,
        other.value_type < 255,
    ensures
        search_range(parts).has_key(other.key(KeyKind::Entity)),
{
    let least = PartsView { value_type: 0, value_reference: filled(32, 0), ..parts };
    let greatest = PartsView { value_type: 255, value_reference: filled(32, 255), ..parts };
    let key = other.key(KeyKind::Entity);
    lemma_parts_in_key(least, KeyKind::Entity);
    lemma_parts_in_key(greatest, KeyKind::Entity);
    lemma_parts_in_key(other, KeyKind::Entity);
    assert forall|i: int| 0 <= i < key.len() implies least.key(KeyKind::Entity)[i] <= key[i] by {}
    assert forall|i: int| 0 <= i < key.len() implies key[i] <= greatest.key(
        KeyKind::Entity,
    )[i] by {}
    lemma_pointwise_before(least.key(KeyKind::Entity), key);
    lemma_pointwise_before(key, greatest.key(KeyKind::Entity));
    assert(other.value_type != greatest.value_type);
}

/// The search for the artifact that a cause refers to goes through no keys but those of
/// the entity and the attribute of the artifact that is asserted.
pub proof fn law_search_is_narrow(commit: CommitView, artifact: ArtifactView, key: Seq<u8>)
    requires
        artifact.valid(),
        commit.phase matches CommitPhaseView::Scan(asserted, _) && asserted == artifact,
        commit.request() matches Some(RequestView::Scan(range)) && range.has_key(key),
    ensures
        exists|parts: PartsView|
            parts.valid() && key == #[trigger] parts.key(KeyKind::Entity) && parts.entity
                == name_part(artifact.of) && parts.attribute == name_part(artifact.the),
{
    lemma_search_range(parts_of(artifact), key);
    assert(parts_in(KeyKind::Entity, key).key(KeyKind::Entity) == key);
}

/// Asserting an artifact with a cause fails where something that cannot be read is
/// stored for its entity and attribute, before the artifact that the cause refers to:
/// with what is wrong with it.
pub proof fn law_assert_fails_at_what_cannot_be_read(
    contents: Contents,
    artifact: ArtifactView,
    parts: PartsView,
    datum: DatumView,
    error: ErrorView,
)
    requires
        artifact.valid(),
        artifact.cause is Some,
        parts.valid(),
        parts.entity == name_part(artifact.of),
        parts.attribute == name_part(artifact.the),
        parts.value_type < 255,
        state_at(contents, parts.key(KeyKind::Entity)) == Some(StateView::Added(datum)),
        datum.artifact() == Err::<ArtifactView, ErrorView>(error),
        forall|earlier: PartsView|
            earlier.valid() && earlier.entity == parts.entity && earlier.attribute
                == parts.attribute && before(
                #[trigger] earlier.key(KeyKind::Entity),
                parts.key(KeyKind::Entity),
            ) ==> (state_at(contents, earlier.key(KeyKind::Entity)) matches Some(
                StateView::Added(datum),
            ) ==> datum.artifact() matches Ok(stored) && artifact.cause != Some(cause_of(stored))),
    ensures
        after(contents, InstructionView::Assert(artifact)) == Err::<Contents, ErrorView>(error),
{
    let cause = artifact.cause->0;
    let range = search_range(parts_of(artifact));
    let key = parts.key(KeyKind::Entity);
    lemma_searched(parts_of(artifact), parts);
    assert(is_stop(contents, range, cause, key));
    assert forall|other: Seq<u8>| #[trigger] is_stop(contents, range, cause, other) implies other
        == key || before(key, other) by {
        lemma_search_range(parts_of(artifact), other);
        lemma_parts_in_key(parts, KeyKind::Entity);
        let found = parts_in(KeyKind::Entity, other);
        lemma_before_total(key, other);
        if before(other, key) {
            assert(before(found.key(KeyKind::Entity), parts.key(KeyKind::Entity)));
        }
    }
    assert(is_first_stop(contents, range, cause, key));
    let chosen = choose|key: Seq<u8>| is_first_stop(contents, range, cause, key);
    lemma_first_stop_unique(contents, range, cause, key, chosen);
}

} // verus!
