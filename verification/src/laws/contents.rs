//! What instructions keep and do, whatever the index holds.
use crate::artifact::{law_artifact_of_its_datum, ArtifactView, InstructionView, StateView};
use crate::cause::cause_of;
use crate::error::ErrorView;
use crate::index::{
    after, after_all, ancestor, is_first_stop, is_stop, search_range, state_at, with_state,
    without_parts, Contents,
};
use crate::key::{
    before, filled, first_less_at, law_keys_are_distinct, lemma_before_asymmetric,
    lemma_key_of_parts_in, lemma_parts_in_key, lemma_range_prefix, parts_in, parts_of, KeyKind,
    PartsView, KEY_LENGTH,
};
use crate::reference::number;
use crate::selector::{law_range_holds_what_matches, RangeView, SelectorView};
use crate::value::ValueView;
use vstd::prelude::*;

verus! {

/// Whether a state is one that an artifact with the given parts can leave: the
/// mark that it was retracted, or the stored form of such an artifact.
pub open spec fn is_state_of(state: StateView, parts: PartsView) -> bool {
    match state {
        StateView::Added(datum) => match datum.artifact() {
            Ok(artifact) => artifact.valid() && parts_of(artifact) == parts && artifact.datum()
                == datum,
            Err(_) => false,
        },
        StateView::Removed => true,
    }
}

/// Whether the three keys with the given parts hold the same: nothing, or a state
/// that an artifact with these parts can leave.
pub open spec fn is_consistent_at(contents: Contents, parts: PartsView) -> bool {
    &&& state_at(contents, parts.key(KeyKind::Attribute)) == state_at(
        contents,
        parts.key(KeyKind::Entity),
    )
    &&& state_at(contents, parts.key(KeyKind::Value)) == state_at(
        contents,
        parts.key(KeyKind::Entity),
    )
    &&& state_at(contents, parts.key(KeyKind::Entity)) matches Some(state) ==> is_state_of(
        state,
        parts,
    )
}

/// Whether the contents are such as instructions leave: no key but those of
/// artifacts, and the same under the three keys of each.
pub open spec fn is_consistent(contents: Contents) -> bool {
    &&& forall|key: Seq<u8>| #[trigger]
        contents.dom().contains(key) ==> key.len() == KEY_LENGTH && key[0] <= 2
    &&& forall|parts: PartsView| parts.valid() ==> #[trigger] is_consistent_at(contents, parts)
}

/// Whether an artifact is stored.
pub open spec fn holds(contents: Contents, artifact: ArtifactView) -> bool {
    state_at(contents, parts_of(artifact).key(KeyKind::Entity)) == Some(
        StateView::Added(artifact.datum()),
    )
}

/// Putting a state under the keys of some parts changes nothing else.
pub proof fn lemma_with_state_at(
    contents: Contents,
    parts: PartsView,
    state: StateView,
    other: PartsView,
    kind: KeyKind,
)
    requires
        parts.valid(),
        other.valid(),
    ensures
        state_at(with_state(contents, parts, state), other.key(kind)) == if parts == other {
            Some(state)
        } else {
            state_at(contents, other.key(kind))
        },
{
    let key = other.key(kind);
    if key == parts.key(KeyKind::Entity) {
        law_keys_are_distinct(parts, other, KeyKind::Entity, kind);
    }
    if key == parts.key(KeyKind::Attribute) {
        law_keys_are_distinct(parts, other, KeyKind::Attribute, kind);
    }
    if key == parts.key(KeyKind::Value) {
        law_keys_are_distinct(parts, other, KeyKind::Value, kind);
    }
}

/// Taking out the keys of some parts changes nothing else.
pub proof fn lemma_without_parts_at(
    contents: Contents,
    parts: PartsView,
    other: PartsView,
    kind: KeyKind,
)
    requires
        parts.valid(),
        other.valid(),
    ensures
        state_at(without_parts(contents, parts), other.key(kind)) == if parts == other {
            None
        } else {
            state_at(contents, other.key(kind))
        },
{
    let key = other.key(kind);
    if key == parts.key(KeyKind::Entity) {
        law_keys_are_distinct(parts, other, KeyKind::Entity, kind);
    }
    if key == parts.key(KeyKind::Attribute) {
        law_keys_are_distinct(parts, other, KeyKind::Attribute, kind);
    }
    if key == parts.key(KeyKind::Value) {
        law_keys_are_distinct(parts, other, KeyKind::Value, kind);
    }
}

proof fn lemma_with_state_consistent(contents: Contents, parts: PartsView, state: StateView)
    requires
        is_consistent(contents),
        parts.valid(),
        is_state_of(state, parts),
    ensures
        is_consistent(with_state(contents, parts, state)),
{
    let changed = with_state(contents, parts, state);
    lemma_parts_in_key(parts, KeyKind::Entity);
    lemma_parts_in_key(parts, KeyKind::Attribute);
    lemma_parts_in_key(parts, KeyKind::Value);
    assert forall|other: PartsView| other.valid() implies #[trigger] is_consistent_at(
        changed,
        other,
    ) by {
        assert(is_consistent_at(contents, other));
        lemma_with_state_at(contents, parts, state, other, KeyKind::Entity);
        lemma_with_state_at(contents, parts, state, other, KeyKind::Attribute);
        lemma_with_state_at(contents, parts, state, other, KeyKind::Value);
    }
}

proof fn lemma_without_parts_consistent(contents: Contents, parts: PartsView)
    requires
        is_consistent(contents),
        parts.valid(),
    ensures
        is_consistent(without_parts(contents, parts)),
{
    let changed = without_parts(contents, parts);
    assert forall|other: PartsView| other.valid() implies #[trigger] is_consistent_at(
        changed,
        other,
    ) by {
        assert(is_consistent_at(contents, other));
        lemma_without_parts_at(contents, parts, other, KeyKind::Entity);
        lemma_without_parts_at(contents, parts, other, KeyKind::Attribute);
        lemma_without_parts_at(contents, parts, other, KeyKind::Value);
    }
}

/// Of two keys of one length, one comes before the other.
pub proof fn lemma_before_total(a: Seq<u8>, b: Seq<u8>)
    requires
        a.len() == b.len(),
    ensures
        a == b || before(a, b) || before(b, a),
{
    lemma_before_total_from(a, b, 0);
}

proof fn lemma_before_total_from(a: Seq<u8>, b: Seq<u8>, n: int)
    requires
        a.len() == b.len(),
        0 <= n <= a.len(),
        forall|i: int| 0 <= i < n ==> a[i] == b[i],
    ensures
        a == b || before(a, b) || before(b, a),
    decreases a.len() - n,
{
    if n == a.len() {
        assert(a =~= b);
    } else if a[n] < b[n] {
        assert(first_less_at(a, b, n));
    } else if b[n] < a[n] {
        assert(first_less_at(b, a, n));
    } else {
        lemma_before_total_from(a, b, n + 1);
    }
}

/// A key that comes before another of the same length spells a lesser number.
proof fn lemma_before_is_less(a: Seq<u8>, b: Seq<u8>)
    requires
        a.len() == b.len(),
        before(a, b),
    ensures
        number(a) < number(b),
    decreases a.len(),
{
    let i = choose|i: int| first_less_at(a, b, i);
    if i == a.len() - 1 {
        assert(a.drop_last() =~= b.drop_last());
    } else {
        assert(first_less_at(a.drop_last(), b.drop_last(), i));
        lemma_before_is_less(a.drop_last(), b.drop_last());
    }
}

/// A search that stops somewhere stops at a first key.
pub proof fn lemma_first_stop_exists(
    contents: Contents,
    range: RangeView,
    cause: Seq<u8>,
    key: Seq<u8>,
)
    requires
        is_stop(contents, range, cause, key),
    ensures
        exists|first: Seq<u8>| is_first_stop(contents, range, cause, first),
    decreases number(key),
{
    if !is_first_stop(contents, range, cause, key) {
        let other = choose|other: Seq<u8>| #[trigger]
            is_stop(contents, range, cause, other) && !(other == key || before(key, other));
        lemma_before_total(other, key);
        lemma_before_is_less(other, key);
        lemma_first_stop_exists(contents, range, cause, other);
    }
}

/// A search stops first at one key only.
pub proof fn lemma_first_stop_unique(
    contents: Contents,
    range: RangeView,
    cause: Seq<u8>,
    a: Seq<u8>,
    b: Seq<u8>,
)
    requires
        is_first_stop(contents, range, cause, a),
        is_first_stop(contents, range, cause, b),
    ensures
        a == b,
{
    if a != b {
        assert(is_stop(contents, range, cause, b));
        assert(is_stop(contents, range, cause, a));
        lemma_before_asymmetric(a, b);
    }
}

/// The keys that are searched are the entity keys of the entity and the attribute.
pub proof fn lemma_search_range(parts: PartsView, key: Seq<u8>)
    requires
        parts.valid(),
        search_range(parts).has_key(key),
    ensures
        key.len() == KEY_LENGTH,
        key[0] == KeyKind::Entity.mark(),
        parts_in(KeyKind::Entity, key).valid(),
        parts_in(KeyKind::Entity, key).key(KeyKind::Entity) == key,
        parts_in(KeyKind::Entity, key).entity == parts.entity,
        parts_in(KeyKind::Entity, key).attribute == parts.attribute,
{
    let least = PartsView { value_type: 0, value_reference: filled(32, 0), ..parts };
    let greatest = PartsView { value_type: 255, value_reference: filled(32, 255), ..parts };
    lemma_parts_in_key(least, KeyKind::Entity);
    lemma_parts_in_key(greatest, KeyKind::Entity);
    lemma_range_prefix(search_range(parts).start, search_range(parts).end, key, 129);
    lemma_key_of_parts_in(KeyKind::Entity, key);
    let found = parts_in(KeyKind::Entity, key);
    assert(found.entity =~= parts.entity) by {
        assert forall|i: int| 0 <= i < 64 implies found.entity[i] == parts.entity[i] by {
            assert(least.key(KeyKind::Entity)[1 + i] == parts.entity[i]);
            assert(key[1 + i] == least.key(KeyKind::Entity)[1 + i]);
        }
    }
    assert(found.attribute =~= parts.attribute) by {
        assert forall|i: int| 0 <= i < 64 implies found.attribute[i] == parts.attribute[i] by {
            assert(least.key(KeyKind::Entity)[65 + i] == parts.attribute[i]);
            assert(key[65 + i] == least.key(KeyKind::Entity)[65 + i]);
        }
    }
}

/// What is found for a cause, in consistent contents: nothing, or the key of a
/// stored artifact of the same entity and attribute that the cause refers to.
pub proof fn lemma_ancestor(contents: Contents, parts: PartsView, cause: Seq<u8>)
    requires
        is_consistent(contents),
        parts.valid(),
    ensures
        match ancestor(contents, search_range(parts), cause) {
            Ok(Some(key)) => {
                let old = parts_in(KeyKind::Entity, key);
                &&& is_first_stop(contents, search_range(parts), cause, key)
                &&& old.valid()
                &&& old.key(KeyKind::Entity) == key
                &&& old.entity == parts.entity
                &&& old.attribute == parts.attribute
                &&& exists|artifact: ArtifactView|
                    holds(contents, artifact) && artifact.valid() && parts_of(artifact) == old
                        && #[trigger] cause_of(artifact) == cause
            },
            Ok(None) => forall|key: Seq<u8>|
                !(#[trigger] is_stop(contents, search_range(parts), cause, key)),
            Err(_) => false,
        },
{
    let range = search_range(parts);
    if exists|key: Seq<u8>| is_first_stop(contents, range, cause, key) {
        let key = choose|key: Seq<u8>| is_first_stop(contents, range, cause, key);
        lemma_search_range(parts, key);
        let old = parts_in(KeyKind::Entity, key);
        assert(is_consistent_at(contents, old));
        let artifact = contents[key]->Added_0.artifact()->Ok_0;
        assert(holds(contents, artifact));
        assert(cause_of(artifact) == cause);
    } else {
        assert forall|key: Seq<u8>| !(#[trigger] is_stop(contents, range, cause, key)) by {
            if is_stop(contents, range, cause, key) {
                lemma_first_stop_exists(contents, range, cause, key);
            }
        }
    }
}

/// In consistent contents every instruction can be followed, and leaves them
/// consistent.
pub proof fn law_instructions_keep_consistent(contents: Contents, instruction: InstructionView)
    requires
        is_consistent(contents),
        instruction.artifact().valid(),
    ensures
        after(contents, instruction) matches Ok(changed) && is_consistent(changed),
{
    let artifact = instruction.artifact();
    let parts = parts_of(artifact);
    match instruction {
        InstructionView::Assert(artifact) => {
            law_artifact_of_its_datum(artifact);
            let state = StateView::Added(artifact.datum());
            match artifact.cause {
                Some(cause) => {
                    lemma_ancestor(contents, parts, cause);
                    if let Ok(Some(key)) = ancestor(contents, search_range(parts), cause) {
                        let old = parts_in(KeyKind::Entity, key);
                        lemma_without_parts_consistent(contents, old);
                        lemma_with_state_consistent(without_parts(contents, old), parts, state);
                    } else {
                        lemma_with_state_consistent(contents, parts, state);
                    }
                },
                None => {
                    lemma_with_state_consistent(contents, parts, state);
                },
            }
        },
        InstructionView::Retract(_) => {
            lemma_with_state_consistent(contents, parts, StateView::Removed);
        },
    }
}

/// Contents without anything in them are consistent.
pub proof fn law_empty_is_consistent()
    ensures
        is_consistent(Map::empty()),
{
    assert forall|parts: PartsView| parts.valid() implies #[trigger] is_consistent_at(
        Map::empty(),
        parts,
    ) by {}
}

/// Instructions, one after the other, keep contents consistent.
pub proof fn law_all_instructions_keep_consistent(
    contents: Contents,
    instructions: Seq<InstructionView>,
)
    requires
        is_consistent(contents),
        forall|i: int|
            0 <= i < instructions.len() ==> (#[trigger] instructions[i]).artifact().valid(),
    ensures
        after_all(contents, instructions) matches Ok(changed) && is_consistent(changed),
    decreases instructions.len(),
{
    if instructions.len() > 0 {
        law_all_instructions_keep_consistent(contents, instructions.drop_last());
        law_instructions_keep_consistent(
            after_all(contents, instructions.drop_last())->Ok_0,
            instructions.last(),
        );
    }
}

/// Instructions do what their parts do one after the other: what comes later sees
/// what came earlier, and an error in front is an error of the whole.
pub proof fn law_batch_is_its_parts(
    contents: Contents,
    front: Seq<InstructionView>,
    rest: Seq<InstructionView>,
)
    ensures
        after_all(contents, front + rest) == match after_all(contents, front) {
            Ok(between) => after_all(between, rest),
            Err(error) => Err(error),
        },
    decreases rest.len(),
{
    if rest.len() == 0 {
        assert(front + rest =~= front);
    } else {
        law_batch_is_its_parts(contents, front, rest.drop_last());
        assert((front + rest).drop_last() =~= front + rest.drop_last());
    }
}

/// Asserting an artifact without a cause once more changes nothing, nor does
/// retracting it and asserting it once more.
pub proof fn law_asserting_again_changes_nothing(contents: Contents, artifact: ArtifactView)
    requires
        artifact.cause is None,
    ensures
        after_all(contents, seq![InstructionView::Assert(artifact)]) matches Ok(changed) && {
            &&& after_all(changed, seq![InstructionView::Assert(artifact)]) == Ok::<
                Contents,
                ErrorView,
            >(changed)
            &&& after_all(
                contents,
                seq![InstructionView::Assert(artifact), InstructionView::Assert(artifact)],
            ) == Ok::<Contents, ErrorView>(changed)
            &&& after_all(
                contents,
                seq![
                    InstructionView::Assert(artifact),
                    InstructionView::Retract(artifact),
                    InstructionView::Assert(artifact),
                ],
            ) == Ok::<Contents, ErrorView>(changed)
        },
{
    let parts = parts_of(artifact);
    let state = StateView::Added(artifact.datum());
    let once = seq![InstructionView::Assert(artifact)];
    let between = seq![InstructionView::Retract(artifact)];
    let changed = with_state(contents, parts, state);
    let removed = with_state(changed, parts, StateView::Removed);
    lemma_one(contents, once[0]);
    lemma_one(changed, once[0]);
    lemma_one(changed, between[0]);
    lemma_one(removed, once[0]);
    assert(with_state(changed, parts, state) =~= changed);
    assert(with_state(removed, parts, state) =~= changed);
    law_batch_is_its_parts(contents, once, once);
    assert(once + once =~= seq![once[0], once[0]]);
    law_batch_is_its_parts(contents, once, between);
    law_batch_is_its_parts(contents, once + between, once);
    assert(once + between + once =~= seq![once[0], between[0], once[0]]);
}

/// What one instruction makes of the contents.
proof fn lemma_one(contents: Contents, instruction: InstructionView)
    ensures
        after_all(contents, seq![instruction]) == after(contents, instruction),
{
    let instructions = seq![instruction];
    assert(after_all(contents, instructions.drop_last()) == Ok::<Contents, ErrorView>(contents));
}

/// An artifact that is asserted is stored. What else is stored stays, but for the
/// artifact that it supersedes, and one with the same keys.
pub proof fn law_assert_stores(contents: Contents, artifact: ArtifactView, other: ArtifactView)
    requires
        is_consistent(contents),
        artifact.valid(),
        other.valid(),
    ensures
        after(contents, InstructionView::Assert(artifact)) matches Ok(changed) && {
            &&& holds(changed, artifact)
            &&& parts_of(other) != parts_of(artifact) && artifact.cause != Some(cause_of(other))
                ==> holds(changed, other) == holds(contents, other)
            &&& parts_of(other) != parts_of(artifact) ==> (holds(changed, other) ==> holds(
                contents,
                other,
            ))
        },
{
    let parts = parts_of(artifact);
    let state = StateView::Added(artifact.datum());
    match artifact.cause {
        Some(cause) => {
            lemma_ancestor(contents, parts, cause);
            match ancestor(contents, search_range(parts), cause) {
                Ok(Some(key)) => {
                    let old = parts_in(KeyKind::Entity, key);
                    let pruned = without_parts(contents, old);
                    lemma_without_parts_at(contents, old, parts_of(other), KeyKind::Entity);
                    lemma_with_state_at(pruned, parts, state, parts, KeyKind::Entity);
                    lemma_with_state_at(pruned, parts, state, parts_of(other), KeyKind::Entity);
                    if old == parts_of(other) && holds(contents, other) {
                        law_artifact_of_its_datum(other);
                        assert(cause_of(other) == cause);
                    }
                },
                _ => {
                    lemma_with_state_at(contents, parts, state, parts, KeyKind::Entity);
                    lemma_with_state_at(contents, parts, state, parts_of(other), KeyKind::Entity);
                },
            }
        },
        None => {
            lemma_with_state_at(contents, parts, state, parts, KeyKind::Entity);
            lemma_with_state_at(contents, parts, state, parts_of(other), KeyKind::Entity);
        },
    }
}

/// An artifact that is retracted is not stored any more. What has other keys
/// stays as it is.
pub proof fn law_retract_removes(contents: Contents, artifact: ArtifactView, other: ArtifactView)
    ensures
        after(contents, InstructionView::Retract(artifact)) matches Ok(changed) && {
            &&& !holds(changed, artifact)
            &&& parts_of(other) == parts_of(artifact) ==> !holds(changed, other)
            &&& parts_of(other) != parts_of(artifact) ==> holds(changed, other) == holds(
                contents,
                other,
            )
        },
{
    let parts = parts_of(artifact);
    lemma_with_state_at(contents, parts, StateView::Removed, parts, KeyKind::Entity);
    lemma_with_state_at(contents, parts, StateView::Removed, parts_of(other), KeyKind::Entity);
}

/// Asserting the update of a stored artifact puts the update in the place of the
/// artifact: afterwards the update is stored, the artifact is not unless the two
/// have the same keys, and nothing else changes. No other artifact that is stored
/// for the same entity and attribute may share the reference of the updated one.
pub proof fn law_update_replaces(
    contents: Contents,
    artifact: ArtifactView,
    value: ValueView,
    other: ArtifactView,
)
    requires
        is_consistent(contents),
        artifact.valid(),
        other.valid(),
        holds(contents, artifact),
        forall|rival: ArtifactView|
            holds(contents, rival) && rival.valid() && rival.of == artifact.of && rival.the
                == artifact.the && #[trigger] cause_of(rival) == cause_of(artifact) ==> rival
                == artifact,
    ensures
        after(contents, InstructionView::Assert(artifact.updated(value))) matches Ok(changed) && {
            let update = artifact.updated(value);
            &&& holds(changed, update)
            &&& parts_of(artifact) != parts_of(update) ==> !holds(changed, artifact)
            &&& parts_of(other) != parts_of(update) && parts_of(other) != parts_of(artifact)
                ==> holds(changed, other) == holds(contents, other)
        },
{
    let update = artifact.updated(value);
    let cause = cause_of(artifact);
    let parts = parts_of(update);
    let range = search_range(parts);
    let key = parts_of(artifact).key(KeyKind::Entity);
    law_artifact_of_its_datum(artifact);
    // The updated artifact is where the search can stop.
    assert(is_stop(contents, range, cause, key)) by {
        let selector = SelectorView {
            attribute: Some(artifact.the),
            entity: Some(artifact.of),
            value: None,
        };
        law_range_holds_what_matches(selector, artifact);
        assert(selector.applied_to(PartsView::uniform(0)) =~= PartsView {
            value_type: 0,
            value_reference: filled(32, 0),
            ..parts
        });
        assert(selector.applied_to(PartsView::uniform(255)) =~= PartsView {
            value_type: 255,
            value_reference: filled(32, 255),
            ..parts
        });
    }
    lemma_ancestor(contents, parts, cause);
    let found = ancestor(contents, range, cause)->Ok_0->0;
    let old = parts_in(KeyKind::Entity, found);
    let rival = choose|rival: ArtifactView|
        holds(contents, rival) && rival.valid() && parts_of(rival) == old
            && #[trigger] cause_of(rival) == cause;
    crate::name::lemma_name_part_injective(rival.of, artifact.of);
    crate::name::lemma_name_part_injective(rival.the, artifact.the);
    assert(rival == artifact);
    let state = StateView::Added(update.datum());
    let pruned = without_parts(contents, old);
    lemma_without_parts_at(contents, old, parts_of(other), KeyKind::Entity);
    lemma_without_parts_at(contents, old, parts_of(artifact), KeyKind::Entity);
    lemma_with_state_at(pruned, parts, state, parts, KeyKind::Entity);
    lemma_with_state_at(pruned, parts, state, parts_of(other), KeyKind::Entity);
    lemma_with_state_at(pruned, parts, state, parts_of(artifact), KeyKind::Entity);
}

} // verus!
