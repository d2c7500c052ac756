//! The order of assertions does not matter where they are independent.
use crate::artifact::{law_artifact_of_its_datum, ArtifactView, InstructionView, StateView};
use crate::cause::cause_of;
use crate::error::ErrorView;
use crate::index::{
    after, after_all, ancestor, search_range, state_at, with_state, Contents,
};
use crate::key::{parts_of, KeyKind};
use crate::laws::contents::{
    holds, is_consistent, law_instructions_keep_consistent, lemma_ancestor, lemma_with_state_at,
};
use vstd::prelude::*;

verus! {

/// The instructions that assert artifacts.
pub open spec fn assertions(artifacts: Seq<ArtifactView>) -> Seq<InstructionView> {
    artifacts.map_values(|artifact: ArtifactView| InstructionView::Assert(artifact))
}

/// Whether artifacts can be put into the contents without getting in each other's
/// way: they are valid, no two of them have the same keys, and none supersedes
/// another of them or one that is stored.
pub open spec fn are_independent(contents: Contents, artifacts: Seq<ArtifactView>) -> bool {
    &&& forall|i: int| 0 <= i < artifacts.len() ==> (#[trigger] artifacts[i]).valid()
    &&& forall|i: int, j: int|
        0 <= i < artifacts.len() && 0 <= j < artifacts.len() && parts_of(
            #[trigger] artifacts[i],
        ) == parts_of(#[trigger] artifacts[j]) ==> artifacts[i] == artifacts[j]
    &&& forall|i: int, j: int|
        0 <= i < artifacts.len() && 0 <= j < artifacts.len() ==> (#[trigger] artifacts[i]).cause
            != Some(cause_of(#[trigger] artifacts[j]))
    &&& forall|i: int, stored: ArtifactView|
        0 <= i < artifacts.len() && stored.valid() && #[trigger] holds(contents, stored)
            ==> (#[trigger] artifacts[i]).cause != Some(cause_of(stored))
}

/// Whether a key is one of an artifact's.
pub open spec fn is_key_of(key: Seq<u8>, artifact: ArtifactView) -> bool {
    exists|kind: KeyKind| key == #[trigger] parts_of(artifact).key(kind)
}

/// What is stored once artifacts are under their keys, and other keys are as they
/// were, is one of the artifacts or was stored before.
proof fn lemma_no_rival(
    contents: Contents,
    changed: Contents,
    artifacts: Seq<ArtifactView>,
    rival: ArtifactView,
)
    requires
        rival.valid(),
        holds(changed, rival),
        forall|i: int| 0 <= i < artifacts.len() ==> (#[trigger] artifacts[i]).valid(),
        forall|i: int, kind: KeyKind|
            0 <= i < artifacts.len() ==> state_at(
                changed,
                #[trigger] parts_of(artifacts[i]).key(kind),
            ) == Some(StateView::Added(artifacts[i].datum())),
        forall|key: Seq<u8>|
            #![trigger state_at(changed, key)]
            (forall|i: int| 0 <= i < artifacts.len() ==> !is_key_of(key, #[trigger] artifacts[i]))
                ==> state_at(changed, key) == state_at(contents, key),
    ensures
        holds(contents, rival) || exists|i: int|
            0 <= i < artifacts.len() && #[trigger] artifacts[i] == rival,
{
    let key = parts_of(rival).key(KeyKind::Entity);
    if exists|i: int| 0 <= i < artifacts.len() && is_key_of(key, #[trigger] artifacts[i]) {
        let i = choose|i: int| 0 <= i < artifacts.len() && is_key_of(key, #[trigger] artifacts[i]);
        let kind = choose|kind: KeyKind| key == #[trigger] parts_of(artifacts[i]).key(kind);
        assert(state_at(changed, parts_of(artifacts[i]).key(kind)) == Some(
            StateView::Added(artifacts[i].datum()),
        ));
        law_artifact_of_its_datum(rival);
        law_artifact_of_its_datum(artifacts[i]);
    }
}

/// What assertions of independent artifacts make of the contents: the artifacts
/// are under their keys, and under other keys nothing changes.
pub proof fn lemma_assertions(contents: Contents, artifacts: Seq<ArtifactView>)
    requires
        is_consistent(contents),
        are_independent(contents, artifacts),
    ensures
        after_all(contents, assertions(artifacts)) matches Ok(changed) && {
            &&& is_consistent(changed)
            &&& forall|i: int, kind: KeyKind|
                0 <= i < artifacts.len() ==> state_at(
                    changed,
                    #[trigger] parts_of(artifacts[i]).key(kind),
                ) == Some(StateView::Added(artifacts[i].datum()))
            &&& forall|key: Seq<u8>|
                #![trigger state_at(changed, key)]
                (forall|i: int|
                    0 <= i < artifacts.len() ==> !is_key_of(key, #[trigger] artifacts[i]))
                    ==> state_at(changed, key) == state_at(contents, key)
        },
    decreases artifacts.len(),
{
    if artifacts.len() > 0 {
        let front = artifacts.drop_last();
        let last = artifacts.last();
        assert(assertions(artifacts).drop_last() =~= assertions(front));
        assert forall|i: int| 0 <= i < front.len() implies #[trigger] front[i] == artifacts[i] by {}
        lemma_assertions(contents, front);
        let between = after_all(contents, assertions(front))->Ok_0;
        let state = StateView::Added(last.datum());
        let changed = with_state(between, parts_of(last), state);
        assert(artifacts[artifacts.len() - 1] == last);
        law_instructions_keep_consistent(between, InstructionView::Assert(last));
        if let Some(cause) = last.cause {
            lemma_ancestor(between, parts_of(last), cause);
            if let Ok(Some(_)) = ancestor(between, search_range(parts_of(last)), cause) {
                let rival = choose|rival: ArtifactView|
                    holds(between, rival) && rival.valid() && #[trigger] cause_of(rival) == cause;
                lemma_no_rival(contents, between, front, rival);
                if !holds(contents, rival) {
                    let i = choose|i: int| 0 <= i < front.len() && #[trigger] front[i] == rival;
                    assert(artifacts[i] == rival);
                }
                assert(false);
            }
        }
        assert(after_all(contents, assertions(artifacts)) == Ok::<Contents, ErrorView>(changed));
        assert forall|i: int, kind: KeyKind| 0 <= i < artifacts.len() implies state_at(
            changed,
            #[trigger] parts_of(artifacts[i]).key(kind),
        ) == Some(StateView::Added(artifacts[i].datum())) by {
            lemma_with_state_at(between, parts_of(last), state, parts_of(artifacts[i]), kind);
            if i < front.len() {
                assert(front[i] == artifacts[i]);
                assert(state_at(between, parts_of(front[i]).key(kind)) == Some(
                    StateView::Added(front[i].datum()),
                ));
            }
        }
        assert forall|key: Seq<u8>|
            #![trigger state_at(changed, key)]
            (forall|i: int|
                0 <= i < artifacts.len() ==> !is_key_of(
                    key,
                    #[trigger] artifacts[i],
                )) implies state_at(changed, key) == state_at(contents, key) by {
            assert(!is_key_of(key, artifacts[artifacts.len() - 1]));
            assert(key != parts_of(last).key(KeyKind::Entity));
            assert(key != parts_of(last).key(KeyKind::Attribute));
            assert(key != parts_of(last).key(KeyKind::Value));
            assert forall|i: int| 0 <= i < front.len() implies !is_key_of(
                key,
                #[trigger] front[i],
            ) by {
                assert(front[i] == artifacts[i]);
            }
            assert(state_at(between, key) == state_at(contents, key));
        }
    }
}

/// Artifacts of independent ones are independent.
proof fn lemma_independent_too(contents: Contents, a: Seq<ArtifactView>, b: Seq<ArtifactView>)
    requires
        are_independent(contents, a),
        forall|artifact: ArtifactView| b.contains(artifact) ==> a.contains(artifact),
    ensures
        are_independent(contents, b),
{
    assert forall|i: int| 0 <= i < b.len() implies exists|k: int|
        0 <= k < a.len() && a[k] == #[trigger] b[i] by {
        assert(b.contains(b[i]));
    }
    assert forall|i: int, j: int|
        0 <= i < b.len() && 0 <= j < b.len() && parts_of(#[trigger] b[i]) == parts_of(
            #[trigger] b[j],
        ) implies b[i] == b[j] by {
        let k = choose|k: int| 0 <= k < a.len() && a[k] == b[i];
        let l = choose|l: int| 0 <= l < a.len() && a[l] == b[j];
        assert(a[k] == a[l]);
    }
    assert forall|i: int, j: int| 0 <= i < b.len() && 0 <= j < b.len() implies (
    #[trigger] b[i]).cause != Some(cause_of(#[trigger] b[j])) by {
        let k = choose|k: int| 0 <= k < a.len() && a[k] == b[i];
        let l = choose|l: int| 0 <= l < a.len() && a[l] == b[j];
        assert(a[k].cause != Some(cause_of(a[l])));
    }
}

/// Two lists of the same independent artifacts, asserted one after the other in
/// whatever order, leave the same contents.
pub proof fn law_order_does_not_matter(
    contents: Contents,
    a: Seq<ArtifactView>,
    b: Seq<ArtifactView>,
)
    requires
        is_consistent(contents),
        are_independent(contents, a),
        forall|artifact: ArtifactView| a.contains(artifact) <==> b.contains(artifact),
    ensures
        after_all(contents, assertions(a)) is Ok,
        after_all(contents, assertions(a)) == after_all(contents, assertions(b)),
{
    lemma_independent_too(contents, a, b);
    lemma_assertions(contents, a);
    lemma_assertions(contents, b);
    let x = after_all(contents, assertions(a))->Ok_0;
    let y = after_all(contents, assertions(b))->Ok_0;
    assert forall|key: Seq<u8>| state_at(x, key) == #[trigger] state_at(y, key) by {
        if exists|i: int| 0 <= i < a.len() && is_key_of(key, #[trigger] a[i]) {
            let i = choose|i: int| 0 <= i < a.len() && is_key_of(key, #[trigger] a[i]);
            let kind = choose|kind: KeyKind| key == #[trigger] parts_of(a[i]).key(kind);
            assert(a.contains(a[i]));
            let j = choose|j: int| 0 <= j < b.len() && b[j] == a[i];
            assert(state_at(x, parts_of(a[i]).key(kind)) == Some(StateView::Added(a[i].datum())));
            assert(state_at(y, parts_of(b[j]).key(kind)) == Some(StateView::Added(b[j].datum())));
        } else {
            assert forall|j: int| 0 <= j < b.len() implies !is_key_of(key, #[trigger] b[j]) by {
                assert(b.contains(b[j]));
                let i = choose|i: int| 0 <= i < a.len() && a[i] == b[j];
                assert(!is_key_of(key, a[i]));
            }
            assert(state_at(x, key) == state_at(contents, key));
        }
    }
    assert(x =~= y) by {
        assert forall|key: Seq<u8>| x.dom().contains(key) == y.dom().contains(key) by {
            assert(state_at(x, key) == state_at(y, key));
        }
        assert forall|key: Seq<u8>| x.dom().contains(key) implies x[key] == y[key] by {
            assert(state_at(x, key) == state_at(y, key));
        }
    }
}

} // verus!
