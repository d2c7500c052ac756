//! What is committed is found.
use crate::artifact::{ArtifactView, InstructionView};
use crate::cause::cause_of;
use crate::commit::{CommitPhaseView, CommitView};
use crate::error::ErrorView;
use crate::index::{after_all, Contents};
use crate::key::parts_of;
use crate::laws::committing::{law_commit_follows_instructions, law_commit_succeeds};
use crate::laws::contents::{
    holds, is_consistent, law_all_instructions_keep_consistent, law_assert_stores,
    law_retract_removes,
};
use crate::laws::reading::{
    are_ascending, is_smooth_amid, law_select_finds, output_after, reading_after, reads_amid,
    SharedCourse,
};
use crate::reading::{ReadingPhaseView, ReadingView};
use crate::selector::{lemma_asked_for_matches, SelectorView};
use crate::world::{is_smooth, process_after, takes, world_after, Course, World};
use vstd::prelude::*;

verus! {

/// Whether each instruction is about a valid artifact.
pub open spec fn are_valid(instructions: Seq<InstructionView>) -> bool {
    forall|i: int| 0 <= i < instructions.len() ==> (#[trigger] instructions[i]).artifact().valid()
}

/// Whether an instruction leaves an artifact alone: it is about other keys, and
/// asserts nothing that supersedes the artifact.
pub open spec fn leaves_alone(instruction: InstructionView, artifact: ArtifactView) -> bool {
    &&& parts_of(instruction.artifact()) != parts_of(artifact)
    &&& instruction matches InstructionView::Assert(other) ==> other.cause != Some(
        cause_of(artifact),
    )
}

/// Whether instructions assert an artifact, and those that follow leave it alone.
pub open spec fn assert_for_good(
    instructions: Seq<InstructionView>,
    artifact: ArtifactView,
    at: int,
) -> bool {
    &&& 0 <= at < instructions.len()
    &&& instructions[at] == InstructionView::Assert(artifact)
    &&& forall|i: int|
        at < i < instructions.len() ==> leaves_alone(#[trigger] instructions[i], artifact)
}

/// An artifact that instructions assert, and then leave alone, is stored once they
/// are followed.
pub proof fn law_asserted_is_stored(
    contents: Contents,
    instructions: Seq<InstructionView>,
    artifact: ArtifactView,
    at: int,
)
    requires
        is_consistent(contents),
        are_valid(instructions),
        assert_for_good(instructions, artifact, at),
    ensures
        after_all(contents, instructions) matches Ok(changed) && holds(changed, artifact),
    decreases instructions.len(),
{
    let front = instructions.drop_last();
    let last = instructions.last();
    assert(instructions[instructions.len() - 1].artifact().valid());
    assert(instructions[at].artifact().valid());
    assert forall|i: int| 0 <= i < front.len() implies (#[trigger] front[i])
        == instructions[i] by {}
    law_all_instructions_keep_consistent(contents, front);
    let between = after_all(contents, front)->Ok_0;
    if at == instructions.len() - 1 {
        law_assert_stores(between, artifact, artifact);
    } else {
        law_asserted_is_stored(contents, front, artifact, at);
        assert(leaves_alone(instructions[instructions.len() - 1], artifact));
        match last {
            InstructionView::Assert(other) => {
                law_assert_stores(between, other, artifact);
            },
            InstructionView::Retract(other) => {
                law_retract_removes(between, other, artifact);
            },
        }
    }
}

/// A commit of valid artifacts to a consistent store succeeds if no request fails,
/// and leaves the store consistent.
pub proof fn law_valid_commit_succeeds(
    pointer: Seq<u8>,
    world: World,
    course: Course,
    outcome: Result<Seq<u8>, ErrorView>,
)
    requires
        is_consistent(world.index),
        world.is_settled(),
        are_valid(world.instructions),
        takes(CommitView::start(pointer), world, course),
        is_smooth(course),
        process_after(CommitView::start(pointer), course).phase == CommitPhaseView::Finished(
            outcome,
        ),
    ensures
        outcome is Ok,
        is_consistent(world_after(world, course).index),
{
    law_all_instructions_keep_consistent(world.index, world.instructions);
    law_commit_succeeds(pointer, world, course, outcome);
    law_commit_follows_instructions(pointer, world, course, outcome->Ok_0);
}

/// What was committed for good is handed out when it is selected, unless the
/// selector gives all three of attribute, entity and value.
pub proof fn law_committed_is_selected(
    pointer: Seq<u8>,
    world: World,
    commit: Course,
    revision: Seq<u8>,
    artifact: ArtifactView,
    at: int,
    selector: SelectorView,
    later: World,
    reading: SharedCourse,
)
    requires
        is_consistent(world.index),
        are_valid(world.instructions),
        assert_for_good(world.instructions, artifact, at),
        takes(CommitView::start(pointer), world, commit),
        process_after(CommitView::start(pointer), commit).phase == CommitPhaseView::Finished(
            Ok(revision),
        ),
        selector.valid(),
        !selector.is_full(),
        selector.asks_for(artifact),
        reads_amid(ReadingView::of_selector(selector), later, reading),
        is_smooth_amid(reading),
        reading_after(ReadingView::of_selector(selector), reading).phase is Finished,
        reading[0].0.index == world_after(world, commit).index,
    ensures
        reading_after(ReadingView::of_selector(selector), reading).phase
            == ReadingPhaseView::Finished(Ok(())),
        output_after(later, reading).contains(artifact),
{
    law_commit_follows_instructions(pointer, world, commit, revision);
    law_all_instructions_keep_consistent(world.index, world.instructions);
    law_asserted_is_stored(world.index, world.instructions, artifact, at);
    law_select_finds(selector, later, reading);
    lemma_asked_for_matches(selector, artifact);
    assert(world.instructions[at].artifact().valid());
    let contents = reading[0].0.index;
    let found = choose|found: Seq<ArtifactView>|
        output_after(later, reading) == later.output + found && are_ascending(
            found,
            selector.kind(),
        ) && forall|artifact: ArtifactView| #[trigger]
            found.contains(artifact) <==> !selector.is_full() && artifact.valid() && holds(
                contents,
                artifact,
            ) && selector.matches_parts(parts_of(artifact));
    assert(found.contains(artifact));
    let n = choose|n: int| 0 <= n < found.len() && found[n] == artifact;
    assert((later.output + found)[later.output.len() + n] == artifact);
}

} // verus!
