//! Commits in one or in parts, and commits of the same again.
use crate::artifact::{ArtifactView, InstructionView};
use crate::commit::{CommitPhaseView, CommitView};
use crate::error::ErrorView;
use crate::index::after_all;
use crate::laws::committing::{law_commit_follows_instructions, law_commit_succeeds};
use crate::laws::contents::{law_asserting_again_changes_nothing, law_batch_is_its_parts};
use crate::world::{is_smooth, process_after, takes, world_after, Course, World};
use vstd::prelude::*;

verus! {

/// Whether a commit to a store whose index is that of a stored revision comes to its
/// end in a course in which no request fails, and with the given outcome.
pub open spec fn commits(
    pointer: Seq<u8>,
    world: World,
    course: Course,
    outcome: Result<Seq<u8>, ErrorView>,
) -> bool {
    &&& world.is_settled()
    &&& takes(CommitView::start(pointer), world, course)
    &&& is_smooth(course)
    &&& process_after(CommitView::start(pointer), course).phase == CommitPhaseView::Finished(
        outcome,
    )
}

/// Whether two stores hold the same, and name their revisions in the same way: so
/// they are at the same revision.
pub open spec fn are_alike(one: World, two: World) -> bool {
    &&& one.index == two.index
    &&& one.root == two.root
    &&& one.refer == two.refer
}

/// How a commit in which no request fails ends, and what it leaves.
proof fn lemma_commits(
    pointer: Seq<u8>,
    world: World,
    course: Course,
    outcome: Result<Seq<u8>, ErrorView>,
)
    requires
        commits(pointer, world, course, outcome),
    ensures
        match after_all(world.index, world.instructions) {
            Ok(contents) => {
                let now = world_after(world, course);
                &&& outcome == Ok::<Seq<u8>, ErrorView>(now.revision())
                &&& are_alike(now, World { index: contents, ..world })
            },
            Err(error) => outcome == Err::<Seq<u8>, ErrorView>(error),
        },
{
    law_commit_succeeds(pointer, world, course, outcome);
    if let Ok(revision) = outcome {
        law_commit_follows_instructions(pointer, world, course, revision);
    }
}

/// A commit of instructions ends as commits of their parts do, one after the other,
/// to a store that holds the same: with the same revision and the same contents, or
/// with the error of the first part that fails.
pub proof fn law_batch_gives_same_revision(
    pointers: (Seq<u8>, Seq<u8>),
    one: World,
    whole: Course,
    outcome: Result<Seq<u8>, ErrorView>,
    two: World,
    front: Course,
    earlier: Result<Seq<u8>, ErrorView>,
    between: World,
    rest: Course,
    later: Result<Seq<u8>, ErrorView>,
)
    requires
        are_alike(one, two),
        commits(pointers.0, one, whole, outcome),
        commits(pointers.1, two, front, earlier),
        earlier is Ok ==> are_alike(world_after(two, front), between) && commits(
            pointers.1,
            between,
            rest,
            later,
        ),
        one.instructions == two.instructions + between.instructions,
    ensures
        outcome == match earlier {
            Ok(_) => later,
            Err(error) => Err(error),
        },
        outcome is Ok ==> are_alike(world_after(one, whole), world_after(between, rest)),
{
    lemma_commits(pointers.0, one, whole, outcome);
    lemma_commits(pointers.1, two, front, earlier);
    if earlier is Ok {
        lemma_commits(pointers.1, between, rest, later);
    }
    law_batch_is_its_parts(one.index, two.instructions, between.instructions);
}

/// Committing an artifact without a cause once more succeeds, and gives the same
/// revision and the same contents.
pub proof fn law_asserting_again_gives_same_revision(
    pointer: Seq<u8>,
    artifact: ArtifactView,
    worlds: (World, World),
    courses: (Course, Course),
    outcomes: (Result<Seq<u8>, ErrorView>, Result<Seq<u8>, ErrorView>),
)
    requires
        artifact.cause is None,
        worlds.0.instructions == seq![InstructionView::Assert(artifact)],
        worlds.1.instructions == seq![InstructionView::Assert(artifact)],
        commits(pointer, worlds.0, courses.0, outcomes.0),
        are_alike(world_after(worlds.0, courses.0), worlds.1),
        commits(pointer, worlds.1, courses.1, outcomes.1),
    ensures
        outcomes.0 is Ok,
        outcomes.1 == outcomes.0,
        are_alike(world_after(worlds.0, courses.0), world_after(worlds.1, courses.1)),
{
    lemma_commits(pointer, worlds.0, courses.0, outcomes.0);
    lemma_commits(pointer, worlds.1, courses.1, outcomes.1);
    law_asserting_again_changes_nothing(worlds.0.index, artifact);
}

/// Committing an artifact without a cause, its retraction, and the artifact once
/// more succeeds, and gives the revision and the contents that committing it alone
/// gives to a store that holds the same.
pub proof fn law_asserting_after_retraction_gives_same_revision(
    pointers: (Seq<u8>, Seq<u8>),
    artifact: ArtifactView,
    worlds: (World, World),
    courses: (Course, Course),
    outcomes: (Result<Seq<u8>, ErrorView>, Result<Seq<u8>, ErrorView>),
)
    requires
        artifact.cause is None,
        are_alike(worlds.0, worlds.1),
        worlds.0.instructions == seq![InstructionView::Assert(artifact)],
        worlds.1.instructions == seq![
            InstructionView::Assert(artifact),
            InstructionView::Retract(artifact),
            InstructionView::Assert(artifact),
        ],
        commits(pointers.0, worlds.0, courses.0, outcomes.0),
        commits(pointers.1, worlds.1, courses.1, outcomes.1),
    ensures
        outcomes.0 is Ok,
        outcomes.1 == outcomes.0,
        are_alike(world_after(worlds.0, courses.0), world_after(worlds.1, courses.1)),
{
    lemma_commits(pointers.0, worlds.0, courses.0, outcomes.0);
    lemma_commits(pointers.1, worlds.1, courses.1, outcomes.1);
    law_asserting_again_changes_nothing(worlds.0.index, artifact);
}

} // verus!
