//! What stores with the same identifier see of each other, on one storage.
use crate::artifact::ArtifactView;
use crate::commit::{CommitPhaseView, CommitView};
use crate::error::ErrorView;
use crate::laws::batching::are_alike;
use crate::laws::committing::law_commit_follows_instructions;
use crate::laws::opening::{
    follows, law_reset_sets_back, law_reset_store_is_at_revision, lemma_stays_stored,
};
use crate::laws::reading::{law_same_contents_read_alike, reads, SharedCourse};
use crate::reading::ReadingView;
use crate::reset::{ResetPhaseView, ResetView};
use crate::world::{held, is_smooth, process_after, takes, world_after, Course, World};
use vstd::prelude::*;

verus! {

/// Stores on one storage that are at the same revision hold the same, where the
/// index of each is that of a stored revision.
pub proof fn law_same_revision_has_same_contents(one: World, two: World)
    requires
        one.is_settled(),
        two.is_settled(),
        follows(one, two),
        one.revision() == two.revision(),
    ensures
        are_alike(one, two),
{
    if let Some(root) = one.index_root() {
        assert(two.revisions.dom().contains((one.refer)(root)));
        assert(two.trees.dom().contains(root));
    }
    if let Some(root) = two.index_root() {
        assert(two.revisions.dom().contains((two.refer)(root)));
    }
}

/// Setting a store back, with no revision given, where the block names the revision
/// that another store is at, brings it to that revision, with the same contents.
pub proof fn law_reset_catches_up(
    pointer: Seq<u8>,
    other: World,
    world: World,
    course: Course,
    outcome: Result<(), ErrorView>,
)
    requires
        other.is_settled(),
        held(world.blocks, pointer) == Some(other.revision()),
        follows(other, world),
        takes(ResetView::start(pointer, None), world, course),
        is_smooth(course),
        process_after(ResetView::start(pointer, None), course).phase == ResetPhaseView::Finished(
            outcome,
        ),
    ensures
        outcome is Ok,
        world_after(world, course).index == other.index,
        world_after(world, course).revision() == other.revision(),
        world_after(world, course).is_settled(),
{
    lemma_stays_stored(other, world);
    law_reset_sets_back(pointer, None, world, course, outcome);
    law_reset_store_is_at_revision(pointer, None, world, course);
}

/// After a commit to one store, another one with the same identifier that is set
/// back, with no revision given, is at the revision that the commit returned, and
/// reading all its artifacts hands out the same as reading those of the first.
pub proof fn law_commit_is_seen(
    pointer: Seq<u8>,
    world: World,
    commit: Course,
    revision: Seq<u8>,
    other: World,
    reset: Course,
    outcome: Result<(), ErrorView>,
    readers: (World, World),
    readings: (SharedCourse, SharedCourse),
    artifacts: (Seq<ArtifactView>, Seq<ArtifactView>),
)
    requires
        takes(CommitView::start(pointer), world, commit),
        process_after(CommitView::start(pointer), commit).phase == CommitPhaseView::Finished(
            Ok(revision),
        ),
        held(other.blocks, pointer) == Some(revision),
        follows(world_after(world, commit), other),
        takes(ResetView::start(pointer, None), other, reset),
        is_smooth(reset),
        process_after(ResetView::start(pointer, None), reset).phase == ResetPhaseView::Finished(
            outcome,
        ),
        reads(
            ReadingView::of_all(false),
            readers.0,
            readings.0,
            world_after(world, commit).index,
            artifacts.0,
        ),
        reads(
            ReadingView::of_all(false),
            readers.1,
            readings.1,
            world_after(other, reset).index,
            artifacts.1,
        ),
    ensures
        outcome is Ok,
        world_after(other, reset).revision() == revision,
        world_after(other, reset).index == world_after(world, commit).index,
        artifacts.0 == artifacts.1,
{
    let committed = world_after(world, commit);
    law_commit_follows_instructions(pointer, world, commit, revision);
    law_reset_catches_up(pointer, committed, other, reset, outcome);
    law_same_contents_read_alike(
        ReadingView::of_all(false),
        readers,
        readings,
        committed.index,
        artifacts,
    );
}

/// After one store was set back to a given revision, another one with the same
/// identifier that is set back, with no revision given, is at that revision too, and
/// reading all its artifacts hands out the same as reading those of the first.
pub proof fn law_reset_is_seen(
    pointer: Seq<u8>,
    revision: Seq<u8>,
    world: World,
    course: Course,
    other: World,
    reset: Course,
    outcome: Result<(), ErrorView>,
    readers: (World, World),
    readings: (SharedCourse, SharedCourse),
    artifacts: (Seq<ArtifactView>, Seq<ArtifactView>),
)
    requires
        world.is_coherent(),
        takes(ResetView::start(pointer, Some(revision)), world, course),
        process_after(ResetView::start(pointer, Some(revision)), course).phase matches
            ResetPhaseView::Finished(Ok(())),
        held(other.blocks, pointer) == Some(revision),
        follows(world_after(world, course), other),
        takes(ResetView::start(pointer, None), other, reset),
        is_smooth(reset),
        process_after(ResetView::start(pointer, None), reset).phase == ResetPhaseView::Finished(
            outcome,
        ),
        reads(
            ReadingView::of_all(false),
            readers.0,
            readings.0,
            world_after(world, course).index,
            artifacts.0,
        ),
        reads(
            ReadingView::of_all(false),
            readers.1,
            readings.1,
            world_after(other, reset).index,
            artifacts.1,
        ),
    ensures
        outcome is Ok,
        world_after(other, reset).revision() == revision,
        world_after(other, reset).index == world_after(world, course).index,
        artifacts.0 == artifacts.1,
{
    let set_back = world_after(world, course);
    law_reset_store_is_at_revision(pointer, Some(revision), world, course);
    law_reset_catches_up(pointer, set_back, other, reset, outcome);
    law_same_contents_read_alike(
        ReadingView::of_all(false),
        readers,
        readings,
        set_back.index,
        artifacts,
    );
}

} // verus!
