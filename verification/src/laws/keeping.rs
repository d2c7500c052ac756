//! What every operation keeps, whether or not it succeeds.
use crate::commit::{CommitPhaseView, CommitView};
use crate::import::ImportView;
use crate::laws::committing::extends;
use crate::protocol::{Process, ReplyView, RequestView};
use crate::reset::ResetView;
use crate::world::{takes, world_after, Course, World};
use vstd::prelude::*;

verus! {

/// Where everything is stored under its own name, this is so after every answer.
pub proof fn law_answer_keeps_coherent(
    world: World,
    request: RequestView,
    reply: ReplyView,
    after: World,
)
    requires
        world.is_coherent(),
        world.answers(request, reply, after),
    ensures
        after.is_coherent(),
        after.root == world.root,
        after.refer == world.refer,
{
}

/// Where everything is stored under its own name, this is so after every operation,
/// whatever its course.
pub proof fn law_storage_stays_coherent<P: Process>(process: P, world: World, course: Course)
    requires
        world.is_coherent(),
        takes(process, world, course),
    ensures
        world_after(world, course).is_coherent(),
    decreases course.len(),
{
    if course.len() > 0 {
        let (reply, after) = course[0];
        law_answer_keeps_coherent(world, process.request()->0, reply, after);
        law_storage_stays_coherent(process.next(reply), after, course.drop_first());
        assert(world_after(after, course.drop_first()) == world_after(world, course));
    }
}

/// A reset holds the index as each of its requests needs it.
pub proof fn law_reset_has_access(reset: ResetView)
    ensures
        reset.request() matches Some(request) ==> reset.access().covers(request.access()),
{
}

/// A commit holds the index as each of its requests needs it.
pub proof fn law_commit_has_access(commit: CommitView)
    ensures
        commit.request() matches Some(request) ==> commit.access().covers(request.access()),
{
}

/// The commit that an import feeds holds the index as each request of the import
/// needs it.
pub proof fn law_import_has_access(import: ImportView)
    ensures
        import.request() matches Some(request) ==> import.commit.access().covers(request.access()),
{
}

/// Whether nothing is lost that other stores rely on: no block has changed but the
/// one with the given key, every revision is still stored, and the index can still
/// be set back to every root.
pub open spec fn keeps_others(pointer: Seq<u8>, start: World, now: World) -> bool {
    &&& now.blocks.remove(pointer) == start.blocks.remove(pointer)
    &&& extends(start.revisions, now.revisions)
    &&& extends(start.trees, now.trees)
    &&& now.root == start.root
    &&& now.refer == start.refer
}

/// An answer changes no block but that which it was asked to set.
proof fn lemma_answer_keeps_others(
    pointer: Seq<u8>,
    start: World,
    before: World,
    request: RequestView,
    reply: ReplyView,
    now: World,
)
    requires
        keeps_others(pointer, start, before),
        before.answers(request, reply, now),
        request matches RequestView::SetBlock(key, _) ==> key == pointer,
    ensures
        keeps_others(pointer, start, now),
{
    assert(now.blocks.remove(pointer) =~= before.blocks.remove(pointer));
}

proof fn lemma_reset(
    reset: ResetView,
    pointer: Seq<u8>,
    start: World,
    world: World,
    course: Course,
)
    requires
        reset.pointer == pointer,
        keeps_others(pointer, start, world),
        takes(reset, world, course),
    ensures
        keeps_others(pointer, start, world_after(world, course)),
    decreases course.len(),
{
    if course.len() > 0 {
        let (reply, after) = course[0];
        lemma_answer_keeps_others(pointer, start, world, reset.request()->0, reply, after);
        lemma_reset(reset.next(reply), pointer, start, after, course.drop_first());
        assert(world_after(after, course.drop_first()) == world_after(world, course));
    }
}

/// Setting a store back, whether or not it succeeds, changes nothing that other
/// stores rely on.
pub proof fn law_reset_keeps_others(
    pointer: Seq<u8>,
    revision: Option<Seq<u8>>,
    world: World,
    course: Course,
)
    requires
        takes(ResetView::start(pointer, revision), world, course),
    ensures
        keeps_others(pointer, world, world_after(world, course)),
{
    lemma_reset(ResetView::start(pointer, revision), pointer, world, world, course);
}

/// Whether a commit, and the reset by which it falls back, write to the block with
/// the given key.
spec fn points_at(commit: CommitView, pointer: Seq<u8>) -> bool {
    &&& commit.pointer == pointer
    &&& commit.phase matches CommitPhaseView::Rollback(reset, _) ==> reset.pointer == pointer
}

proof fn lemma_points_at(commit: CommitView, pointer: Seq<u8>, reply: ReplyView)
    requires
        points_at(commit, pointer),
    ensures
        points_at(commit.next(reply), pointer),
        commit.request() matches Some(RequestView::SetBlock(key, _)) ==> key == pointer,
{
}

proof fn lemma_commit(
    commit: CommitView,
    pointer: Seq<u8>,
    start: World,
    world: World,
    course: Course,
)
    requires
        points_at(commit, pointer),
        keeps_others(pointer, start, world),
        takes(commit, world, course),
    ensures
        keeps_others(pointer, start, world_after(world, course)),
    decreases course.len(),
{
    if course.len() > 0 {
        let (reply, after) = course[0];
        lemma_points_at(commit, pointer, reply);
        lemma_answer_keeps_others(pointer, start, world, commit.request()->0, reply, after);
        lemma_commit(commit.next(reply), pointer, start, after, course.drop_first());
        assert(world_after(after, course.drop_first()) == world_after(world, course));
    }
}

/// A commit, whether or not it succeeds, changes nothing that other stores rely on.
pub proof fn law_commit_keeps_others(pointer: Seq<u8>, world: World, course: Course)
    requires
        takes(CommitView::start(pointer), world, course),
    ensures
        keeps_others(pointer, world, world_after(world, course)),
{
    lemma_commit(CommitView::start(pointer), pointer, world, world, course);
}

proof fn lemma_import(
    import: ImportView,
    pointer: Seq<u8>,
    start: World,
    world: World,
    course: Course,
)
    requires
        points_at(import.commit, pointer),
        keeps_others(pointer, start, world),
        takes(import, world, course),
    ensures
        keeps_others(pointer, start, world_after(world, course)),
    decreases course.len(),
{
    if course.len() > 0 {
        let (reply, after) = course[0];
        lemma_points_at(import.commit, pointer, reply);
        lemma_answer_keeps_others(pointer, start, world, import.request()->0, reply, after);
        lemma_import(import.next(reply), pointer, start, after, course.drop_first());
        assert(world_after(after, course.drop_first()) == world_after(world, course));
    }
}

/// An import, whether or not it succeeds, changes nothing that other stores rely on.
pub proof fn law_import_keeps_others(pointer: Seq<u8>, world: World, course: Course)
    requires
        takes(ImportView::start(pointer), world, course),
    ensures
        keeps_others(pointer, world, world_after(world, course)),
{
    lemma_import(ImportView::start(pointer), pointer, world, world, course);
}

} // verus!
