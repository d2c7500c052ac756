//! What a request that fails leads to, and what the block names meanwhile.
use crate::commit::{CommitPhaseView, CommitView};
use crate::import::ImportView;
use crate::laws::ending::{lemma_import_under_way, lemma_under_way};
use crate::open::{OpenPhaseView, OpenView};
use crate::protocol::{Access, Process, ReplyView, RequestView};
use crate::reading::ReadingView;
use crate::reference::NULL_REVISION_HASH;
use crate::reset::{ResetPhaseView, ResetView};
use crate::revision::RevisionQueryView;
use crate::world::{
    held, is_smooth, lemma_smooth_rest, process_after, takes, world_after, Course, World,
};
use vstd::prelude::*;

verus! {

/// A request that fails is the last of the opening of a store, which ends with the
/// failure.
pub proof fn law_failure_ends_open(open: OpenView, world: World, course: Course, i: int)
    requires
        takes(open, world, course),
        0 <= i < course.len(),
        course[i].0 is Failed,
    ensures
        i == course.len() - 1,
        process_after(open, course).phase == OpenPhaseView::Finished(Err(course[i].0->Failed_0)),
    decreases course.len(),
{
    let (reply, after) = course[0];
    let rest = course.drop_first();
    assert(takes(open.next(reply), after, rest));
    assert(process_after(open, course) == process_after(open.next(reply), rest));
    if i > 0 {
        assert(rest[i - 1] == course[i]);
        law_failure_ends_open(open.next(reply), after, rest, i - 1);
    }
}

/// A request that fails is the last of a reset, which ends with the failure.
pub proof fn law_failure_ends_reset(reset: ResetView, world: World, course: Course, i: int)
    requires
        takes(reset, world, course),
        0 <= i < course.len(),
        course[i].0 is Failed,
    ensures
        i == course.len() - 1,
        process_after(reset, course).phase == ResetPhaseView::Finished(Err(course[i].0->Failed_0)),
    decreases course.len(),
{
    let (reply, after) = course[0];
    let rest = course.drop_first();
    assert(takes(reset.next(reply), after, rest));
    assert(process_after(reset, course) == process_after(reset.next(reply), rest));
    if i > 0 {
        assert(rest[i - 1] == course[i]);
        law_failure_ends_reset(reset.next(reply), after, rest, i - 1);
    }
}

/// A request that fails is the last of a query for the revision, which ends with the
/// failure.
pub proof fn law_failure_ends_query(
    query: RevisionQueryView,
    world: World,
    course: Course,
    i: int,
)
    requires
        takes(query, world, course),
        0 <= i < course.len(),
        course[i].0 is Failed,
    ensures
        i == course.len() - 1,
        process_after(query, course) == RevisionQueryView::Finished(Err(course[i].0->Failed_0)),
    decreases course.len(),
{
    let (reply, after) = course[0];
    let rest = course.drop_first();
    assert(takes(query.next(reply), after, rest));
    assert(process_after(query, course) == process_after(query.next(reply), rest));
    if i > 0 {
        assert(rest[i - 1] == course[i]);
        law_failure_ends_query(query.next(reply), after, rest, i - 1);
    }
}

/// A request that fails while a commit sets the store back is the last of the commit,
/// which ends with that failure, and not with the one for which the store was set back.
pub proof fn law_failure_ends_fallback(commit: CommitView, world: World, course: Course, i: int)
    requires
        takes(commit, world, course),
        0 <= i < course.len(),
        course[i].0 is Failed,
        process_after(commit, course.take(i)).phase is Rollback,
    ensures
        i == course.len() - 1,
        process_after(commit, course).phase == CommitPhaseView::Finished(
            Err(course[i].0->Failed_0),
        ),
    decreases course.len(),
{
    let (reply, after) = course[0];
    let rest = course.drop_first();
    assert(takes(commit.next(reply), after, rest));
    assert(process_after(commit, course) == process_after(commit.next(reply), rest));
    if i > 0 {
        assert(rest[i - 1] == course[i]);
        assert(course.take(i).drop_first() =~= rest.take(i - 1));
        assert(course.take(i)[0] == course[0]);
        law_failure_ends_fallback(commit.next(reply), after, rest, i - 1);
    }
}

/// The same goes for an import.
pub proof fn law_failure_ends_fallback_of_import(
    import: ImportView,
    world: World,
    course: Course,
    i: int,
)
    requires
        takes(import, world, course),
        0 <= i < course.len(),
        course[i].0 is Failed,
        process_after(import, course.take(i)).commit.phase is Rollback,
    ensures
        i == course.len() - 1,
        process_after(import, course).commit.phase == CommitPhaseView::Finished(
            Err(course[i].0->Failed_0),
        ),
    decreases course.len(),
{
    let (reply, after) = course[0];
    let rest = course.drop_first();
    assert(takes(import.next(reply), after, rest));
    assert(process_after(import, course) == process_after(import.next(reply), rest));
    if i > 0 {
        assert(rest[i - 1] == course[i]);
        assert(course.take(i).drop_first() =~= rest.take(i - 1));
        assert(course.take(i)[0] == course[0]);
        law_failure_ends_fallback_of_import(import.next(reply), after, rest, i - 1);
    }
}

/// Whether a reference is that of the null revision, or of a stored one.
pub open spec fn is_stored(world: World, revision: Seq<u8>) -> bool {
    revision == NULL_REVISION_HASH@ || held(world.revisions, revision) is Some
}

/// Whether a block is as it was, or names the null revision or a stored one.
pub open spec fn names_stored(pointer: Seq<u8>, start: World, now: World) -> bool {
    ||| held(now.blocks, pointer) == held(start.blocks, pointer)
    ||| held(now.blocks, pointer) matches Some(block) && is_stored(now, block)
}

spec fn reset_names_stored(reset: ResetView, pointer: Seq<u8>, now: World) -> bool {
    &&& reset.pointer == pointer
    &&& reset.phase matches ResetPhaseView::Point(target, _) ==> is_stored(now, target)
}

spec fn commit_names_stored(commit: CommitView, pointer: Seq<u8>, now: World) -> bool {
    &&& commit.pointer == pointer
    &&& match commit.phase {
        CommitPhaseView::Refer(root) => held(now.revisions, (now.refer)(root)) is Some,
        CommitPhaseView::Point(revision) => is_stored(now, revision),
        CommitPhaseView::Rollback(reset, _) => reset_names_stored(reset, pointer, now),
        _ => true,
    }
}

proof fn lemma_reset_names(
    reset: ResetView,
    pointer: Seq<u8>,
    start: World,
    now: World,
    course: Course,
)
    requires
        takes(reset, now, course),
        is_smooth(course),
        reset_names_stored(reset, pointer, now),
        names_stored(pointer, start, now),
    ensures
        names_stored(pointer, start, world_after(now, course)),
    decreases course.len(),
{
    if course.len() > 0 {
        let (reply, after) = course[0];
        lemma_smooth_rest(course);
        lemma_reset_names(reset.next(reply), pointer, start, after, course.drop_first());
        assert(world_after(after, course.drop_first()) == world_after(now, course));
    }
}

/// At no point of a reset in which no request fails does the block of the store come to
/// name a revision that is not stored.
pub proof fn law_reset_names_only_stored(
    pointer: Seq<u8>,
    revision: Option<Seq<u8>>,
    world: World,
    course: Course,
)
    requires
        takes(ResetView::start(pointer, revision), world, course),
        is_smooth(course),
    ensures
        names_stored(pointer, world, world_after(world, course)),
{
    lemma_reset_names(ResetView::start(pointer, revision), pointer, world, world, course);
}

proof fn lemma_commit_names(
    commit: CommitView,
    pointer: Seq<u8>,
    start: World,
    now: World,
    course: Course,
)
    requires
        takes(commit, now, course),
        is_smooth(course),
        commit_names_stored(commit, pointer, now),
        names_stored(pointer, start, now),
    ensures
        names_stored(pointer, start, world_after(now, course)),
    decreases course.len(),
{
    if course.len() > 0 {
        let (reply, after) = course[0];
        lemma_smooth_rest(course);
        lemma_commit_step(commit, pointer, start, now, reply, after);
        lemma_commit_names(commit.next(reply), pointer, start, after, course.drop_first());
        assert(world_after(after, course.drop_first()) == world_after(now, course));
    }
}

proof fn lemma_commit_step(
    commit: CommitView,
    pointer: Seq<u8>,
    start: World,
    now: World,
    reply: ReplyView,
    after: World,
)
    requires
        commit.request() matches Some(request) && now.answers(request, reply, after),
        !(reply is Failed),
        commit_names_stored(commit, pointer, now),
        names_stored(pointer, start, now),
    ensures
        commit_names_stored(commit.next(reply), pointer, after),
        names_stored(pointer, start, after),
{
}

/// At no point of a commit in which no request fails does the block of the store come
/// to name a revision that is not stored.
pub proof fn law_commit_names_only_stored(pointer: Seq<u8>, world: World, course: Course)
    requires
        takes(CommitView::start(pointer), world, course),
        is_smooth(course),
    ensures
        names_stored(pointer, world, world_after(world, course)),
{
    lemma_commit_names(CommitView::start(pointer), pointer, world, world, course);
}

proof fn lemma_import_names(
    import: ImportView,
    pointer: Seq<u8>,
    start: World,
    now: World,
    course: Course,
)
    requires
        takes(import, now, course),
        is_smooth(course),
        commit_names_stored(import.commit, pointer, now),
        names_stored(pointer, start, now),
    ensures
        names_stored(pointer, start, world_after(now, course)),
    decreases course.len(),
{
    if course.len() > 0 {
        let (reply, after) = course[0];
        lemma_smooth_rest(course);
        if !(import.commit.phase is Instruction) {
            lemma_commit_step(import.commit, pointer, start, now, reply, after);
        }
        lemma_import_names(import.next(reply), pointer, start, after, course.drop_first());
        assert(world_after(after, course.drop_first()) == world_after(now, course));
    }
}

/// At no point of an import in which no request fails does the block of the store come
/// to name a revision that is not stored.
pub proof fn law_import_names_only_stored(pointer: Seq<u8>, world: World, course: Course)
    requires
        takes(ImportView::start(pointer), world, course),
        is_smooth(course),
    ensures
        names_stored(pointer, world, world_after(world, course)),
{
    lemma_import_names(ImportView::start(pointer), pointer, world, world, course);
}

/// A reset holds the index no more than its request needs.
pub proof fn law_reset_holds_what_it_needs(reset: ResetView)
    ensures
        match reset.request() {
            Some(request) => reset.access() == request.access(),
            None => reset.access() == Access::Free,
        },
{
}

/// A commit does not keep others from reading until it knows the revision to fall back
/// on. From then on it holds the index for writing, without a break, until it has come
/// to its end or falls back; and while it falls back, no more than its request needs.
pub proof fn law_commit_holds_the_index_throughout(commit: CommitView, reply: ReplyView)
    ensures
        commit.access() == Access::Read <==> commit.phase is Base,
        commit.access() == Access::Write && !(commit.phase is Rollback) ==> {
            let next = commit.next(reply);
            next.access() == Access::Write || next.phase is Rollback || next.phase is Finished
        },
        commit.phase is Rollback ==> (commit.request() matches Some(request) ==> commit.access()
            == request.access()),
        commit.phase is Finished ==> commit.access() == Access::Free,
        commit.phase is Base ==> {
            let next = commit.next(reply);
            next.phase is Base || next.phase is Finished || next.access() == Access::Write
        },
{
}

/// Whether the index of a reset is as it was, unless the block names the revision.
spec fn points_first(reset: ResetView, revision: Seq<u8>, start: World, now: World) -> bool {
    &&& reset.given
    &&& match reset.phase {
        ResetPhaseView::Pointer => false,
        ResetPhaseView::Target(target) => target == revision && now.index == start.index,
        ResetPhaseView::Point(target, _) => target == revision && now.index == start.index,
        ResetPhaseView::Root(_) => held(now.blocks, reset.pointer) == Some(revision) && now.index
            == start.index,
        ResetPhaseView::Finished(_) => now.index == start.index || held(now.blocks, reset.pointer)
            == Some(revision),
    }
}

proof fn lemma_points_first(
    reset: ResetView,
    revision: Seq<u8>,
    start: World,
    now: World,
    course: Course,
)
    requires
        takes(reset, now, course),
        points_first(reset, revision, start, now),
    ensures
        points_first(process_after(reset, course), revision, start, world_after(now, course)),
        process_after(reset, course).pointer == reset.pointer,
    decreases course.len(),
{
    if course.len() > 0 {
        let (reply, after) = course[0];
        lemma_points_first(reset.next(reply), revision, start, after, course.drop_first());
        assert(world_after(after, course.drop_first()) == world_after(now, course));
    }
}

/// A reset to a given revision changes the index only once the block names that
/// revision, at every point of its course.
pub proof fn law_reset_points_first(
    pointer: Seq<u8>,
    revision: Seq<u8>,
    world: World,
    course: Course,
)
    requires
        takes(ResetView::start(pointer, Some(revision)), world, course),
    ensures
        world_after(world, course).index == world.index || held(
            world_after(world, course).blocks,
            pointer,
        ) == Some(revision),
{
    lemma_points_first(
        ResetView::start(pointer, Some(revision)),
        revision,
        world,
        world,
        course,
    );
}

/// Whether a reply is of the kind that answers a request.
pub open spec fn is_answer(request: RequestView, reply: ReplyView) -> bool {
    match (request, reply) {
        (_, ReplyView::Failed(_)) => true,
        (RequestView::GetBlock(_), ReplyView::Block(_)) => true,
        (RequestView::ReadRevision(_), ReplyView::Revision(_)) => true,
        (RequestView::ReferToRevision(_), ReplyView::Reference(_)) => true,
        (RequestView::GetRoot, ReplyView::Root(_)) => true,
        (RequestView::NextEntry, ReplyView::Entry(_)) => true,
        (RequestView::NextInstruction, ReplyView::Instruction(_)) => true,
        (RequestView::NextRow, ReplyView::Row(_)) => true,
        (RequestView::Yield(_), ReplyView::RowFailed(_)) => true,
        (RequestView::WriteRow(_), ReplyView::RowFailed(_)) => true,
        (
            RequestView::SetBlock(..)
            | RequestView::WriteRevision(_)
            | RequestView::OpenIndex(_)
            | RequestView::SetRoot(_)
            | RequestView::SetEntry(..)
            | RequestView::DeleteEntry(_)
            | RequestView::Scan(_)
            | RequestView::Report(_)
            | RequestView::Yield(_)
            | RequestView::WriteRow(_),
            ReplyView::Done,
        ) => true,
        _ => false,
    }
}

/// Whether a reply that does not answer what a process asks for leaves it as it is, as
/// does any where it asks for nothing.
pub open spec fn waits<P: Process>(process: P, reply: ReplyView) -> bool {
    match process.request() {
        Some(request) => !is_answer(request, reply) ==> process.next(reply) == process,
        None => process.next(reply) == process,
    }
}

/// A reply that does not answer the request leaves the opening of a store, a reset, a
/// query for the revision and a reading as they are.
pub proof fn law_processes_wait_for_an_answer(
    open: OpenView,
    reset: ResetView,
    query: RevisionQueryView,
    reading: ReadingView,
    reply: ReplyView,
)
    ensures
        waits(open, reply),
        waits(reset, reply),
        waits(query, reply),
        waits(reading, reply),
{
}

/// A reply that does not answer the request leaves a commit as it is, whatever replies
/// it got before.
pub proof fn law_commit_waits_for_an_answer(pointer: Seq<u8>, course: Course, reply: ReplyView)
    ensures
        waits(process_after(CommitView::start(pointer), course), reply),
{
    lemma_under_way(CommitView::start(pointer), course);
}

/// A reply that does not answer the request leaves an import as it is, whatever replies
/// it got before.
pub proof fn law_import_waits_for_an_answer(pointer: Seq<u8>, course: Course, reply: ReplyView)
    ensures
        waits(process_after(ImportView::start(pointer), course), reply),
{
    lemma_import_under_way(ImportView::start(pointer), course);
}

} // verus!
