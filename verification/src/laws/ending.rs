//! Every operation comes to an end.
use crate::commit::{CommitPhaseView, CommitView};
use crate::import::ImportView;
use crate::open::{OpenPhaseView, OpenView};
use crate::protocol::{Process, ReplyView};
use crate::reading::{ReadingPhaseView, ReadingView};
use crate::reset::{ResetPhaseView, ResetView};
use crate::revision::RevisionQueryView;
use crate::world::{process_after, Course, World};
use vstd::prelude::*;

verus! {

/// How far an operation is from its end: a measure that every reply lowers.
pub type Distance = (nat, nat, nat, nat);

/// Whether a measure is less than another: in the first place where they differ.
pub open spec fn is_nearer(a: Distance, b: Distance) -> bool {
    ||| a.0 < b.0
    ||| a.0 == b.0 && a.1 < b.1
    ||| a.0 == b.0 && a.1 == b.1 && a.2 < b.2
    ||| a.0 == b.0 && a.1 == b.1 && a.2 == b.2 && a.3 < b.3
}

/// How far a query for the revision is from its end.
pub open spec fn query_distance(query: RevisionQueryView) -> Distance {
    match query {
        RevisionQueryView::Root => (2, 0, 0, 0),
        RevisionQueryView::Refer(_) => (1, 0, 0, 0),
        RevisionQueryView::Finished(_) => (0, 0, 0, 0),
    }
}

/// Every reply brings a query for the revision nearer to its end.
pub proof fn law_query_comes_to_an_end(
    query: RevisionQueryView,
    world: World,
    reply: ReplyView,
    after: World,
)
    requires
        query.request() matches Some(request) && world.answers(request, reply, after),
    ensures
        is_nearer(query_distance(query.next(reply)), query_distance(query)),
{
}

/// How far the opening of a store is from its end.
pub open spec fn open_distance(open: OpenView) -> Distance {
    match open.phase {
        OpenPhaseView::Pointer => (3, 0, 0, 0),
        OpenPhaseView::Target(_) => (2, 0, 0, 0),
        OpenPhaseView::Index(_) => (1, 0, 0, 0),
        OpenPhaseView::Finished(_) => (0, 0, 0, 0),
    }
}

/// Every reply brings the opening of a store nearer to its end.
pub proof fn law_open_comes_to_an_end(
    open: OpenView,
    world: World,
    reply: ReplyView,
    after: World,
)
    requires
        open.request() matches Some(request) && world.answers(request, reply, after),
    ensures
        is_nearer(open_distance(open.next(reply)), open_distance(open)),
{
}

/// How far a reset is from its end.
pub open spec fn reset_distance(reset: ResetView) -> Distance {
    match reset.phase {
        ResetPhaseView::Pointer => (2, 4, 0, 0),
        ResetPhaseView::Target(_) => (2, 3, 0, 0),
        ResetPhaseView::Point(..) => (2, 2, 0, 0),
        ResetPhaseView::Root(_) => (2, 1, 0, 0),
        ResetPhaseView::Finished(_) => (2, 0, 0, 0),
    }
}

/// Every reply brings a reset nearer to its end.
pub proof fn law_reset_comes_to_an_end(
    reset: ResetView,
    world: World,
    reply: ReplyView,
    after: World,
)
    requires
        reset.request() matches Some(request) && world.answers(request, reply, after),
    ensures
        is_nearer(reset_distance(reset.next(reply)), reset_distance(reset)),
{
}

/// How far a commit is from its end, with so many instructions to come.
pub open spec fn commit_distance(commit: CommitView, left: nat, world: World) -> Distance {
    match commit.phase {
        CommitPhaseView::Base(RevisionQueryView::Root) => (9, 0, 0, 0),
        CommitPhaseView::Base(_) => (8, 0, 0, 0),
        CommitPhaseView::Instruction => (7, left, 0, 0),
        CommitPhaseView::Edits(edits) => (7, left, 1, edits.len()),
        CommitPhaseView::Search(..) => (7, left, 2, world.scan.len()),
        CommitPhaseView::Scan(..) => (7, left, 3, 0),
        CommitPhaseView::Root => (6, 0, 0, 0),
        CommitPhaseView::Write(_) => (5, 0, 0, 0),
        CommitPhaseView::Refer(_) => (4, 0, 0, 0),
        CommitPhaseView::Point(_) => (3, 0, 0, 0),
        CommitPhaseView::Rollback(reset, _) => reset_distance(reset),
        CommitPhaseView::Finished(_) => (0, 0, 0, 0),
    }
}

/// Whether a commit that is about to edit the index has something to edit: so it is
/// at its start, and after every reply.
pub open spec fn has_edits(commit: CommitView) -> bool {
    commit.phase matches CommitPhaseView::Edits(edits) ==> edits.len() > 0
}

/// Every reply brings a commit nearer to its end.
pub proof fn law_commit_comes_to_an_end(
    commit: CommitView,
    world: World,
    reply: ReplyView,
    after: World,
)
    requires
        commit.request() matches Some(request) && world.answers(request, reply, after),
        has_edits(commit),
    ensures
        is_nearer(
            commit_distance(commit.next(reply), after.instructions.len(), after),
            commit_distance(commit, world.instructions.len(), world),
        ),
        has_edits(commit.next(reply)),
{
}

/// How far an import is from its end.
pub open spec fn import_distance(import: ImportView, world: World) -> Distance {
    match (import.commit.phase, import.report) {
        (CommitPhaseView::Instruction, Some(_)) => (7, world.rows.len(), 0, 1),
        _ => commit_distance(import.commit, world.rows.len(), world),
    }
}

/// Every reply brings an import nearer to its end.
pub proof fn law_import_comes_to_an_end(
    import: ImportView,
    world: World,
    reply: ReplyView,
    after: World,
)
    requires
        import.request() matches Some(request) && world.answers(request, reply, after),
        has_edits(import.commit),
        import.report is Some ==> import.commit.phase is Instruction,
    ensures
        is_nearer(import_distance(import.next(reply), after), import_distance(import, world)),
        has_edits(import.next(reply).commit),
        import.next(reply).report is Some ==> import.next(reply).commit.phase is Instruction,
{
}

/// How far a reading is from its end.
pub open spec fn reading_distance(reading: ReadingView, world: World) -> Distance {
    match reading.phase {
        ReadingPhaseView::Scan => (3, 0, 0, 0),
        ReadingPhaseView::Emit(_) => (2, world.scan.len(), 1, 0),
        ReadingPhaseView::Next => (2, world.scan.len(), 0, 0),
        ReadingPhaseView::Finished(_) => (0, 0, 0, 0),
    }
}

/// Every reply brings a reading nearer to its end.
pub proof fn law_reading_comes_to_an_end(
    reading: ReadingView,
    world: World,
    reply: ReplyView,
    after: World,
)
    requires
        reading.request() matches Some(request) && world.answers(request, reply, after),
    ensures
        is_nearer(reading_distance(reading.next(reply), after), reading_distance(reading, world)),
{
}

/// Whether a process asks for something until it has come to its end, and for
/// nothing then.
pub open spec fn asks_until<P: Process>(process: P, finished: bool) -> bool {
    process.request() is None <==> finished
}

/// A query for the revision asks for something, whatever replies it gets, until it
/// tells the revision or an error.
pub proof fn law_query_asks_until_its_end(query: RevisionQueryView)
    ensures
        asks_until(query, query is Finished),
{
}

/// The opening of a store asks for something until it has come to its end.
pub proof fn law_open_asks_until_its_end(open: OpenView)
    ensures
        asks_until(open, open.phase is Finished),
{
}

/// A reset asks for something until it has come to its end.
pub proof fn law_reset_asks_until_its_end(reset: ResetView)
    ensures
        asks_until(reset, reset.phase is Finished),
{
}

/// A reading asks for something until it has come to its end: so one that has no
/// request has given out all that it was to give out, or has failed.
pub proof fn law_reading_asks_until_its_end(reading: ReadingView)
    ensures
        asks_until(reading, reading.phase is Finished),
{
}

/// Whether what a commit is made of has not come to its end.
pub(super) open spec fn is_under_way(commit: CommitView) -> bool {
    &&& !(commit.phase matches CommitPhaseView::Base(query) && query is Finished)
    &&& !(commit.phase matches CommitPhaseView::Rollback(reset, _) && reset.phase is Finished)
}

pub(super) proof fn lemma_under_way(commit: CommitView, course: Course)
    requires
        is_under_way(commit),
    ensures
        is_under_way(process_after(commit, course)),
    decreases course.len(),
{
    if course.len() > 0 {
        assert(is_under_way(commit.next(course[0].0)));
        lemma_under_way(commit.next(course[0].0), course.drop_first());
    }
}

/// A commit asks for something, whatever replies it gets, until it has come to its
/// end.
pub proof fn law_commit_asks_until_its_end(pointer: Seq<u8>, course: Course)
    ensures
        asks_until(
            process_after(CommitView::start(pointer), course),
            process_after(CommitView::start(pointer), course).phase is Finished,
        ),
{
    lemma_under_way(CommitView::start(pointer), course);
}

pub(super) proof fn lemma_import_under_way(import: ImportView, course: Course)
    requires
        is_under_way(import.commit),
    ensures
        is_under_way(process_after(import, course).commit),
    decreases course.len(),
{
    if course.len() > 0 {
        assert(is_under_way(import.next(course[0].0).commit));
        lemma_import_under_way(import.next(course[0].0), course.drop_first());
    }
}

/// An import asks for something, whatever replies it gets, until its commit has come
/// to its end.
pub proof fn law_import_asks_until_its_end(pointer: Seq<u8>, course: Course)
    ensures
        asks_until(
            process_after(ImportView::start(pointer), course),
            process_after(ImportView::start(pointer), course).commit.phase is Finished,
        ),
{
    lemma_import_under_way(ImportView::start(pointer), course);
}

} // verus!
