//! What a commit does to the store, when it succeeds and when it fails.
use crate::artifact::{ArtifactView, InstructionView, StateView};
use crate::commit::{CommitPhaseView, CommitView};
use crate::error::ErrorView;
use crate::index::{
    after, after_all, all_edited, ancestor, edited, is_first_stop, is_stop, lemma_replacing,
    lemma_setting, replacing, search_range, state_at, stops_at, Contents,
};
use crate::key::{before, parts_of};
use crate::laws::contents::{is_consistent, law_batch_is_its_parts, lemma_first_stop_unique};
use crate::laws::order::{are_independent, assertions, law_order_does_not_matter};
use crate::protocol::{EntryView, Process, ReplyView, RequestView};
use crate::reference::NULL_REVISION_HASH;
use crate::reset::{ResetPhaseView, ResetView};
use crate::revision::RevisionQueryView;
use crate::selector::RangeView;
use crate::world::{
    held, is_smooth, lemma_smooth_rest, lists, process_after, takes, world_after, Course, World,
};
use vstd::prelude::*;

verus! {

/// What a commit has been through.
pub struct History {
    /// The instructions that it got.
    pub instructions: Seq<InstructionView>,
    /// Whether no request failed.
    pub is_smooth: bool,
    /// Whether no request failed by which the store was to be set back.
    pub is_calm: bool,
    /// Whether it got a reply after it knew the revision to fall back on.
    pub is_based: bool,
    /// What went wrong first: a request that failed, or an artifact that the search
    /// for a cause could not read.
    pub failure: Option<ErrorView>,
}

/// What is wrong with a reply that a commit gets, if anything.
#[verifier::opaque]
pub open spec fn failure_in(commit: CommitView, reply: ReplyView) -> Option<ErrorView> {
    match reply {
        ReplyView::Failed(error) => Some(error),
        ReplyView::Entry(Some(entry)) => match (commit.phase, entry.value) {
            (CommitPhaseView::Search(..), StateView::Added(datum)) => match datum.artifact() {
                Ok(_) => None,
                Err(error) => Some(error),
            },
            _ => None,
        },
        _ => None,
    }
}

impl History {
    /// The history before the first reply.
    pub open spec fn start() -> History {
        History {
            instructions: Seq::empty(),
            is_smooth: true,
            is_calm: true,
            is_based: false,
            failure: None,
        }
    }

    /// The history with one more reply.
    pub open spec fn with_reply(self, commit: CommitView, reply: ReplyView) -> History {
        History {
            instructions: match reply {
                ReplyView::Instruction(Some(instruction)) => self.instructions.push(instruction),
                _ => self.instructions,
            },
            is_smooth: self.is_smooth && !(reply is Failed),
            is_calm: self.is_calm && !(reply is Failed && commit.phase is Rollback),
            is_based: self.is_based || !(commit.phase is Base),
            failure: match self.failure {
                Some(failure) => Some(failure),
                None => failure_in(commit, reply),
            },
        }
    }
}

/// Whether one map holds what another holds, and maybe more.
pub open spec fn extends<V>(less: Map<Seq<u8>, V>, more: Map<Seq<u8>, V>) -> bool {
    forall|key: Seq<u8>| #[trigger]
        less.dom().contains(key) ==> more.dom().contains(key) && more[key] == less[key]
}

/// What never changes in the course of a commit.
pub open spec fn is_framed(start: World, now: World) -> bool {
    &&& now.root == start.root
    &&& now.refer == start.refer
    &&& now.output == start.output
    &&& now.written == start.written
    &&& extends(start.revisions, now.revisions)
    &&& extends(start.trees, now.trees)
}

/// Whether a commit knows the revision to fall back on, and the index can be set
/// back to it.
spec fn knows_base(commit: CommitView, start: World, now: World) -> bool {
    &&& commit.base == start.revision()
    &&& match start.index_root() {
        Some(root) => held(now.trees, root) == Some(start.index) && commit.base
            != NULL_REVISION_HASH@,
        None => start.index == Map::<Seq<u8>, StateView>::empty(),
    }
}

/// Whether the entries to come are the rest of those in a range, and the search
/// did not stop at those before.
#[verifier::opaque]
spec fn is_searching(
    contents: Contents,
    range: RangeView,
    cause: Seq<u8>,
    scan: Seq<EntryView>,
    all: Seq<EntryView>,
) -> bool {
    &&& lists(all, contents, range)
    &&& scan.len() <= all.len()
    &&& scan == all.skip(all.len() - scan.len())
    &&& forall|i: int|
        0 <= i < all.len() - scan.len() ==> !stops_at((#[trigger] all[i]).value, cause)
}

/// What holds of a commit that sets the store back, if it started from a stored
/// revision.
spec fn is_falling_back(
    commit: CommitView,
    reset: ResetView,
    start: World,
    now: World,
) -> bool {
    &&& knows_base(commit, start, now)
    &&& now.blocks.remove(commit.pointer) == start.blocks.remove(commit.pointer)
    &&& reset.pointer == commit.pointer
    &&& reset.given
    &&& match reset.phase {
        ResetPhaseView::Target(target) => target == commit.base && start.index_root() is Some,
        ResetPhaseView::Point(target, root) => target == commit.base && root
            == start.index_root(),
        ResetPhaseView::Root(root) => root == start.index_root() && now.blocks
            == start.blocks.insert(commit.pointer, commit.base),
        _ => false,
    }
}

/// Whether the store is back where it was: the index holds what it held, it is at
/// the same revision, which is stored, and nothing but the block that names the
/// revision may have changed among the blocks. That block names the revision if the
/// store had to be set back, and else is as it was.
pub open spec fn is_restored(pointer: Seq<u8>, start: World, now: World, set_back: bool) -> bool {
    &&& now.index == start.index
    &&& now.revision() == start.revision()
    &&& now.is_settled()
    &&& is_framed(start, now)
    &&& now.blocks == if set_back {
        start.blocks.insert(pointer, start.revision())
    } else {
        start.blocks
    }
}

/// What holds of a commit at every point of its course.
pub(super) closed spec fn is_on_course(
    commit: CommitView,
    start: World,
    now: World,
    history: History,
) -> bool {
    let instructions = history.instructions;
    &&& is_framed(start, now)
    &&& match commit.phase {
        CommitPhaseView::Base(RevisionQueryView::Root) => {
            &&& now.blocks == start.blocks
            &&& now.index == start.index
            &&& instructions.len() == 0
            &&& !history.is_based
        },
        CommitPhaseView::Base(RevisionQueryView::Refer(root)) => {
            &&& now.blocks == start.blocks
            &&& now.index == start.index
            &&& instructions.len() == 0
            &&& !history.is_based
            &&& start.index_root() == Some(root)
            &&& held(now.trees, root) == Some(start.index)
        },
        CommitPhaseView::Base(_) => false,
        CommitPhaseView::Instruction => {
            &&& knows_base(commit, start, now)
            &&& now.blocks == start.blocks
            &&& after_all(start.index, instructions) == Ok::<Contents, ErrorView>(now.index)
        },
        CommitPhaseView::Scan(artifact, cause) => {
            &&& knows_base(commit, start, now)
            &&& now.blocks == start.blocks
            &&& instructions.len() > 0
            &&& instructions.last() == InstructionView::Assert(artifact)
            &&& artifact.cause == Some(cause)
            &&& after_all(start.index, instructions.drop_last()) == Ok::<Contents, ErrorView>(
                now.index,
            )
        },
        CommitPhaseView::Search(artifact, cause) => {
            &&& knows_base(commit, start, now)
            &&& now.blocks == start.blocks
            &&& instructions.len() > 0
            &&& instructions.last() == InstructionView::Assert(artifact)
            &&& artifact.cause == Some(cause)
            &&& after_all(start.index, instructions.drop_last()) == Ok::<Contents, ErrorView>(
                now.index,
            )
            &&& exists|all: Seq<EntryView>|
                is_searching(now.index, search_range(parts_of(artifact)), cause, now.scan, all)
        },
        CommitPhaseView::Edits(edits) => {
            &&& knows_base(commit, start, now)
            &&& now.blocks == start.blocks
            &&& edits.len() > 0
            &&& after_all(start.index, instructions) == Ok::<Contents, ErrorView>(
                all_edited(now.index, edits),
            )
        },
        CommitPhaseView::Root => {
            &&& knows_base(commit, start, now)
            &&& now.blocks == start.blocks
            &&& after_all(start.index, instructions) == Ok::<Contents, ErrorView>(now.index)
        },
        CommitPhaseView::Write(root) => {
            &&& knows_base(commit, start, now)
            &&& now.blocks == start.blocks
            &&& after_all(start.index, instructions) == Ok::<Contents, ErrorView>(now.index)
            &&& now.index_root() == Some(root)
            &&& held(now.trees, root) == Some(now.index)
        },
        CommitPhaseView::Refer(root) => {
            &&& knows_base(commit, start, now)
            &&& now.blocks == start.blocks
            &&& after_all(start.index, instructions) == Ok::<Contents, ErrorView>(now.index)
            &&& now.index_root() == Some(root)
            &&& held(now.trees, root) == Some(now.index)
            &&& held(now.revisions, (now.refer)(root)) == Some(root)
        },
        CommitPhaseView::Point(revision) => {
            &&& knows_base(commit, start, now)
            &&& now.blocks == start.blocks
            &&& after_all(start.index, instructions) == Ok::<Contents, ErrorView>(now.index)
            &&& revision == now.revision()
            &&& now.is_settled()
        },
        CommitPhaseView::Rollback(reset, error) => {
            &&& start.is_settled() ==> is_falling_back(commit, reset, start, now)
            &&& history.is_smooth ==> after_all(start.index, instructions) == Err::<
                Contents,
                ErrorView,
            >(error)
        },
        CommitPhaseView::Finished(Ok(revision)) => {
            &&& after_all(start.index, instructions) == Ok::<Contents, ErrorView>(now.index)
            &&& revision == now.revision()
            &&& now.is_settled()
            &&& now.blocks == start.blocks.insert(commit.pointer, revision)
        },
        CommitPhaseView::Finished(Err(error)) => {
            &&& start.is_settled() && history.is_calm ==> is_restored(
                commit.pointer,
                start,
                now,
                history.is_based,
            )
            &&& start.is_settled() && history.is_smooth ==> after_all(start.index, instructions)
                == Err::<Contents, ErrorView>(error)
        },
    }
}

/// A commit that fails falls back.
proof fn lemma_failing(
    commit: CommitView,
    start: World,
    before: World,
    now: World,
    history: History,
    error: ErrorView,
)
    requires
        is_framed(start, now),
        extends(before.trees, now.trees),
        knows_base(commit, start, before),
        now.blocks.remove(commit.pointer) == start.blocks.remove(commit.pointer),
        history.is_smooth ==> after_all(start.index, history.instructions) == Err::<
            Contents,
            ErrorView,
        >(error),
    ensures
        is_on_course(commit.failed(error), start, now, history),
{
    let failed = commit.failed(error);
    assert(knows_base(failed, start, now));
    assert(failed.phase is Rollback);
}

/// Where the search stops first is what is found.
proof fn lemma_found(
    contents: Contents,
    range: RangeView,
    cause: Seq<u8>,
    scan: Seq<EntryView>,
    all: Seq<EntryView>,
)
    requires
        is_searching(contents, range, cause, scan, all),
        scan.len() > 0,
        stops_at(scan[0].value, cause),
    ensures
        ancestor(contents, range, cause) == match scan[0].value->Added_0.artifact() {
            Ok(_) => Ok::<Option<Seq<u8>>, ErrorView>(Some(scan[0].key)),
            Err(error) => Err(error),
        },
        contents[scan[0].key] == scan[0].value,
{
    reveal(is_searching);
    let n = all.len() - scan.len();
    let key = scan[0].key;
    assert(all[n] == scan[0]);
    assert(is_stop(contents, range, cause, key));
    assert forall|other: Seq<u8>| #[trigger] is_stop(contents, range, cause, other) implies other
        == key || before(key, other) by {
        assert(contents.dom().contains(other));
        let i = choose|i: int| 0 <= i < all.len() && all[i].key == other;
        assert(state_at(contents, all[i].key) == Some(all[i].value));
        assert(stops_at(all[i].value, cause));
        assert(i >= n);
        if i > n {
            assert(before(all[n].key, all[i].key));
        }
    }
    assert(is_first_stop(contents, range, cause, key));
    let first = choose|first: Seq<u8>| is_first_stop(contents, range, cause, first);
    lemma_first_stop_unique(contents, range, cause, first, key);
}

/// A search that stops nowhere finds nothing.
proof fn lemma_not_found(
    contents: Contents,
    range: RangeView,
    cause: Seq<u8>,
    all: Seq<EntryView>,
)
    requires
        is_searching(contents, range, cause, Seq::empty(), all),
    ensures
        ancestor(contents, range, cause) == Ok::<Option<Seq<u8>>, ErrorView>(None),
{
    reveal(is_searching);
    if exists|key: Seq<u8>| is_first_stop(contents, range, cause, key) {
        let key = choose|key: Seq<u8>| is_first_stop(contents, range, cause, key);
        assert(contents.dom().contains(key));
        let i = choose|i: int| 0 <= i < all.len() && all[i].key == key;
        assert(state_at(contents, all[i].key) == Some(all[i].value));
    }
}

/// What an instruction that comes next makes of the contents.
proof fn lemma_after_push(
    contents: Contents,
    instructions: Seq<InstructionView>,
    instruction: InstructionView,
)
    ensures
        after_all(contents, instructions.push(instruction)) == match after_all(
            contents,
            instructions,
        ) {
            Ok(between) => after(between, instruction),
            Err(error) => Err(error),
        },
{
    assert(instructions.push(instruction).drop_last() =~= instructions);
}

proof fn lemma_step_base(
    commit: CommitView,
    start: World,
    before: World,
    reply: ReplyView,
    now: World,
    history: History,
)
    requires
        commit.phase is Base,
        is_on_course(commit, start, before, history),
        commit.request() matches Some(request) && before.answers(request, reply, now),
    ensures
        is_on_course(commit.next(reply), start, now, history.with_reply(commit, reply)),
{
    let next = commit.next(reply);
    assert(history.with_reply(commit, reply).instructions == history.instructions);
    assert(after_all(start.index, history.instructions) == Ok::<Contents, ErrorView>(start.index));
    match commit.phase {
        CommitPhaseView::Base(RevisionQueryView::Root) => {
            if let ReplyView::Root(None) = reply {
                assert(next.phase is Instruction);
                assert(knows_base(next, start, now));
            }
        },
        CommitPhaseView::Base(RevisionQueryView::Refer(root)) => {
            if let ReplyView::Reference(_) = reply {
                assert(next.phase is Instruction);
                assert(knows_base(next, start, now));
            }
        },
        _ => {},
    }
}

/// An instruction that comes next keeps a commit on its course, wherever it comes
/// from.
pub(super) proof fn lemma_step_instruction(
    commit: CommitView,
    start: World,
    before: World,
    reply: ReplyView,
    now: World,
    history: History,
)
    requires
        commit.phase is Instruction,
        is_on_course(commit, start, before, history),
        reply is Instruction,
        now == (World { instructions: now.instructions, rows: now.rows, ..before }),
    ensures
        is_on_course(commit.next(reply), start, now, history.with_reply(commit, reply)),
{
    let next = commit.next(reply);
    assert(knows_base(next, start, now));
    if let ReplyView::Instruction(Some(instruction)) = reply {
        let all = history.instructions.push(instruction);
        lemma_after_push(start.index, history.instructions, instruction);
        assert(all.drop_last() =~= history.instructions);
        match instruction {
            InstructionView::Assert(artifact) => {
                if artifact.cause is None {
                    lemma_replacing(now.index, None, artifact);
                }
            },
            InstructionView::Retract(artifact) => {
                lemma_setting(now.index, parts_of(artifact), StateView::Removed);
            },
        }
    }
}

/// A search starts with all entries in the range.
proof fn lemma_search_starts(
    contents: Contents,
    range: RangeView,
    cause: Seq<u8>,
    all: Seq<EntryView>,
)
    requires
        lists(all, contents, range),
    ensures
        is_searching(contents, range, cause, all, all),
{
    reveal(is_searching);
    assert(all.skip(0) =~= all);
}

proof fn lemma_step_scan(
    commit: CommitView,
    start: World,
    before: World,
    reply: ReplyView,
    now: World,
    history: History,
)
    requires
        commit.phase is Scan,
        is_on_course(commit, start, before, history),
        commit.request() matches Some(request) && before.answers(request, reply, now),
    ensures
        is_on_course(commit.next(reply), start, now, history.with_reply(commit, reply)),
{
    let next = commit.next(reply);
    let later = history.with_reply(commit, reply);
    assert(later.instructions == history.instructions);
    if let ReplyView::Failed(error) = reply {
        lemma_failing(commit, start, before, now, later, error);
    } else {
        let artifact = commit.phase->Scan_0;
        let cause = commit.phase->Scan_1;
        lemma_search_starts(now.index, search_range(parts_of(artifact)), cause, now.scan);
        assert(knows_base(next, start, now));
    }
}

/// A search goes on at an entry at which it does not stop.
proof fn lemma_search_goes_on(
    contents: Contents,
    range: RangeView,
    cause: Seq<u8>,
    scan: Seq<EntryView>,
    all: Seq<EntryView>,
)
    requires
        is_searching(contents, range, cause, scan, all),
        scan.len() > 0,
        !stops_at(scan[0].value, cause),
    ensures
        is_searching(contents, range, cause, scan.drop_first(), all),
{
    reveal(is_searching);
    let n = all.len() - scan.len();
    assert(all[n] == scan[0]);
    assert(scan.drop_first() =~= all.skip(n + 1));
}

/// What the search makes of the instruction.
proof fn lemma_asserted(
    contents: Contents,
    between: Contents,
    instructions: Seq<InstructionView>,
    artifact: ArtifactView,
    cause: Seq<u8>,
)
    requires
        instructions.len() > 0,
        instructions.last() == InstructionView::Assert(artifact),
        artifact.cause == Some(cause),
        after_all(contents, instructions.drop_last()) == Ok::<Contents, ErrorView>(between),
    ensures
        after_all(contents, instructions) == match ancestor(
            between,
            search_range(parts_of(artifact)),
            cause,
        ) {
            Ok(ancestor) => Ok::<Contents, ErrorView>(
                all_edited(
                    between,
                    replacing(ancestor, parts_of(artifact), StateView::Added(artifact.datum())),
                ),
            ),
            Err(error) => Err(error),
        },
{
    if let Ok(ancestor) = ancestor(between, search_range(parts_of(artifact)), cause) {
        lemma_replacing(between, ancestor, artifact);
    }
}

proof fn lemma_step_search(
    commit: CommitView,
    start: World,
    before: World,
    reply: ReplyView,
    now: World,
    history: History,
)
    requires
        commit.phase is Search,
        is_on_course(commit, start, before, history),
        commit.request() matches Some(request) && before.answers(request, reply, now),
    ensures
        is_on_course(commit.next(reply), start, now, history.with_reply(commit, reply)),
{
    let next = commit.next(reply);
    let later = history.with_reply(commit, reply);
    let instructions = history.instructions;
    assert(later.instructions == instructions);
    let artifact = commit.phase->Search_0;
    let cause = commit.phase->Search_1;
    let range = search_range(parts_of(artifact));
    let all = choose|all: Seq<EntryView>|
        is_searching(before.index, range, cause, before.scan, all);
    lemma_asserted(start.index, before.index, instructions, artifact, cause);
    match reply {
        ReplyView::Failed(error) => {
            lemma_failing(commit, start, before, now, later, error);
        },
        ReplyView::Entry(Some(entry)) => {
            if stops_at(entry.value, cause) {
                lemma_found(before.index, range, cause, before.scan, all);
                match entry.value->Added_0.artifact() {
                    Ok(other) => {
                        assert(next == commit.asserting(artifact, Some(entry.key)));
                        assert(knows_base(next, start, now));
                    },
                    Err(error) => {
                        assert(next == commit.failed(error));
                        lemma_failing(commit, start, before, now, later, error);
                    },
                }
            } else {
                lemma_search_goes_on(before.index, range, cause, before.scan, all);
                assert(next == commit);
                assert(is_searching(now.index, range, cause, now.scan, all));
                assert(knows_base(next, start, now));
            }
        },
        _ => {
            assert(before.scan =~= Seq::empty());
            lemma_not_found(before.index, range, cause, all);
            assert(next == commit.asserting(artifact, None));
            assert(knows_base(next, start, now));
        },
    }
}

proof fn lemma_step_edits(
    commit: CommitView,
    start: World,
    before: World,
    reply: ReplyView,
    now: World,
    history: History,
)
    requires
        commit.phase is Edits,
        is_on_course(commit, start, before, history),
        commit.request() matches Some(request) && before.answers(request, reply, now),
    ensures
        is_on_course(commit.next(reply), start, now, history.with_reply(commit, reply)),
{
    let next = commit.next(reply);
    let later = history.with_reply(commit, reply);
    assert(later.instructions == history.instructions);
    if let ReplyView::Failed(error) = reply {
        lemma_failing(commit, start, before, now, later, error);
    } else {
        let edits = commit.phase->Edits_0;
        assert(now.index == edited(before.index, edits[0]));
        assert(knows_base(next, start, now));
        if edits.len() == 1 {
            assert(edits.drop_first() =~= Seq::empty());
            assert(all_edited(now.index, Seq::empty()) == now.index);
        }
    }
}

proof fn lemma_step_end(
    commit: CommitView,
    start: World,
    before: World,
    reply: ReplyView,
    now: World,
    history: History,
)
    requires
        commit.phase is Root || commit.phase is Write || commit.phase is Refer
            || commit.phase is Point,
        is_on_course(commit, start, before, history),
        commit.request() matches Some(request) && before.answers(request, reply, now),
    ensures
        is_on_course(commit.next(reply), start, now, history.with_reply(commit, reply)),
{
    let next = commit.next(reply);
    let later = history.with_reply(commit, reply);
    assert(later.instructions == history.instructions);
    if let ReplyView::Failed(error) = reply {
        lemma_failing(commit, start, before, now, later, error);
    } else {
        assert(knows_base(next, start, now));
    }
}

proof fn lemma_step_rollback(
    commit: CommitView,
    start: World,
    before: World,
    reply: ReplyView,
    now: World,
    history: History,
)
    requires
        commit.phase is Rollback,
        is_on_course(commit, start, before, history),
        commit.request() matches Some(request) && before.answers(request, reply, now),
    ensures
        is_on_course(commit.next(reply), start, now, history.with_reply(commit, reply)),
{
    let next = commit.next(reply);
    let later = history.with_reply(commit, reply);
    assert(later.instructions == history.instructions);
    let reset = commit.phase->Rollback_0;
    if start.is_settled() {
        assert(knows_base(next, start, now));
        if !(reply is Failed) {
            if reset.phase is Point {
                assert(now.blocks =~= start.blocks.insert(commit.pointer, commit.base)) by {
                    assert(before.blocks.remove(commit.pointer).insert(commit.pointer, commit.base)
                        =~= now.blocks);
                    assert(start.blocks.remove(commit.pointer).insert(commit.pointer, commit.base)
                        =~= start.blocks.insert(commit.pointer, commit.base));
                }
                assert(now.blocks.remove(commit.pointer) =~= start.blocks.remove(commit.pointer));
            }
        }
    }
}

/// Every reply keeps the invariant.
pub(super) proof fn lemma_step(
    commit: CommitView,
    start: World,
    before: World,
    reply: ReplyView,
    now: World,
    history: History,
)
    requires
        is_on_course(commit, start, before, history),
        commit.request() matches Some(request) && before.answers(request, reply, now),
    ensures
        is_on_course(commit.next(reply), start, now, history.with_reply(commit, reply)),
{
    match commit.phase {
        CommitPhaseView::Base(_) => {
            lemma_step_base(commit, start, before, reply, now, history);
        },
        CommitPhaseView::Instruction => {
            lemma_step_instruction(commit, start, before, reply, now, history);
        },
        CommitPhaseView::Scan(..) => {
            lemma_step_scan(commit, start, before, reply, now, history);
        },
        CommitPhaseView::Search(..) => {
            lemma_step_search(commit, start, before, reply, now, history);
        },
        CommitPhaseView::Edits(_) => {
            lemma_step_edits(commit, start, before, reply, now, history);
        },
        CommitPhaseView::Rollback(..) => {
            lemma_step_rollback(commit, start, before, reply, now, history);
        },
        CommitPhaseView::Finished(_) => {},
        _ => {
            lemma_step_end(commit, start, before, reply, now, history);
        },
    }
}

/// A commit is on its course at its start.
pub(super) proof fn lemma_starts_on_course(pointer: Seq<u8>, world: World)
    ensures
        is_on_course(CommitView::start(pointer), world, world, History::start()),
{
}

/// Rows and messages do not matter to a commit that waits for an instruction.
pub(super) proof fn lemma_ignores_rows(
    commit: CommitView,
    start: World,
    before: World,
    now: World,
    history: History,
)
    requires
        commit.phase is Instruction,
        is_on_course(commit, start, before, history),
        now == (World { rows: now.rows, messages: now.messages, ..before }),
    ensures
        is_on_course(commit, start, now, history),
{
    assert(knows_base(commit, start, now));
}

/// What a commit on its course is at its end.
pub(super) proof fn lemma_ends_on_course(
    commit: CommitView,
    start: World,
    now: World,
    history: History,
)
    requires
        is_on_course(commit, start, now, history),
    ensures
        match commit.phase {
            CommitPhaseView::Finished(Ok(revision)) => {
                &&& after_all(start.index, history.instructions) == Ok::<Contents, ErrorView>(
                    now.index,
                )
                &&& revision == now.revision()
                &&& now.is_settled()
                &&& now.blocks == start.blocks.insert(commit.pointer, revision)
                &&& is_framed(start, now)
            },
            CommitPhaseView::Finished(Err(error)) => {
                &&& start.is_settled() && history.is_calm ==> is_restored(
                    commit.pointer,
                    start,
                    now,
                    history.is_based,
                )
                &&& start.is_settled() && history.is_smooth ==> after_all(
                    start.index,
                    history.instructions,
                ) == Err::<Contents, ErrorView>(error)
            },
            _ => true,
        },
{
}

/// Whether a commit that has met a failure holds on to the first one, to report it.
pub(super) open spec fn reports_failure(
    commit: CommitView,
    start: World,
    history: History,
) -> bool {
    match commit.phase {
        CommitPhaseView::Rollback(_, error) => history.failure == Some(error),
        CommitPhaseView::Finished(Err(error)) => start.is_settled() && history.is_calm
            ==> history.failure == Some(error),
        _ => history.failure is None,
    }
}

/// Every reply keeps a commit to the first failure.
pub(super) proof fn lemma_step_reports(
    commit: CommitView,
    start: World,
    before: World,
    reply: ReplyView,
    now: World,
    history: History,
)
    requires
        reports_failure(commit, start, history),
        is_on_course(commit, start, before, history),
        commit.phase is Instruction && reply is Instruction || (commit.request() matches Some(
            request,
        ) && before.answers(request, reply, now)),
    ensures
        reports_failure(commit.next(reply), start, history.with_reply(commit, reply)),
{
    reveal(failure_in);
    if let CommitPhaseView::Rollback(reset, error) = commit.phase {
        if start.is_settled() && !(reply is Failed) {
            assert(!(reset.next(reply).phase matches ResetPhaseView::Finished(outcome) && outcome
                is Err));
        }
    }
}

/// The history of a commit at the end of a course.
pub open spec fn history_after(commit: CommitView, course: Course, history: History) -> History
    decreases course.len(),
{
    if course.len() == 0 {
        history
    } else {
        history_after(
            commit.next(course[0].0),
            course.drop_first(),
            history.with_reply(commit, course[0].0),
        )
    }
}

/// Whether a commit gets no more instructions.
pub(super) open spec fn has_all_instructions(phase: CommitPhaseView) -> bool {
    ||| phase is Root
    ||| phase is Write
    ||| phase is Refer
    ||| phase is Point
    ||| phase matches CommitPhaseView::Finished(outcome) && outcome is Ok
}

/// What a commit has got, and what is to come, is what there was.
spec fn accounts_for(commit: CommitView, start: World, now: World, history: History) -> bool {
    &&& history.instructions + now.instructions == start.instructions
    &&& has_all_instructions(commit.phase) ==> now.instructions.len() == 0
}

proof fn lemma_step_accounts(
    commit: CommitView,
    start: World,
    before: World,
    reply: ReplyView,
    now: World,
    history: History,
)
    requires
        accounts_for(commit, start, before, history),
        commit.request() matches Some(request) && before.answers(request, reply, now),
    ensures
        accounts_for(commit.next(reply), start, now, history.with_reply(commit, reply)),
{
    let later = history.with_reply(commit, reply);
    if let ReplyView::Instruction(Some(instruction)) = reply {
        assert(commit.request() == Some(RequestView::NextInstruction));
        assert(later.instructions + now.instructions =~= start.instructions);
    }
}

proof fn lemma_course(
    commit: CommitView,
    start: World,
    now: World,
    course: Course,
    history: History,
)
    requires
        is_on_course(commit, start, now, history),
        accounts_for(commit, start, now, history),
        reports_failure(commit, start, history),
        takes(commit, now, course),
    ensures
        reports_failure(
            process_after(commit, course),
            start,
            history_after(commit, course, history),
        ),
        is_on_course(
            process_after(commit, course),
            start,
            world_after(now, course),
            history_after(commit, course, history),
        ),
        accounts_for(
            process_after(commit, course),
            start,
            world_after(now, course),
            history_after(commit, course, history),
        ),
    decreases course.len(),
{
    if course.len() > 0 {
        let (reply, after) = course[0];
        lemma_step(commit, start, now, reply, after, history);
        lemma_step_accounts(commit, start, now, reply, after, history);
        lemma_step_reports(commit, start, now, reply, after, history);
        lemma_course(
            commit.next(reply),
            start,
            after,
            course.drop_first(),
            history.with_reply(commit, reply),
        );
        assert(world_after(after, course.drop_first()) == world_after(now, course));
    }
}

proof fn lemma_pointer(commit: CommitView, course: Course)
    ensures
        process_after(commit, course).pointer == commit.pointer,
    decreases course.len(),
{
    if course.len() > 0 {
        lemma_pointer(commit.next(course[0].0), course.drop_first());
    }
}

proof fn lemma_smooth(commit: CommitView, course: Course, history: History)
    requires
        history.is_smooth,
        is_smooth(course),
    ensures
        history_after(commit, course, history).is_smooth,
    decreases course.len(),
{
    if course.len() > 0 {
        lemma_smooth_rest(course);
        lemma_smooth(
            commit.next(course[0].0),
            course.drop_first(),
            history.with_reply(commit, course[0].0),
        );
    }
}

proof fn lemma_from_start(pointer: Seq<u8>, world: World, course: Course)
    requires
        takes(CommitView::start(pointer), world, course),
    ensures
        is_on_course(
            process_after(CommitView::start(pointer), course),
            world,
            world_after(world, course),
            history_after(CommitView::start(pointer), course, History::start()),
        ),
        accounts_for(
            process_after(CommitView::start(pointer), course),
            world,
            world_after(world, course),
            history_after(CommitView::start(pointer), course, History::start()),
        ),
        reports_failure(
            process_after(CommitView::start(pointer), course),
            world,
            history_after(CommitView::start(pointer), course, History::start()),
        ),
        process_after(CommitView::start(pointer), course).pointer == pointer,
{
    let commit = CommitView::start(pointer);
    let history = History::start();
    assert(history.instructions + world.instructions =~= world.instructions);
    lemma_course(commit, world, world, course, history);
    lemma_pointer(commit, course);
}

/// A commit that succeeds has followed all instructions: the index holds what they
/// make of it, and nothing else. It returns the revision that the store is now at,
/// has stored that revision, and has made the block name it; no other block
/// changes.
pub proof fn law_commit_follows_instructions(
    pointer: Seq<u8>,
    world: World,
    course: Course,
    revision: Seq<u8>,
)
    requires
        takes(CommitView::start(pointer), world, course),
        process_after(CommitView::start(pointer), course).phase == CommitPhaseView::Finished(
            Ok(revision),
        ),
    ensures
        after_all(world.index, world.instructions) == Ok::<Contents, ErrorView>(
            world_after(world, course).index,
        ),
        revision == world_after(world, course).revision(),
        world_after(world, course).is_settled(),
        world_after(world, course).blocks == world.blocks.insert(pointer, revision),
        is_framed(world, world_after(world, course)),
{
    lemma_from_start(pointer, world, course);
    let history = history_after(CommitView::start(pointer), course, History::start());
    assert(history.instructions =~= world.instructions);
}

/// A commit that fails leaves the store where it was, and reports what went wrong
/// first, if the index was that of a stored revision and no request fails by which
/// the store is set back. Where the commit fails after it knew the revision to fall
/// back on, the block then names that revision.
pub proof fn law_commit_falls_back(
    pointer: Seq<u8>,
    world: World,
    course: Course,
    error: ErrorView,
)
    requires
        takes(CommitView::start(pointer), world, course),
        process_after(CommitView::start(pointer), course).phase == CommitPhaseView::Finished(
            Err(error),
        ),
        world.is_settled(),
        history_after(CommitView::start(pointer), course, History::start()).is_calm,
    ensures
        is_restored(
            pointer,
            world,
            world_after(world, course),
            history_after(CommitView::start(pointer), course, History::start()).is_based,
        ),
        history_after(CommitView::start(pointer), course, History::start()).failure == Some(error),
{
    lemma_from_start(pointer, world, course);
}

/// The block of the store changes last: as long as a commit has not come to its end,
/// and does not fall back, all blocks are as they were.
pub proof fn law_commit_points_last(pointer: Seq<u8>, world: World, course: Course)
    requires
        takes(CommitView::start(pointer), world, course),
        !(process_after(CommitView::start(pointer), course).phase is Finished),
        !(process_after(CommitView::start(pointer), course).phase is Rollback),
    ensures
        world_after(world, course).blocks == world.blocks,
{
    lemma_from_start(pointer, world, course);
}

/// A commit in the course of which no request fails ends as its instructions say:
/// with success if they can be followed, else with the error of the first that
/// cannot.
pub proof fn law_commit_succeeds(
    pointer: Seq<u8>,
    world: World,
    course: Course,
    outcome: Result<Seq<u8>, ErrorView>,
)
    requires
        takes(CommitView::start(pointer), world, course),
        process_after(CommitView::start(pointer), course).phase == CommitPhaseView::Finished(
            outcome,
        ),
        world.is_settled(),
        is_smooth(course),
    ensures
        match after_all(world.index, world.instructions) {
            Ok(_) => outcome is Ok,
            Err(error) => outcome == Err::<Seq<u8>, ErrorView>(error),
        },
{
    let commit = CommitView::start(pointer);
    lemma_from_start(pointer, world, course);
    lemma_smooth(commit, course, History::start());
    let history = history_after(commit, course, History::start());
    let now = world_after(world, course);
    match outcome {
        Ok(_) => {
            assert(history.instructions =~= world.instructions);
        },
        Err(_) => {
            law_batch_is_its_parts(world.index, history.instructions, now.instructions);
        },
    }
}

/// Commits of the same independent artifacts, in whatever order, to stores of the
/// same contents bring these to the same revision.
pub proof fn law_order_gives_same_revision(
    pointers: (Seq<u8>, Seq<u8>),
    worlds: (World, World),
    courses: (Course, Course),
    revisions: (Seq<u8>, Seq<u8>),
    artifacts: (Seq<ArtifactView>, Seq<ArtifactView>),
)
    requires
        takes(CommitView::start(pointers.0), worlds.0, courses.0),
        takes(CommitView::start(pointers.1), worlds.1, courses.1),
        process_after(CommitView::start(pointers.0), courses.0).phase == CommitPhaseView::Finished(
            Ok(revisions.0),
        ),
        process_after(CommitView::start(pointers.1), courses.1).phase == CommitPhaseView::Finished(
            Ok(revisions.1),
        ),
        worlds.0.index == worlds.1.index,
        worlds.0.root == worlds.1.root,
        worlds.0.refer == worlds.1.refer,
        worlds.0.instructions == assertions(artifacts.0),
        worlds.1.instructions == assertions(artifacts.1),
        is_consistent(worlds.0.index),
        are_independent(worlds.0.index, artifacts.0),
        forall|artifact: ArtifactView|
            artifacts.0.contains(artifact) <==> artifacts.1.contains(artifact),
    ensures
        world_after(worlds.0, courses.0).index == world_after(worlds.1, courses.1).index,
        revisions.0 == revisions.1,
{
    law_commit_follows_instructions(pointers.0, worlds.0, courses.0, revisions.0);
    law_commit_follows_instructions(pointers.1, worlds.1, courses.1, revisions.1);
    law_order_does_not_matter(worlds.0.index, artifacts.0, artifacts.1);
}

} // verus!
