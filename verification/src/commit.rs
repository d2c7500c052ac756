//! Committing instructions to the store.
use crate::artifact::{
    Artifact, ArtifactView, Cause, Datum, Instruction, InstructionView, State, StateView,
};
use crate::cause::cause_of;
use crate::error::{DialogArtifactsError, ErrorView};
use crate::index::{
    edits_view, is_ancestor, replacing, replacing_edits, search_range, search_range_of, setting,
    Edit, EditView,
};
use crate::key::{parts_of, Parts};
use crate::protocol::{Access, Process, Reply, ReplyView, Request, RequestView, Revision};
use crate::reference::{Blake3Hash, NULL_REVISION_HASH};
use crate::reset::{Reset, ResetPhase, ResetPhaseView, ResetView};
use crate::revision::{reference_outcome, RevisionQuery, RevisionQueryView};
use vstd::prelude::*;
use vstd::slice::slice_to_vec;

verus! {

/// How far a commit has come.
#[derive(Debug)]
pub enum CommitPhase {
    /// Finds out the revision to fall back on.
    Base(RevisionQuery),
    /// Waits for the next instruction.
    Instruction,
    /// Waits to go through the entries among which the cause of the artifact to
    /// assert is searched for.
    Scan(Artifact, Cause),
    /// Waits for the next of these entries.
    Search(Artifact, Cause),
    /// Waits until the change at the given place of the list is made.
    Edits(Vec<Edit>, usize),
    /// Waits for the root of the index.
    Root,
    /// Waits until the new revision is stored.
    Write(Revision),
    /// Waits for the reference of the new revision.
    Refer(Revision),
    /// Waits until the block names the new revision.
    Point(Blake3Hash),
    /// Sets the store back, after the given error.
    Rollback(Reset, DialogArtifactsError),
    /// Has come to its end: with the new revision, or an error.
    Finished(Result<Blake3Hash, DialogArtifactsError>),
}

/// The process that commits instructions.
#[derive(Debug)]
pub struct Commit {
    pointer: Blake3Hash,
    base: Blake3Hash,
    phase: CommitPhase,
}

/// How far a commit has come. Of the changes, those that are yet to be made are
/// listed.
pub enum CommitPhaseView {
    Base(RevisionQueryView),
    Instruction,
    Scan(ArtifactView, Seq<u8>),
    Search(ArtifactView, Seq<u8>),
    Edits(Seq<EditView>),
    Root,
    Write(Seq<u8>),
    Refer(Seq<u8>),
    Point(Seq<u8>),
    Rollback(ResetView, ErrorView),
    Finished(Result<Seq<u8>, ErrorView>),
}

/// A commit: the key of the block that names the revision, the revision to fall
/// back on once it is known, and how far the commit has come.
pub struct CommitView {
    pub pointer: Seq<u8>,
    pub base: Seq<u8>,
    pub phase: CommitPhaseView,
}

impl View for CommitPhase {
    type V = CommitPhaseView;

    open spec fn view(&self) -> CommitPhaseView {
        match *self {
            CommitPhase::Base(query) => CommitPhaseView::Base(query@),
            CommitPhase::Instruction => CommitPhaseView::Instruction,
            CommitPhase::Scan(artifact, cause) => CommitPhaseView::Scan(artifact@, cause@),
            CommitPhase::Search(artifact, cause) => CommitPhaseView::Search(artifact@, cause@),
            CommitPhase::Edits(edits, done) => CommitPhaseView::Edits(
                edits_view(edits@).skip(done as int),
            ),
            CommitPhase::Root => CommitPhaseView::Root,
            CommitPhase::Write(revision) => CommitPhaseView::Write(revision@),
            CommitPhase::Refer(revision) => CommitPhaseView::Refer(revision@),
            CommitPhase::Point(revision) => CommitPhaseView::Point(revision@),
            CommitPhase::Rollback(reset, error) => CommitPhaseView::Rollback(reset@, error@),
            CommitPhase::Finished(outcome) => CommitPhaseView::Finished(reference_outcome(outcome)),
        }
    }
}

impl View for Commit {
    type V = CommitView;

    closed spec fn view(&self) -> CommitView {
        CommitView { pointer: self.pointer@, base: self.base@, phase: self.phase@ }
    }
}

impl CommitView {
    /// The commit with another phase.
    pub open spec fn at(self, phase: CommitPhaseView) -> CommitView {
        CommitView { phase, ..self }
    }

    /// The commit to the store with the given pointer, at its start.
    pub open spec fn start(pointer: Seq<u8>) -> CommitView {
        CommitView {
            pointer,
            base: NULL_REVISION_HASH@,
            phase: CommitPhaseView::Base(RevisionQueryView::Root),
        }
    }

    /// The commit once it knows more about the revision to fall back on.
    pub open spec fn based(self, query: RevisionQueryView) -> CommitView {
        match query {
            RevisionQueryView::Finished(Ok(base)) => CommitView {
                base,
                phase: CommitPhaseView::Instruction,
                ..self
            },
            RevisionQueryView::Finished(Err(error)) => self.at(
                CommitPhaseView::Finished(Err(error)),
            ),
            _ => self.at(CommitPhaseView::Base(query)),
        }
    }

    /// How the commit holds the index: for reading while it finds out the revision to
    /// fall back on, then for writing until it has come to its end or falls back.
    pub open spec fn access(self) -> Access {
        match self.phase {
            CommitPhaseView::Base(_) => Access::Read,
            CommitPhaseView::Rollback(reset, _) => reset.access(),
            CommitPhaseView::Finished(_) => Access::Free,
            _ => Access::Write,
        }
    }

    /// The commit as it falls back, after an error.
    pub open spec fn failed(self, error: ErrorView) -> CommitView {
        self.at(
            CommitPhaseView::Rollback(ResetView::start(self.pointer, Some(self.base)), error),
        )
    }

    /// The commit once more of the store is set back. The error of the commit is
    /// reported, unless setting the store back fails too.
    pub open spec fn falling_back(self, reset: ResetView, error: ErrorView) -> CommitView {
        match reset.phase {
            ResetPhaseView::Finished(Ok(())) => self.at(CommitPhaseView::Finished(Err(error))),
            ResetPhaseView::Finished(Err(other)) => self.at(CommitPhaseView::Finished(Err(other))),
            _ => self.at(CommitPhaseView::Rollback(reset, error)),
        }
    }

    /// The commit with the changes that put an artifact in the place of its
    /// ancestor.
    pub open spec fn asserting(
        self,
        artifact: ArtifactView,
        ancestor: Option<Seq<u8>>,
    ) -> CommitView {
        self.at(
            CommitPhaseView::Edits(
                replacing(ancestor, parts_of(artifact), StateView::Added(artifact.datum())),
            ),
        )
    }

    /// The commit with its next instruction.
    pub open spec fn instructed(self, instruction: InstructionView) -> CommitView {
        match instruction {
            InstructionView::Assert(artifact) => match artifact.cause {
                Some(cause) => self.at(CommitPhaseView::Scan(artifact, cause)),
                None => self.asserting(artifact, None),
            },
            InstructionView::Retract(artifact) => self.at(
                CommitPhaseView::Edits(setting(parts_of(artifact), StateView::Removed)),
            ),
        }
    }
}

impl Process for CommitView {
    open spec fn request(self) -> Option<RequestView> {
        match self.phase {
            CommitPhaseView::Base(query) => query.request(),
            CommitPhaseView::Instruction => Some(RequestView::NextInstruction),
            CommitPhaseView::Scan(artifact, _) => Some(
                RequestView::Scan(search_range(parts_of(artifact))),
            ),
            CommitPhaseView::Search(..) => Some(RequestView::NextEntry),
            CommitPhaseView::Edits(edits) => Some(
                match edits[0] {
                    EditView::Put(key, state) => RequestView::SetEntry(key, state),
                    EditView::Delete(key) => RequestView::DeleteEntry(key),
                },
            ),
            CommitPhaseView::Root => Some(RequestView::GetRoot),
            CommitPhaseView::Write(root) => Some(RequestView::WriteRevision(root)),
            CommitPhaseView::Refer(root) => Some(RequestView::ReferToRevision(root)),
            CommitPhaseView::Point(revision) => Some(RequestView::SetBlock(self.pointer, revision)),
            CommitPhaseView::Rollback(reset, _) => reset.request(),
            CommitPhaseView::Finished(_) => None,
        }
    }

    open spec fn next(self, reply: ReplyView) -> Self {
        match (self.phase, reply) {
            (CommitPhaseView::Finished(_), _) => self,
            (CommitPhaseView::Base(query), reply) => self.based(query.next(reply)),
            (CommitPhaseView::Rollback(reset, error), reply) => self.falling_back(
                reset.next(reply),
                error,
            ),
            (_, ReplyView::Failed(error)) => self.failed(error),
            (CommitPhaseView::Instruction, ReplyView::Instruction(Some(instruction))) =>
                self.instructed(instruction),
            (CommitPhaseView::Instruction, ReplyView::Instruction(None)) => self.at(
                CommitPhaseView::Root,
            ),
            (CommitPhaseView::Scan(artifact, cause), ReplyView::Done) => self.at(
                CommitPhaseView::Search(artifact, cause),
            ),
            (CommitPhaseView::Search(artifact, cause), ReplyView::Entry(Some(entry))) => {
                match entry.value {
                    StateView::Added(datum) => match datum.artifact() {
                        Ok(other) => if cause_of(other) == cause {
                            self.asserting(artifact, Some(entry.key))
                        } else {
                            self
                        },
                        Err(error) => self.failed(error),
                    },
                    StateView::Removed => self,
                }
            },
            (CommitPhaseView::Search(artifact, _), ReplyView::Entry(None)) => self.asserting(
                artifact,
                None,
            ),
            (CommitPhaseView::Edits(edits), ReplyView::Done) => if edits.len() <= 1 {
                self.at(CommitPhaseView::Instruction)
            } else {
                self.at(CommitPhaseView::Edits(edits.drop_first()))
            },
            (CommitPhaseView::Root, ReplyView::Root(Some(root))) => self.at(
                CommitPhaseView::Write(root),
            ),
            (CommitPhaseView::Root, ReplyView::Root(None)) => self.at(
                CommitPhaseView::Point(NULL_REVISION_HASH@),
            ),
            (CommitPhaseView::Write(root), ReplyView::Done) => self.at(
                CommitPhaseView::Refer(root),
            ),
            (CommitPhaseView::Refer(_), ReplyView::Reference(revision)) => self.at(
                CommitPhaseView::Point(revision),
            ),
            (CommitPhaseView::Point(revision), ReplyView::Done) => self.at(
                CommitPhaseView::Finished(Ok(revision)),
            ),
            _ => self,
        }
    }
}

impl Commit {
    /// Whether there is a change to make where the list says so.
    #[verifier::type_invariant]
    spec fn valid(self) -> bool {
        self.phase matches CommitPhase::Edits(edits, done) ==> done < edits@.len()
    }

    /// The commit to the store with the given pointer, at its start.
    pub fn start(pointer: Blake3Hash) -> (commit: Commit)
        ensures
            commit@ == CommitView::start(pointer@),
    {
        Commit {
            pointer,
            base: NULL_REVISION_HASH,
            phase: CommitPhase::Base(RevisionQuery::Root),
        }
    }

    /// How far the commit has come.
    pub fn phase(&self) -> (phase: &CommitPhase)
        ensures
            phase@ == self@.phase,
    {
        &self.phase
    }

    /// How the commit holds the index.
    pub fn access(&self) -> (access: Access)
        ensures
            access == self@.access(),
    {
        match &self.phase {
            CommitPhase::Base(_) => Access::Read,
            CommitPhase::Rollback(reset, _) => reset.access(),
            CommitPhase::Finished(_) => Access::Free,
            _ => Access::Write,
        }
    }

    /// The request that the process waits for an answer to; none at its end.
    pub fn request(&self) -> (request: Option<Request>)
        ensures
            match request {
                Some(request) => self@.request() == Some(request@),
                None => self@.request() is None,
            },
    {
        proof {
            use_type_invariant(self);
        }
        match &self.phase {
            CommitPhase::Base(query) => query.request(),
            CommitPhase::Instruction => Some(Request::NextInstruction),
            CommitPhase::Scan(artifact, _) => Some(
                Request::Scan(search_range_of(&Parts::of_artifact(artifact))),
            ),
            CommitPhase::Search(_, _) => Some(Request::NextEntry),
            CommitPhase::Edits(edits, done) => {
                assert(edits_view(edits@).skip(*done as int)[0] == edits@[*done as int]@);
                Some(
                    match &edits[*done] {
                        Edit::Put(key, state) => Request::SetEntry(*key, state.clone()),
                        Edit::Delete(key) => Request::DeleteEntry(*key),
                    },
                )
            },
            CommitPhase::Root => Some(Request::GetRoot),
            CommitPhase::Write(revision) => Some(Request::WriteRevision(*revision)),
            CommitPhase::Refer(revision) => Some(Request::ReferToRevision(*revision)),
            CommitPhase::Point(revision) => Some(
                Request::SetBlock(self.pointer, slice_to_vec(revision.as_slice())),
            ),
            CommitPhase::Rollback(reset, _) => reset.request(),
            CommitPhase::Finished(_) => None,
        }
    }

    fn based(pointer: Blake3Hash, base: Blake3Hash, query: RevisionQuery) -> (next: Commit)
        ensures
            forall|phase: CommitPhaseView|
                next@ == (#[trigger] (CommitView { pointer: pointer@, base: base@, phase }).based(
                    query@,
                )),
    {
        match query {
            RevisionQuery::Finished(Ok(base)) => Commit {
                pointer,
                base,
                phase: CommitPhase::Instruction,
            },
            RevisionQuery::Finished(Err(error)) => Commit {
                pointer,
                base,
                phase: CommitPhase::Finished(Err(error)),
            },
            query => Commit { pointer, base, phase: CommitPhase::Base(query) },
        }
    }

    fn falling_back(reset: Reset, error: DialogArtifactsError) -> (phase: CommitPhase)
        ensures
            forall|commit: CommitView|
                (#[trigger] commit.falling_back(reset@, error@)) == commit.at(phase@),
            !(phase is Edits),
    {
        match reset.phase() {
            ResetPhase::Finished(Ok(())) => CommitPhase::Finished(Err(error)),
            ResetPhase::Finished(Err(other)) => CommitPhase::Finished(Err(other.clone())),
            _ => CommitPhase::Rollback(reset, error),
        }
    }

    fn asserting(artifact: &Artifact, ancestor: Option<crate::key::Key>) -> (phase: CommitPhase)
        ensures
            phase@ == CommitPhaseView::Edits(
                replacing(
                    match ancestor {
                        Some(key) => Some(key@),
                        None => None,
                    },
                    parts_of(artifact@),
                    StateView::Added(artifact@.datum()),
                ),
            ),
            phase matches CommitPhase::Edits(edits, done) && done < edits@.len(),
    {
        let edits = replacing_edits(
            ancestor,
            &Parts::of_artifact(artifact),
            State::Added(Datum::of_artifact(artifact)),
        );
        assert(edits_view(edits@).skip(0) =~= edits_view(edits@));
        assert(edits@.len() == edits_view(edits@).len());
        CommitPhase::Edits(edits, 0)
    }

    fn instructed(instruction: Instruction) -> (phase: CommitPhase)
        ensures
            forall|commit: CommitView|
                (#[trigger] commit.instructed(instruction@)) == commit.at(phase@),
            phase matches CommitPhase::Edits(edits, done) ==> done < edits@.len(),
    {
        match instruction {
            Instruction::Assert(artifact) => match artifact.cause {
                Some(cause) => CommitPhase::Scan(artifact, cause),
                None => Commit::asserting(&artifact, None),
            },
            Instruction::Retract(artifact) => {
                let edits = replacing_edits(None, &Parts::of_artifact(&artifact), State::Removed);
                assert(edits_view(edits@).skip(0) =~= edits_view(edits@));
                assert(edits@.len() == edits_view(edits@).len());
                CommitPhase::Edits(edits, 0)
            },
        }
    }

    /// The process after a reply.
    pub fn resume(self, reply: Reply) -> (next: Self)
        ensures
            next@ == self@.next(reply@),
    {
        proof {
            use_type_invariant(&self);
        }
        let Commit { pointer, base, phase } = self;
        let phase = match (phase, reply) {
            (CommitPhase::Finished(outcome), _) => CommitPhase::Finished(outcome),
            (CommitPhase::Base(query), reply) => {
                return Commit::based(pointer, base, query.resume(reply));
            },
            (CommitPhase::Rollback(reset, error), reply) => Commit::falling_back(
                reset.resume(reply),
                error,
            ),
            (_, Reply::Failed(error)) => CommitPhase::Rollback(
                Reset::start(pointer, Some(base)),
                error,
            ),
            (CommitPhase::Instruction, Reply::Instruction(Some(instruction))) =>
                Commit::instructed(instruction),
            (CommitPhase::Instruction, Reply::Instruction(None)) => CommitPhase::Root,
            (CommitPhase::Scan(artifact, cause), Reply::Done) => CommitPhase::Search(
                artifact,
                cause,
            ),
            (CommitPhase::Search(artifact, cause), Reply::Entry(Some(entry))) => {
                let key = entry.key;
                match is_ancestor(entry, &cause) {
                    Ok(true) => Commit::asserting(&artifact, Some(key)),
                    Ok(false) => CommitPhase::Search(artifact, cause),
                    Err(error) => CommitPhase::Rollback(Reset::start(pointer, Some(base)), error),
                }
            },
            (CommitPhase::Search(artifact, _), Reply::Entry(None)) => Commit::asserting(
                &artifact,
                None,
            ),
            (CommitPhase::Edits(edits, done), Reply::Done) => {
                assert(edits_view(edits@).skip(done as int).len() == edits@.len() - done);
                if edits.len() - done <= 1 {
                    CommitPhase::Instruction
                } else {
                    assert(edits_view(edits@).skip(done as int).drop_first() =~= edits_view(
                        edits@,
                    ).skip(done + 1));
                    CommitPhase::Edits(edits, done + 1)
                }
            },
            (CommitPhase::Root, Reply::Root(Some(root))) => CommitPhase::Write(
                Revision::new(&root),
            ),
            (CommitPhase::Root, Reply::Root(None)) => CommitPhase::Point(NULL_REVISION_HASH),
            (CommitPhase::Write(revision), Reply::Done) => CommitPhase::Refer(revision),
            (CommitPhase::Refer(_), Reply::Reference(revision)) => CommitPhase::Point(revision),
            (CommitPhase::Point(revision), Reply::Done) => CommitPhase::Finished(Ok(revision)),
            (phase, _) => phase,
        };
        Commit { pointer, base, phase }
    }
}

} // verus!
