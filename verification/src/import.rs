//! Importing rows into the store.
use crate::artifact::{Instruction, InstructionView};
use crate::commit::{Commit, CommitPhase, CommitPhaseView, CommitView};
use crate::protocol::{Process, Reply, ReplyView, Request, RequestView};
use crate::reference::Blake3Hash;
use crate::text::joined;
use vstd::prelude::*;

verus! {

/// The process that commits the artifacts of rows. A row that holds none is
/// reported, and passed over.
#[derive(Debug)]
pub struct Import {
    commit: Commit,
    report: Option<String>,
}

/// An import: the commit that it feeds, and the message that is to be shown
/// before the next row.
pub struct ImportView {
    pub commit: CommitView,
    pub report: Option<Seq<char>>,
}

impl View for Import {
    type V = ImportView;

    closed spec fn view(&self) -> ImportView {
        ImportView {
            commit: self.commit@,
            report: match self.report {
                Some(message) => Some(message@),
                None => None,
            },
        }
    }
}

impl ImportView {
    /// The import into the store with the given pointer, at its start.
    pub open spec fn start(pointer: Seq<u8>) -> ImportView {
        ImportView { commit: CommitView::start(pointer), report: None }
    }
}

impl Process for ImportView {
    open spec fn request(self) -> Option<RequestView> {
        match (self.commit.phase, self.report) {
            (CommitPhaseView::Instruction, Some(message)) => Some(RequestView::Report(message)),
            (CommitPhaseView::Instruction, None) => Some(RequestView::NextRow),
            _ => self.commit.request(),
        }
    }

    open spec fn next(self, reply: ReplyView) -> Self {
        match (self.commit.phase, self.report, reply) {
            (CommitPhaseView::Instruction, Some(_), ReplyView::Done) => ImportView {
                report: None,
                ..self
            },
            (CommitPhaseView::Instruction, None, ReplyView::Row(Some(Ok(artifact)))) => ImportView {
                commit: self.commit.next(
                    ReplyView::Instruction(Some(InstructionView::Assert(artifact))),
                ),
                ..self
            },
            (CommitPhaseView::Instruction, None, ReplyView::Row(Some(Err(message)))) => ImportView {
                report: Some("Skipping invalid datum: "@ + message),
                ..self
            },
            (CommitPhaseView::Instruction, None, ReplyView::Row(None)) => ImportView {
                commit: self.commit.next(ReplyView::Instruction(None)),
                ..self
            },
            (CommitPhaseView::Instruction, _, _) => self,
            _ => ImportView { commit: self.commit.next(reply), ..self },
        }
    }
}

impl Import {
    /// The import into the store with the given pointer, at its start.
    pub fn start(pointer: Blake3Hash) -> (import: Import)
        ensures
            import@ == ImportView::start(pointer@),
    {
        Import { commit: Commit::start(pointer), report: None }
    }

    /// The commit that the import feeds.
    pub fn commit(&self) -> (commit: &Commit)
        ensures
            commit@ == self@.commit,
    {
        &self.commit
    }

    /// The request that the process waits for an answer to; none at its end.
    pub fn request(&self) -> (request: Option<Request>)
        ensures
            match request {
                Some(request) => self@.request() == Some(request@),
                None => self@.request() is None,
            },
    {
        match (self.commit.phase(), &self.report) {
            (CommitPhase::Instruction, Some(message)) => Some(Request::Report(message.clone())),
            (CommitPhase::Instruction, None) => Some(Request::NextRow),
            _ => self.commit.request(),
        }
    }

    /// The process after a reply.
    pub fn resume(self, reply: Reply) -> (next: Self)
        ensures
            next@ == self@.next(reply@),
    {
        let Import { commit, report } = self;
        match commit.phase() {
            CommitPhase::Instruction => match (report, reply) {
                (Some(_), Reply::Done) => Import { commit, report: None },
                (None, Reply::Row(Some(Ok(artifact)))) => Import {
                    commit: commit.resume(
                        Reply::Instruction(Some(Instruction::Assert(artifact))),
                    ),
                    report: None,
                },
                (None, Reply::Row(Some(Err(message)))) => {
                    proof {
                        reveal_strlit("");
                    }
                    let message = joined("Skipping invalid datum: ", message.as_str(), "");
                    assert(message@ =~= "Skipping invalid datum: "@ + reply@->Row_0->0->Err_0);
                    Import { commit, report: Some(message) }
                },
                (None, Reply::Row(None)) => Import {
                    commit: commit.resume(Reply::Instruction(None)),
                    report: None,
                },
                (report, _) => Import { commit, report },
            },
            _ => Import { commit: commit.resume(reply), report },
        }
    }
}

} // verus!
