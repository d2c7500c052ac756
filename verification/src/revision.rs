//! The revision that the store is at.
use crate::error::{DialogArtifactsError, ErrorView};
use crate::protocol::{Process, Reply, ReplyView, Request, RequestView, Revision};
use crate::reference::{Blake3Hash, NULL_REVISION_HASH};
use vstd::prelude::*;

verus! {

/// The process that finds out which revision the store is at.
#[derive(Debug)]
pub enum RevisionQuery {
    /// Waits for the root of the index.
    Root,
    /// Waits for the reference of the revision with that root.
    Refer(Revision),
    /// Has found it, or failed.
    Finished(Result<Blake3Hash, DialogArtifactsError>),
}

/// What the process is at.
pub enum RevisionQueryView {
    Root,
    Refer(Seq<u8>),
    Finished(Result<Seq<u8>, ErrorView>),
}

/// What an outcome with a reference says.
pub open spec fn reference_outcome(
    outcome: Result<Blake3Hash, DialogArtifactsError>,
) -> Result<Seq<u8>, ErrorView> {
    match outcome {
        Ok(reference) => Ok(reference@),
        Err(error) => Err(error@),
    }
}

/// What an outcome without a value says.
pub open spec fn unit_outcome(outcome: Result<(), DialogArtifactsError>) -> Result<(), ErrorView> {
    match outcome {
        Ok(()) => Ok(()),
        Err(error) => Err(error@),
    }
}

impl View for RevisionQuery {
    type V = RevisionQueryView;

    open spec fn view(&self) -> RevisionQueryView {
        match *self {
            RevisionQuery::Root => RevisionQueryView::Root,
            RevisionQuery::Refer(revision) => RevisionQueryView::Refer(revision@),
            RevisionQuery::Finished(outcome) => RevisionQueryView::Finished(
                reference_outcome(outcome),
            ),
        }
    }
}

impl Process for RevisionQueryView {
    open spec fn request(self) -> Option<RequestView> {
        match self {
            RevisionQueryView::Root => Some(RequestView::GetRoot),
            RevisionQueryView::Refer(revision) => Some(RequestView::ReferToRevision(revision)),
            RevisionQueryView::Finished(_) => None,
        }
    }

    /// A store without a root is at the null revision; else the reference of the
    /// revision with the root is asked for.
    open spec fn next(self, reply: ReplyView) -> Self {
        match (self, reply) {
            (RevisionQueryView::Root, ReplyView::Root(Some(root))) => RevisionQueryView::Refer(
                root,
            ),
            (RevisionQueryView::Root, ReplyView::Root(None)) => RevisionQueryView::Finished(
                Ok(NULL_REVISION_HASH@),
            ),
            (RevisionQueryView::Refer(_), ReplyView::Reference(reference)) =>
                RevisionQueryView::Finished(Ok(reference)),
            (RevisionQueryView::Refer(_), ReplyView::Failed(error)) => RevisionQueryView::Finished(
                Err(error),
            ),
            _ => self,
        }
    }
}

impl RevisionQuery {
    /// The request that the process waits for an answer to; none at its end.
    pub fn request(&self) -> (request: Option<Request>)
        ensures
            match request {
                Some(request) => self@.request() == Some(request@),
                None => self@.request() is None,
            },
    {
        match self {
            RevisionQuery::Root => Some(Request::GetRoot),
            RevisionQuery::Refer(revision) => Some(Request::ReferToRevision(*revision)),
            RevisionQuery::Finished(_) => None,
        }
    }

    /// The process after a reply.
    pub fn resume(self, reply: Reply) -> (next: Self)
        ensures
            next@ == self@.next(reply@),
    {
        match (self, reply) {
            (RevisionQuery::Root, Reply::Root(Some(root))) => RevisionQuery::Refer(
                Revision::new(&root),
            ),
            (RevisionQuery::Root, Reply::Root(None)) => RevisionQuery::Finished(
                Ok(NULL_REVISION_HASH),
            ),
            (RevisionQuery::Refer(_), Reply::Reference(reference)) => RevisionQuery::Finished(
                Ok(reference),
            ),
            (RevisionQuery::Refer(_), Reply::Failed(error)) => RevisionQuery::Finished(Err(error)),
            (process, _) => process,
        }
    }
}

} // verus!
