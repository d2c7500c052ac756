//! Setting the store back to a revision.
use crate::error::{DialogArtifactsError, ErrorView};
use crate::protocol::{
    reference_view, Access, Process, Reply, ReplyView, Request, RequestView, Revision,
};
use crate::reference::{
    base58_text, reference_in_base58, reference_of_bytes, same_bytes, Blake3Hash, HASH_SIZE,
    NULL_REVISION_HASH,
};
use crate::revision::unit_outcome;
use crate::text::{decimal, decimal_text, joined};
use vstd::prelude::*;
use vstd::slice::slice_to_vec;

verus! {

/// What a block that is to name a revision says: the reference of the revision
/// if it is as long as one, else what is wrong with it.
pub open spec fn revision_in_block(block: Seq<u8>) -> Result<Seq<u8>, ErrorView> {
    if block.len() == HASH_SIZE {
        Ok(block)
    } else {
        Err(
            ErrorView::InvalidRevision(
                "Incorrect byte length (expected 32, received "@ + decimal(block.len()) + ")"@,
            ),
        )
    }
}

/// The error for a revision that is not in the storage.
pub open spec fn no_such_revision(reference: Seq<u8>) -> ErrorView {
    ErrorView::InvalidRevision("Block ("@ + base58_text(reference) + ") not found in storage"@)
}

/// What a block that is to name a revision says.
pub fn read_revision_block(block: &[u8]) -> (reference: Result<Blake3Hash, DialogArtifactsError>)
    ensures
        match reference {
            Ok(reference) => revision_in_block(block@) == Ok::<Seq<u8>, ErrorView>(reference@),
            Err(error) => revision_in_block(block@) == Err::<Seq<u8>, ErrorView>(error@),
        },
{
    match reference_of_bytes(block) {
        Some(reference) => Ok(reference),
        None => Err(
            DialogArtifactsError::InvalidRevision(
                joined(
                    "Incorrect byte length (expected 32, received ",
                    decimal_text(block.len() as u128).as_str(),
                    ")",
                ),
            ),
        ),
    }
}

/// How far a reset has come.
#[derive(Debug)]
pub enum ResetPhase {
    /// Waits for the block that names the stored revision.
    Pointer,
    /// Waits for the revision to go back to.
    Target(Blake3Hash),
    /// Waits until the block names the revision, the index of which has the
    /// given root.
    Point(Blake3Hash, Option<Blake3Hash>),
    /// Waits until the index is set back to the root.
    Root(Option<Blake3Hash>),
    /// Has come to its end.
    Finished(Result<(), DialogArtifactsError>),
}

/// The process that sets the store back to a revision: to the one given, or to
/// the stored one.
#[derive(Debug)]
pub struct Reset {
    pointer: Blake3Hash,
    given: bool,
    phase: ResetPhase,
}

/// How far a reset has come.
pub enum ResetPhaseView {
    Pointer,
    Target(Seq<u8>),
    Point(Seq<u8>, Option<Seq<u8>>),
    Root(Option<Seq<u8>>),
    Finished(Result<(), ErrorView>),
}

/// A reset: the key of the block that names the revision, whether the revision
/// was given, and how far the reset has come.
pub struct ResetView {
    pub pointer: Seq<u8>,
    pub given: bool,
    pub phase: ResetPhaseView,
}

impl View for ResetPhase {
    type V = ResetPhaseView;

    open spec fn view(&self) -> ResetPhaseView {
        match *self {
            ResetPhase::Pointer => ResetPhaseView::Pointer,
            ResetPhase::Target(target) => ResetPhaseView::Target(target@),
            ResetPhase::Point(target, root) => ResetPhaseView::Point(target@, reference_view(root)),
            ResetPhase::Root(root) => ResetPhaseView::Root(reference_view(root)),
            ResetPhase::Finished(outcome) => ResetPhaseView::Finished(unit_outcome(outcome)),
        }
    }
}

impl View for Reset {
    type V = ResetView;

    closed spec fn view(&self) -> ResetView {
        ResetView { pointer: self.pointer@, given: self.given, phase: self.phase@ }
    }
}

impl ResetView {
    /// The reset with another phase.
    pub open spec fn at(self, phase: ResetPhaseView) -> ResetView {
        ResetView { phase, ..self }
    }

    /// The reset of the store with the given pointer, at its start.
    pub open spec fn start(pointer: Seq<u8>, revision: Option<Seq<u8>>) -> ResetView {
        let reset = ResetView {
            pointer,
            given: revision is Some,
            phase: ResetPhaseView::Pointer,
        };
        match revision {
            Some(revision) => reset.toward(revision),
            None => reset,
        }
    }

    /// The reset once the revision to go back to is known. The null revision is
    /// not in the storage: it is that of an empty index.
    pub open spec fn toward(self, revision: Seq<u8>) -> ResetView {
        if revision == NULL_REVISION_HASH@ {
            self.found(revision, None)
        } else {
            self.at(ResetPhaseView::Target(revision))
        }
    }

    /// The reset once the root of the index is known. The block that names the
    /// revision is written only if the revision was given.
    pub open spec fn found(self, revision: Seq<u8>, root: Option<Seq<u8>>) -> ResetView {
        if self.given {
            self.at(ResetPhaseView::Point(revision, root))
        } else {
            self.at(ResetPhaseView::Root(root))
        }
    }

    /// How the reset holds the index: only while it is set back.
    pub open spec fn access(self) -> Access {
        if self.phase is Root {
            Access::Write
        } else {
            Access::Free
        }
    }

    /// The reset at its end.
    pub open spec fn ended(self, outcome: Result<(), ErrorView>) -> ResetView {
        self.at(ResetPhaseView::Finished(outcome))
    }
}

impl Process for ResetView {
    open spec fn request(self) -> Option<RequestView> {
        match self.phase {
            ResetPhaseView::Pointer => Some(RequestView::GetBlock(self.pointer)),
            ResetPhaseView::Target(target) => Some(RequestView::ReadRevision(target)),
            ResetPhaseView::Point(target, _) => Some(RequestView::SetBlock(self.pointer, target)),
            ResetPhaseView::Root(root) => Some(RequestView::SetRoot(root)),
            ResetPhaseView::Finished(_) => None,
        }
    }

    open spec fn next(self, reply: ReplyView) -> Self {
        match (self.phase, reply) {
            (ResetPhaseView::Finished(_), _) => self,
            (_, ReplyView::Failed(error)) => self.ended(Err(error)),
            (ResetPhaseView::Pointer, ReplyView::Block(None)) => self.toward(NULL_REVISION_HASH@),
            (ResetPhaseView::Pointer, ReplyView::Block(Some(block))) => {
                match revision_in_block(block) {
                    Ok(revision) => self.toward(revision),
                    Err(error) => self.ended(Err(error)),
                }
            },
            (ResetPhaseView::Target(target), ReplyView::Revision(Some(root))) => self.found(
                target,
                Some(root),
            ),
            (ResetPhaseView::Target(target), ReplyView::Revision(None)) => self.ended(
                Err(no_such_revision(target)),
            ),
            (ResetPhaseView::Point(_, root), ReplyView::Done) => self.at(
                ResetPhaseView::Root(root),
            ),
            (ResetPhaseView::Root(_), ReplyView::Done) => self.ended(Ok(())),
            _ => self,
        }
    }
}

impl Reset {
    /// The reset of the store with the given pointer, at its start.
    pub fn start(pointer: Blake3Hash, revision: Option<Blake3Hash>) -> (reset: Reset)
        ensures
            reset@ == ResetView::start(pointer@, reference_view(revision)),
    {
        let reset = Reset { pointer, given: revision.is_some(), phase: ResetPhase::Pointer };
        match revision {
            Some(revision) => reset.toward(revision),
            None => reset,
        }
    }

    fn toward(self, revision: Blake3Hash) -> (reset: Reset)
        ensures
            reset@ == self@.toward(revision@),
    {
        if same_bytes(revision.as_slice(), NULL_REVISION_HASH.as_slice()) {
            self.found(revision, None)
        } else {
            Reset { phase: ResetPhase::Target(revision), ..self }
        }
    }

    fn found(self, revision: Blake3Hash, root: Option<Blake3Hash>) -> (reset: Reset)
        ensures
            reset@ == self@.found(revision@, reference_view(root)),
    {
        if self.given {
            Reset { phase: ResetPhase::Point(revision, root), ..self }
        } else {
            Reset { phase: ResetPhase::Root(root), ..self }
        }
    }

    /// How far the reset has come.
    pub fn phase(&self) -> (phase: &ResetPhase)
        ensures
            phase@ == self@.phase,
    {
        &self.phase
    }

    /// How the reset holds the index.
    pub fn access(&self) -> (access: Access)
        ensures
            access == self@.access(),
    {
        match &self.phase {
            ResetPhase::Root(_) => Access::Write,
            _ => Access::Free,
        }
    }

    /// The request that the process waits for an answer to; none at its end.
    pub fn request(&self) -> (request: Option<Request>)
        ensures
            match request {
                Some(request) => self@.request() == Some(request@),
                None => self@.request() is None,
            },
    {
        match &self.phase {
            ResetPhase::Pointer => Some(Request::GetBlock(self.pointer)),
            ResetPhase::Target(target) => Some(Request::ReadRevision(*target)),
            ResetPhase::Point(target, _) => Some(
                Request::SetBlock(self.pointer, slice_to_vec(target.as_slice())),
            ),
            ResetPhase::Root(root) => Some(Request::SetRoot(*root)),
            ResetPhase::Finished(_) => None,
        }
    }

    /// The process after a reply.
    pub fn resume(self, reply: Reply) -> (next: Self)
        ensures
            next@ == self@.next(reply@),
    {
        let Reset { pointer, given, phase } = self;
        let waiting = Reset { pointer, given, phase: ResetPhase::Pointer };
        match (phase, reply) {
            (ResetPhase::Finished(outcome), _) => Reset {
                phase: ResetPhase::Finished(outcome),
                ..waiting
            },
            (_, Reply::Failed(error)) => Reset {
                phase: ResetPhase::Finished(Err(error)),
                ..waiting
            },
            (ResetPhase::Pointer, Reply::Block(None)) => waiting.toward(NULL_REVISION_HASH),
            (ResetPhase::Pointer, Reply::Block(Some(block))) => {
                match read_revision_block(block.as_slice()) {
                    Ok(revision) => waiting.toward(revision),
                    Err(error) => Reset { phase: ResetPhase::Finished(Err(error)), ..waiting },
                }
            },
            (ResetPhase::Target(target), Reply::Revision(Some(revision))) => waiting.found(
                target,
                Some(*revision.index()),
            ),
            (ResetPhase::Target(target), Reply::Revision(None)) => Reset {
                phase: ResetPhase::Finished(
                    Err(
                        DialogArtifactsError::InvalidRevision(
                            joined(
                                "Block (",
                                reference_in_base58(&target).as_str(),
                                ") not found in storage",
                            ),
                        ),
                    ),
                ),
                ..waiting
            },
            (ResetPhase::Point(_, root), Reply::Done) => Reset {
                phase: ResetPhase::Root(root),
                ..waiting
            },
            (ResetPhase::Root(_), Reply::Done) => Reset {
                phase: ResetPhase::Finished(Ok(())),
                ..waiting
            },
            (phase, _) => Reset { phase, ..waiting },
        }
    }
}

} // verus!
