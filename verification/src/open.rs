//! Opening a store.
use crate::error::{DialogArtifactsError, ErrorView};
use crate::protocol::{
    reference_view, Process, Reply, ReplyView, Request, RequestView, Revision,
};
use crate::reference::{
    make_reference, reference_of, same_bytes, Blake3Hash, NULL_REVISION_HASH,
};
use crate::reset::{read_revision_block, revision_in_block};
use crate::revision::unit_outcome;
use vstd::prelude::*;
use vstd::utf8::encode_utf8;

verus! {

/// The key of the block that names the revision of the store with the given
/// identifier.
pub open spec fn pointer_of(identifier: Seq<char>) -> Seq<u8> {
    reference_of(encode_utf8(identifier))
}

/// The key of the block that names the revision of the store with the given
/// identifier.
pub fn make_pointer(identifier: &str) -> (pointer: Blake3Hash)
    ensures
        pointer@ == pointer_of(identifier@),
{
    make_reference(identifier.as_bytes())
}

/// How far the opening of a store has come.
#[derive(Debug)]
pub enum OpenPhase {
    /// Waits for the block that names the stored revision.
    Pointer,
    /// Waits for the stored revision.
    Target(Blake3Hash),
    /// Waits for the index with the given root, or the empty one.
    Index(Option<Blake3Hash>),
    /// Has come to its end.
    Finished(Result<(), DialogArtifactsError>),
}

/// The process that opens a store.
#[derive(Debug)]
pub struct Open {
    identifier: String,
    phase: OpenPhase,
}

/// How far the opening of a store has come.
pub enum OpenPhaseView {
    Pointer,
    Target(Seq<u8>),
    Index(Option<Seq<u8>>),
    Finished(Result<(), ErrorView>),
}

/// The opening of a store: its identifier, and how far the opening has come.
pub struct OpenView {
    pub identifier: Seq<char>,
    pub phase: OpenPhaseView,
}

impl View for OpenPhase {
    type V = OpenPhaseView;

    open spec fn view(&self) -> OpenPhaseView {
        match *self {
            OpenPhase::Pointer => OpenPhaseView::Pointer,
            OpenPhase::Target(target) => OpenPhaseView::Target(target@),
            OpenPhase::Index(root) => OpenPhaseView::Index(reference_view(root)),
            OpenPhase::Finished(outcome) => OpenPhaseView::Finished(unit_outcome(outcome)),
        }
    }
}

impl View for Open {
    type V = OpenView;

    closed spec fn view(&self) -> OpenView {
        OpenView { identifier: self.identifier@, phase: self.phase@ }
    }
}

impl OpenView {
    /// The opening with another phase.
    pub open spec fn at(self, phase: OpenPhaseView) -> OpenView {
        OpenView { phase, ..self }
    }

    /// The opening of the store with the given identifier, at its start.
    pub open spec fn start(identifier: Seq<char>) -> OpenView {
        OpenView { identifier, phase: OpenPhaseView::Pointer }
    }
}

impl Process for OpenView {
    open spec fn request(self) -> Option<RequestView> {
        match self.phase {
            OpenPhaseView::Pointer => Some(
                RequestView::GetBlock(pointer_of(self.identifier)),
            ),
            OpenPhaseView::Target(target) => Some(RequestView::ReadRevision(target)),
            OpenPhaseView::Index(root) => Some(RequestView::OpenIndex(root)),
            OpenPhaseView::Finished(_) => None,
        }
    }

    /// A store of which no revision is stored, or the null revision, or one that
    /// is not in the storage, starts out empty.
    open spec fn next(self, reply: ReplyView) -> Self {
        match (self.phase, reply) {
            (OpenPhaseView::Finished(_), _) => self,
            (_, ReplyView::Failed(error)) => self.at(OpenPhaseView::Finished(Err(error))),
            (OpenPhaseView::Pointer, ReplyView::Block(None)) => self.at(OpenPhaseView::Index(None)),
            (OpenPhaseView::Pointer, ReplyView::Block(Some(block))) => {
                if block == NULL_REVISION_HASH@ {
                    self.at(OpenPhaseView::Index(None))
                } else {
                    match revision_in_block(block) {
                        Ok(revision) => self.at(OpenPhaseView::Target(revision)),
                        Err(error) => self.at(OpenPhaseView::Finished(Err(error))),
                    }
                }
            },
            (OpenPhaseView::Target(_), ReplyView::Revision(root)) => self.at(
                OpenPhaseView::Index(root),
            ),
            (OpenPhaseView::Index(_), ReplyView::Done) => self.at(OpenPhaseView::Finished(Ok(()))),
            _ => self,
        }
    }
}

impl Open {
    /// The opening of the store with the given identifier, at its start.
    pub fn start(identifier: String) -> (open: Open)
        ensures
            open@ == OpenView::start(identifier@),
    {
        Open { identifier, phase: OpenPhase::Pointer }
    }

    /// The identifier of the store.
    pub fn identifier(&self) -> (identifier: &str)
        ensures
            identifier@ == self@.identifier,
    {
        self.identifier.as_str()
    }

    /// How far the opening has come.
    pub fn phase(&self) -> (phase: &OpenPhase)
        ensures
            phase@ == self@.phase,
    {
        &self.phase
    }

    /// The request that the process waits for an answer to; none at its end.
    pub fn request(&self) -> (request: Option<Request>)
        ensures
            match request {
                Some(request) => self@.request() == Some(request@),
                None => self@.request() is None,
            },
    {
        match &self.phase {
            OpenPhase::Pointer => Some(Request::GetBlock(make_pointer(self.identifier.as_str()))),
            OpenPhase::Target(target) => Some(Request::ReadRevision(*target)),
            OpenPhase::Index(root) => Some(Request::OpenIndex(*root)),
            OpenPhase::Finished(_) => None,
        }
    }

    /// The process after a reply.
    pub fn resume(self, reply: Reply) -> (next: Self)
        ensures
            next@ == self@.next(reply@),
    {
        let Open { identifier, phase } = self;
        let phase = match (phase, reply) {
            (OpenPhase::Finished(outcome), _) => OpenPhase::Finished(outcome),
            (_, Reply::Failed(error)) => OpenPhase::Finished(Err(error)),
            (OpenPhase::Pointer, Reply::Block(None)) => OpenPhase::Index(None),
            (OpenPhase::Pointer, Reply::Block(Some(block))) => {
                if same_bytes(block.as_slice(), NULL_REVISION_HASH.as_slice()) {
                    OpenPhase::Index(None)
                } else {
                    match read_revision_block(block.as_slice()) {
                        Ok(revision) => OpenPhase::Target(revision),
                        Err(error) => OpenPhase::Finished(Err(error)),
                    }
                }
            },
            (OpenPhase::Target(_), Reply::Revision(Some(revision))) => OpenPhase::Index(
                Some(*revision.index()),
            ),
            (OpenPhase::Target(_), Reply::Revision(None)) => OpenPhase::Index(None),
            (OpenPhase::Index(_), Reply::Done) => OpenPhase::Finished(Ok(())),
            (phase, _) => phase,
        };
        Open { identifier, phase }
    }
}

} // verus!
