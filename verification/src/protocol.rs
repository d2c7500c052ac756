//! What the store asks of its surroundings, and what they answer.
//!
//! The store does not reach its storage and its index by itself. Each of its
//! operations is a process that puts one request at a time and goes on with the
//! reply.
use crate::artifact::{Artifact, ArtifactView, Instruction, InstructionView, State, StateView};
use crate::error::{DialogArtifactsError, ErrorView};
use crate::key::Key;
use crate::reference::Blake3Hash;
use crate::selector::{KeyRange, RangeView};
use vstd::prelude::*;

verus! {

/// A revision of the store: the root of its index.
#[derive(Clone, Copy, Debug, PartialEq, Eq)]
pub struct Revision {
    index: Blake3Hash,
}

impl View for Revision {
    type V = Seq<u8>;

    closed spec fn view(&self) -> Seq<u8> {
        self.index@
    }
}

impl Revision {
    /// The revision with the given root of the index.
    pub fn new(index: &Blake3Hash) -> (revision: Revision)
        ensures
            revision@ == index@,
    {
        Revision { index: *index }
    }

    /// The root of the index.
    pub fn index(&self) -> (index: &Blake3Hash)
        ensures
            index@ == self@,
    {
        &self.index
    }
}

/// What an optional reference holds.
pub open spec fn reference_view(reference: Option<Blake3Hash>) -> Option<Seq<u8>> {
    match reference {
        Some(reference) => Some(reference@),
        None => None,
    }
}

/// An entry of the index.
#[derive(Debug)]
pub struct Entry {
    pub key: Key,
    pub value: State,
}

/// What an entry holds.
pub struct EntryView {
    pub key: Seq<u8>,
    pub value: StateView,
}

impl View for Entry {
    type V = EntryView;

    open spec fn view(&self) -> EntryView {
        EntryView { key: self.key@, value: self.value@ }
    }
}

/// A request.
#[derive(Debug)]
pub enum Request {
    /// Read the block under a key.
    GetBlock(Blake3Hash),
    /// Put a block under a key.
    SetBlock(Blake3Hash, Vec<u8>),
    /// Read the revision with a reference.
    ReadRevision(Blake3Hash),
    /// Put a revision into the storage, under its reference.
    WriteRevision(Revision),
    /// Tell the reference of a revision.
    ReferToRevision(Revision),
    /// Make the index: with the root, or empty.
    OpenIndex(Option<Blake3Hash>),
    /// Set the index back to what it held at the root, or to nothing.
    SetRoot(Option<Blake3Hash>),
    /// Tell the root of the index, if it holds anything.
    GetRoot,
    /// Put a state under a key of the index.
    SetEntry(Key, State),
    /// Take a key out of the index.
    DeleteEntry(Key),
    /// Start to go through the entries of the index whose keys are in a range,
    /// in the order of their keys, as the index is now.
    Scan(KeyRange),
    /// Tell the next entry.
    NextEntry,
    /// Tell the next instruction.
    NextInstruction,
    /// Tell the next row of the file that is read.
    NextRow,
    /// Show a message.
    Report(String),
    /// Hand out an artifact.
    Yield(Artifact),
    /// Write an artifact as a row.
    WriteRow(Artifact),
}

/// A reply.
#[derive(Debug)]
pub enum Reply {
    /// It is done.
    Done,
    /// It failed.
    Failed(DialogArtifactsError),
    /// The row could not be written, for the reason given.
    RowFailed(String),
    /// The block, if there is one.
    Block(Option<Vec<u8>>),
    /// The revision, if there is one.
    Revision(Option<Revision>),
    /// The reference.
    Reference(Blake3Hash),
    /// The root, if the index holds anything.
    Root(Option<Blake3Hash>),
    /// The entry, if there is another.
    Entry(Option<Entry>),
    /// The instruction, if there is another.
    Instruction(Option<Instruction>),
    /// The row, if there is another: an artifact, or what is wrong with it.
    Row(Option<Result<Artifact, String>>),
}

/// What a request says.
pub enum RequestView {
    GetBlock(Seq<u8>),
    SetBlock(Seq<u8>, Seq<u8>),
    ReadRevision(Seq<u8>),
    WriteRevision(Seq<u8>),
    ReferToRevision(Seq<u8>),
    OpenIndex(Option<Seq<u8>>),
    SetRoot(Option<Seq<u8>>),
    GetRoot,
    SetEntry(Seq<u8>, StateView),
    DeleteEntry(Seq<u8>),
    Scan(RangeView),
    NextEntry,
    NextInstruction,
    NextRow,
    Report(Seq<char>),
    Yield(ArtifactView),
    WriteRow(ArtifactView),
}

/// How a process holds the index, against others that use it.
#[derive(Clone, Copy, Debug, PartialEq, Eq, Structural)]
pub enum Access {
    /// Not at all.
    Free,
    /// Others may read it too.
    Read,
    /// No one else may use it.
    Write,
}

impl Access {
    /// Whether nothing is missing where another access is needed.
    pub open spec fn covers(self, needed: Access) -> bool {
        self == Access::Write || needed == Access::Free || self == needed
    }
}

impl RequestView {
    /// How the index has to be held for the request.
    pub open spec fn access(self) -> Access {
        match self {
            RequestView::GetRoot | RequestView::Scan(_) | RequestView::NextEntry => Access::Read,
            RequestView::SetRoot(_) | RequestView::SetEntry(..) | RequestView::DeleteEntry(
                _,
            ) => Access::Write,
            _ => Access::Free,
        }
    }
}

/// What a row holds: an artifact, or what is wrong with it.
pub type RowView = Result<ArtifactView, Seq<char>>;

/// What a reply says.
pub enum ReplyView {
    Done,
    Failed(ErrorView),
    RowFailed(Seq<char>),
    Block(Option<Seq<u8>>),
    Revision(Option<Seq<u8>>),
    Reference(Seq<u8>),
    Root(Option<Seq<u8>>),
    Entry(Option<EntryView>),
    Instruction(Option<InstructionView>),
    Row(Option<RowView>),
}

impl View for Request {
    type V = RequestView;

    open spec fn view(&self) -> RequestView {
        match *self {
            Request::GetBlock(key) => RequestView::GetBlock(key@),
            Request::SetBlock(key, block) => RequestView::SetBlock(key@, block@),
            Request::ReadRevision(reference) => RequestView::ReadRevision(reference@),
            Request::WriteRevision(revision) => RequestView::WriteRevision(revision@),
            Request::ReferToRevision(revision) => RequestView::ReferToRevision(revision@),
            Request::OpenIndex(root) => RequestView::OpenIndex(reference_view(root)),
            Request::SetRoot(root) => RequestView::SetRoot(reference_view(root)),
            Request::GetRoot => RequestView::GetRoot,
            Request::SetEntry(key, state) => RequestView::SetEntry(key@, state@),
            Request::DeleteEntry(key) => RequestView::DeleteEntry(key@),
            Request::Scan(range) => RequestView::Scan(range@),
            Request::NextEntry => RequestView::NextEntry,
            Request::NextInstruction => RequestView::NextInstruction,
            Request::NextRow => RequestView::NextRow,
            Request::Report(message) => RequestView::Report(message@),
            Request::Yield(artifact) => RequestView::Yield(artifact@),
            Request::WriteRow(artifact) => RequestView::WriteRow(artifact@),
        }
    }
}

impl View for Reply {
    type V = ReplyView;

    open spec fn view(&self) -> ReplyView {
        match *self {
            Reply::Done => ReplyView::Done,
            Reply::Failed(error) => ReplyView::Failed(error@),
            Reply::RowFailed(message) => ReplyView::RowFailed(message@),
            Reply::Block(block) => ReplyView::Block(
                match block {
                    Some(block) => Some(block@),
                    None => None,
                },
            ),
            Reply::Revision(revision) => ReplyView::Revision(
                match revision {
                    Some(revision) => Some(revision@),
                    None => None,
                },
            ),
            Reply::Reference(reference) => ReplyView::Reference(reference@),
            Reply::Root(root) => ReplyView::Root(reference_view(root)),
            Reply::Entry(entry) => ReplyView::Entry(
                match entry {
                    Some(entry) => Some(entry@),
                    None => None,
                },
            ),
            Reply::Instruction(instruction) => ReplyView::Instruction(
                match instruction {
                    Some(instruction) => Some(instruction@),
                    None => None,
                },
            ),
            Reply::Row(row) => ReplyView::Row(
                match row {
                    Some(Ok(artifact)) => Some(Ok(artifact@)),
                    Some(Err(message)) => Some(Err(message@)),
                    None => None,
                },
            ),
        }
    }
}

/// A process: what it asks for next, if it has not come to its end, and how it
/// goes on with a reply.
pub trait Process: Sized {
    /// The request that the process waits for an answer to.
    spec fn request(self) -> Option<RequestView>;

    /// The process after a reply. One that does not answer the request leaves the
    /// process as it is.
    spec fn next(self, reply: ReplyView) -> Self;
}

} // verus!
