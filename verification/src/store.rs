//! The store.
use crate::commit::{Commit, CommitView};
use crate::error::DialogArtifactsError;
use crate::import::{Import, ImportView};
use crate::open::{make_pointer, pointer_of, Open, OpenPhase, OpenPhaseView, OpenView};
use crate::protocol::reference_view;
use crate::reading::{Reading, ReadingView};
use crate::reference::Blake3Hash;
use crate::reset::{Reset, ResetView};
use crate::revision::{RevisionQuery, RevisionQueryView};
use crate::selector::ArtifactSelector;
use rand::Rng;
use std::sync::Arc;
use vstd::prelude::*;

verus! {

/// The length of the identifier of an anonymous store.
pub const ANONYMOUS_LENGTH: usize = 32;

/// Whether a character is an ASCII letter or digit.
pub open spec fn is_alphanumeric(c: char) -> bool {
    ('0' <= c && c <= '9') || ('A' <= c && c <= 'Z') || ('a' <= c && c <= 'z')
}

/// `Rng::sample` draws a byte from `Alphanumeric`: an ASCII letter or digit. Which
/// one is a matter of chance. The generator of the thread is seeded by the system
/// when it is first used, and panics where the system has no randomness to give.
#[verifier::external_body]
fn random_alphanumeric() -> (byte: u8)
    ensures
        is_alphanumeric(byte as char),
{
    rand::thread_rng().sample(rand::distributions::Alphanumeric)
}

/// The identifier that drawn bytes spell, a character for each.
pub fn identifier_of(drawn: &[u8; 32]) -> (identifier: String)
    ensures
        identifier@ == Seq::new(ANONYMOUS_LENGTH as nat, |i: int| drawn@[i] as char),
{
    let mut identifier = String::new();
    let mut i: usize = 0;
    while i < ANONYMOUS_LENGTH
        invariant
            i <= ANONYMOUS_LENGTH,
            identifier@ == Seq::new(i as nat, |j: int| drawn@[j] as char),
        decreases ANONYMOUS_LENGTH - i,
    {
        identifier.push(drawn[i] as char);
        i = i + 1;
        assert(identifier@ =~= Seq::new(i as nat, |j: int| drawn@[j] as char));
    }
    identifier
}

/// A random identifier: what letters and digits spell that are drawn one by one.
/// Which these are is a matter of chance.
pub fn random_identifier() -> (identifier: String)
    ensures
        identifier@.len() == ANONYMOUS_LENGTH,
        forall|i: int| 0 <= i < identifier@.len() ==> is_alphanumeric(#[trigger] identifier@[i]),
{
    let mut drawn: [u8; 32] = [0u8; 32];
    let mut i: usize = 0;
    while i < ANONYMOUS_LENGTH
        invariant
            i <= ANONYMOUS_LENGTH,
            forall|j: int| 0 <= j < i ==> is_alphanumeric((#[trigger] drawn@[j]) as char),
        decreases ANONYMOUS_LENGTH - i,
    {
        drawn[i] = random_alphanumeric();
        i = i + 1;
    }
    identifier_of(&drawn)
}

/// A store: the name that tells its data from that of other stores, and the index
/// that it works on. A clone of a store works on the same index.
pub struct Artifacts<Index> {
    identifier: String,
    index: Arc<Index>,
}

/// What a store is made of.
pub struct ArtifactsView<Index> {
    pub identifier: Seq<char>,
    pub index: Index,
}

impl<Index> View for Artifacts<Index> {
    type V = ArtifactsView<Index>;

    closed spec fn view(&self) -> ArtifactsView<Index> {
        ArtifactsView { identifier: self.identifier@, index: *self.index }
    }
}

impl<Index> Clone for Artifacts<Index> {
    fn clone(&self) -> (copy: Self)
        ensures
            copy@ == self@,
    {
        Artifacts { identifier: self.identifier.clone(), index: self.index.clone() }
    }
}

impl<Index> Artifacts<Index> {
    /// Starts to open the store with an identifier.
    pub fn open(identifier: String) -> (open: Open)
        ensures
            open@ == OpenView::start(identifier@),
    {
        Open::start(identifier)
    }

    /// Starts to open a store with a random identifier.
    pub fn anonymous() -> (open: Open)
        ensures
            open@ == OpenView::start(open@.identifier),
            open@.identifier.len() == ANONYMOUS_LENGTH,
            forall|i: int|
                0 <= i < open@.identifier.len() ==> is_alphanumeric(
                    #[trigger] open@.identifier[i],
                ),
    {
        Open::start(random_identifier())
    }

    /// The store, with the index that was made while it was opened. It is an error
    /// if the opening ended with one, and nothing if it has not ended.
    pub fn opened(open: Open, index: Index) -> (store: Option<Result<Self, DialogArtifactsError>>)
        ensures
            match open@.phase {
                OpenPhaseView::Finished(Ok(())) => store matches Some(Ok(store)) && store@ == (
                ArtifactsView { identifier: open@.identifier, index }),
                OpenPhaseView::Finished(Err(error)) => store matches Some(Err(e)) && e@ == error,
                _ => store is None,
            },
    {
        match open.phase() {
            OpenPhase::Finished(Ok(())) => Some(
                Ok(Artifacts { identifier: open.identifier().to_owned(), index: Arc::new(index) }),
            ),
            OpenPhase::Finished(Err(error)) => Some(Err(error.clone())),
            _ => None,
        }
    }

    /// The index.
    pub fn index(&self) -> (index: Arc<Index>)
        ensures
            *index == self@.index,
    {
        self.index.clone()
    }

    /// The name that tells the data of this store from that of others.
    pub fn identifier(&self) -> (identifier: &str)
        ensures
            identifier@ == self@.identifier,
    {
        self.identifier.as_str()
    }

    /// Starts to write all artifacts as rows.
    pub fn export(&self) -> (reading: Reading)
        ensures
            reading@ == ReadingView::of_all(true),
    {
        Reading::of_all(true)
    }

    /// Starts to hand out all artifacts.
    pub fn stream_all(&self) -> (reading: Reading)
        ensures
            reading@ == ReadingView::of_all(false),
    {
        Reading::of_all(false)
    }

    /// Starts to commit the artifacts of rows.
    pub fn import(&self) -> (import: Import)
        ensures
            import@ == ImportView::start(pointer_of(self@.identifier)),
    {
        Import::start(make_pointer(self.identifier()))
    }

    /// Starts to find out which revision the store is at.
    pub fn revision(&self) -> (query: RevisionQuery)
        ensures
            query@ == RevisionQueryView::Root,
    {
        RevisionQuery::Root
    }

    /// Starts to set the store back: to the revision, if one is given, else to the
    /// stored one, else to nothing.
    pub fn reset(&self, revision: Option<Blake3Hash>) -> (reset: Reset)
        ensures
            reset@ == ResetView::start(pointer_of(self@.identifier), reference_view(revision)),
    {
        Reset::start(make_pointer(self.identifier()), revision)
    }

    /// Starts to hand out what a selector asks for.
    pub fn select(&self, selector: ArtifactSelector) -> (reading: Reading)
        ensures
            reading@ == ReadingView::of_selector(selector@),
            selector@.valid(),
    {
        Reading::of_selector(selector)
    }

    /// Starts to commit instructions.
    pub fn commit(&self) -> (commit: Commit)
        ensures
            commit@ == CommitView::start(pointer_of(self@.identifier)),
    {
        Commit::start(make_pointer(self.identifier()))
    }
}

} // verus!
