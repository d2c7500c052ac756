//! What can go wrong.
use vstd::prelude::*;

verus! {

/// An error of the store.
#[derive(Debug, PartialEq, Eq)]
pub enum DialogArtifactsError {
    /// The revision that the store is told to use is not one.
    InvalidRevision(String),
    /// A row could not be written.
    Export(String),
    /// The block storage failed.
    Storage(String),
    /// The index failed.
    Index(String),
    /// The text is not the name of an attribute.
    InvalidAttribute(String),
    /// The text is not the name of an entity.
    InvalidEntity(String),
    /// The bytes do not encode a value of the data type.
    InvalidValue(u8),
}

/// What an error says.
pub enum ErrorView {
    InvalidRevision(Seq<char>),
    Export(Seq<char>),
    Storage(Seq<char>),
    Index(Seq<char>),
    InvalidAttribute(Seq<char>),
    InvalidEntity(Seq<char>),
    InvalidValue(u8),
}

impl View for DialogArtifactsError {
    type V = ErrorView;

    open spec fn view(&self) -> ErrorView {
        match *self {
            DialogArtifactsError::InvalidRevision(text) => ErrorView::InvalidRevision(text@),
            DialogArtifactsError::Export(text) => ErrorView::Export(text@),
            DialogArtifactsError::Storage(text) => ErrorView::Storage(text@),
            DialogArtifactsError::Index(text) => ErrorView::Index(text@),
            DialogArtifactsError::InvalidAttribute(text) => ErrorView::InvalidAttribute(text@),
            DialogArtifactsError::InvalidEntity(text) => ErrorView::InvalidEntity(text@),
            DialogArtifactsError::InvalidValue(data_type) => ErrorView::InvalidValue(data_type),
        }
    }
}

impl Clone for DialogArtifactsError {
    fn clone(&self) -> (copy: Self)
        ensures
            copy@ == self@,
    {
        match self {
            DialogArtifactsError::InvalidRevision(text) => DialogArtifactsError::InvalidRevision(
                text.clone(),
            ),
            DialogArtifactsError::Export(text) => DialogArtifactsError::Export(text.clone()),
            DialogArtifactsError::Storage(text) => DialogArtifactsError::Storage(text.clone()),
            DialogArtifactsError::Index(text) => DialogArtifactsError::Index(text.clone()),
            DialogArtifactsError::InvalidAttribute(text) => DialogArtifactsError::InvalidAttribute(
                text.clone(),
            ),
            DialogArtifactsError::InvalidEntity(text) => DialogArtifactsError::InvalidEntity(
                text.clone(),
            ),
            DialogArtifactsError::InvalidValue(data_type) => DialogArtifactsError::InvalidValue(
                *data_type,
            ),
        }
    }
}

} // verus!
