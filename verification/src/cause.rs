//! How an artifact refers to the one that it supersedes.
use crate::artifact::{Artifact, ArtifactView, Cause};
use crate::key::{parts_of, KeyKind, Parts};
use crate::reference::{make_reference, reference_of};
use crate::value::{Value, ValueView};
use vstd::prelude::*;
use vstd::slice::slice_to_vec;

verus! {

/// The bytes that an artifact is referred to by: its key, and the reference of
/// its own cause, if it has one.
pub open spec fn cause_bytes(artifact: ArtifactView) -> Seq<u8> {
    parts_of(artifact).key(KeyKind::Entity) + match artifact.cause {
        Some(cause) => cause,
        None => Seq::empty(),
    }
}

/// The reference of an artifact.
pub open spec fn cause_of(artifact: ArtifactView) -> Seq<u8> {
    reference_of(cause_bytes(artifact))
}

impl ArtifactView {
    /// The artifact that supersedes this one with another value.
    pub open spec fn updated(self, value: ValueView) -> ArtifactView {
        ArtifactView { is: value, cause: Some(cause_of(self)), ..self }
    }
}

impl Cause {
    /// The reference of an artifact.
    pub fn of_artifact(artifact: &Artifact) -> (cause: Cause)
        ensures
            cause@ == cause_of(artifact@),
    {
        let key = Parts::of_artifact(artifact).key(KeyKind::Entity);
        let mut bytes = slice_to_vec(key.as_slice());
        if let Some(cause) = &artifact.cause {
            let mut more = slice_to_vec(cause.0.as_slice());
            bytes.append(&mut more);
        }
        assert(bytes@ =~= cause_bytes(artifact@));
        Cause(make_reference(bytes.as_slice()))
    }
}

impl Artifact {
    /// The artifact that supersedes this one with another value.
    pub fn update(self, value: Value) -> (artifact: Artifact)
        ensures
            artifact@ == self@.updated(value@),
    {
        let cause = Cause::of_artifact(&self);
        Artifact { the: self.the, of: self.of, is: value, cause: Some(cause) }
    }
}

} // verus!
