//! Artifacts, and the form in which they are stored.
use crate::error::{DialogArtifactsError, ErrorView};
use crate::name::{fits, Attribute, Entity};
use crate::reference::Blake3Hash;
use crate::value::{lemma_value_of_its_bytes, value_of_bytes, Value, ValueView};
use vstd::prelude::*;

verus! {

/// The reference of an artifact that another one supersedes.
#[derive(Clone, Copy, Debug, PartialEq, Eq)]
pub struct Cause(pub Blake3Hash);

impl View for Cause {
    type V = Seq<u8>;

    open spec fn view(&self) -> Seq<u8> {
        self.0@
    }
}

/// The reference in an optional cause.
pub open spec fn cause_view(cause: Option<Cause>) -> Option<Seq<u8>> {
    match cause {
        Some(cause) => Some(cause@),
        None => None,
    }
}

/// A fact: the attribute `the` of the entity `of` is `is`; it supersedes the
/// artifact that `cause` refers to, if any.
#[derive(Debug, PartialEq, Eq)]
pub struct Artifact {
    pub the: Attribute,
    pub of: Entity,
    pub is: Value,
    pub cause: Option<Cause>,
}

/// What an artifact says.
pub struct ArtifactView {
    pub the: Seq<char>,
    pub of: Seq<char>,
    pub is: ValueView,
    pub cause: Option<Seq<u8>>,
}

impl ArtifactView {
    /// Whether the names fit and the cause is a reference: so it is of every
    /// artifact that can be made.
    pub open spec fn valid(self) -> bool {
        &&& fits(self.the)
        &&& fits(self.of)
        &&& self.cause matches Some(cause) ==> cause.len() == 32
    }

    /// The artifact in the form in which it is stored.
    pub open spec fn datum(self) -> DatumView {
        DatumView {
            attribute: self.the,
            entity: self.of,
            value_type: self.is.data_type(),
            value: self.is.bytes(),
            cause: self.cause,
        }
    }
}

impl View for Artifact {
    type V = ArtifactView;

    open spec fn view(&self) -> ArtifactView {
        ArtifactView {
            the: self.the@,
            of: self.of@,
            is: self.is@,
            cause: cause_view(self.cause),
        }
    }
}

impl Clone for Artifact {
    fn clone(&self) -> (copy: Self)
        ensures
            copy@ == self@,
    {
        Artifact {
            the: self.the.clone(),
            of: self.of.clone(),
            is: self.is.clone(),
            cause: self.cause,
        }
    }
}

/// An artifact in the form in which it is stored.
#[derive(Debug, PartialEq, Eq)]
pub struct Datum {
    pub attribute: String,
    pub entity: String,
    pub value_type: u8,
    pub value: Vec<u8>,
    pub cause: Option<Cause>,
}

/// What a datum says.
pub struct DatumView {
    pub attribute: Seq<char>,
    pub entity: Seq<char>,
    pub value_type: u8,
    pub value: Seq<u8>,
    pub cause: Option<Seq<u8>>,
}

impl DatumView {
    /// The artifact that is stored in this form, or why it is none.
    pub open spec fn artifact(self) -> Result<ArtifactView, ErrorView> {
        if !fits(self.attribute) {
            Err(ErrorView::InvalidAttribute(self.attribute))
        } else if !fits(self.entity) {
            Err(ErrorView::InvalidEntity(self.entity))
        } else {
            match value_of_bytes(self.value_type, self.value) {
                Some(value) => Ok(
                    ArtifactView {
                        the: self.attribute,
                        of: self.entity,
                        is: value,
                        cause: self.cause,
                    },
                ),
                None => Err(ErrorView::InvalidValue(self.value_type)),
            }
        }
    }
}

/// What is read back of an artifact's stored form is that artifact.
pub proof fn law_artifact_of_its_datum(artifact: ArtifactView)
    requires
        artifact.valid(),
    ensures
        artifact.datum().artifact() == Ok::<ArtifactView, ErrorView>(artifact),
{
    lemma_value_of_its_bytes(artifact.is);
}

impl View for Datum {
    type V = DatumView;

    open spec fn view(&self) -> DatumView {
        DatumView {
            attribute: self.attribute@,
            entity: self.entity@,
            value_type: self.value_type,
            value: self.value@,
            cause: cause_view(self.cause),
        }
    }
}

impl Clone for Datum {
    fn clone(&self) -> (copy: Self)
        ensures
            copy@ == self@,
    {
        let value = vstd::slice::slice_to_vec(self.value.as_slice());
        Datum {
            attribute: self.attribute.clone(),
            entity: self.entity.clone(),
            value_type: self.value_type,
            value,
            cause: self.cause,
        }
    }
}

impl Datum {
    /// The stored form of an artifact.
    pub fn of_artifact(artifact: &Artifact) -> (datum: Datum)
        ensures
            datum@ == artifact@.datum(),
    {
        Datum {
            attribute: artifact.the.as_str().to_owned(),
            entity: artifact.of.as_str().to_owned(),
            value_type: artifact.is.data_type(),
            value: artifact.is.to_bytes(),
            cause: artifact.cause,
        }
    }

    /// The artifact that is stored in this form, or why it is none.
    pub fn to_artifact(self) -> (artifact: Result<Artifact, DialogArtifactsError>)
        ensures
            match artifact {
                Ok(artifact) => self@.artifact() == Ok::<ArtifactView, ErrorView>(artifact@),
                Err(error) => self@.artifact() == Err::<ArtifactView, ErrorView>(error@),
            },
    {
        let the = match Attribute::parse(self.attribute.as_str()) {
            Ok(the) => the,
            Err(error) => return Err(error),
        };
        let of = match Entity::parse(self.entity.as_str()) {
            Ok(of) => of,
            Err(error) => return Err(error),
        };
        match Value::from_bytes(self.value_type, self.value) {
            Some(is) => Ok(Artifact { the, of, is, cause: self.cause }),
            None => Err(DialogArtifactsError::InvalidValue(self.value_type)),
        }
    }
}

/// What the index holds under a key: a stored artifact, or the mark that it was
/// retracted.
#[derive(Debug, PartialEq, Eq)]
pub enum State {
    Added(Datum),
    Removed,
}

/// What a state says.
pub enum StateView {
    Added(DatumView),
    Removed,
}

impl View for State {
    type V = StateView;

    open spec fn view(&self) -> StateView {
        match *self {
            State::Added(datum) => StateView::Added(datum@),
            State::Removed => StateView::Removed,
        }
    }
}

impl Clone for State {
    fn clone(&self) -> (copy: Self)
        ensures
            copy@ == self@,
    {
        match self {
            State::Added(datum) => State::Added(datum.clone()),
            State::Removed => State::Removed,
        }
    }
}

/// A change to the store.
#[derive(Debug, PartialEq, Eq)]
pub enum Instruction {
    /// Put an artifact into the store.
    Assert(Artifact),
    /// Mark an artifact as retracted.
    Retract(Artifact),
}

/// What an instruction says.
pub enum InstructionView {
    Assert(ArtifactView),
    Retract(ArtifactView),
}

impl InstructionView {
    /// The artifact that the instruction is about.
    pub open spec fn artifact(self) -> ArtifactView {
        match self {
            InstructionView::Assert(artifact) => artifact,
            InstructionView::Retract(artifact) => artifact,
        }
    }
}

impl View for Instruction {
    type V = InstructionView;

    open spec fn view(&self) -> InstructionView {
        match *self {
            Instruction::Assert(artifact) => InstructionView::Assert(artifact@),
            Instruction::Retract(artifact) => InstructionView::Retract(artifact@),
        }
    }
}

} // verus!
