//! A store of artifacts: facts of the form "the attribute `the` of the entity
//! `of` is `is`".
//!
//! The operations of the store are processes. Each puts one request at a time to
//! its surroundings, the block storage and the index, and goes on with the reply
//! (`protocol`). What the processes do to the surroundings as a whole is stated and
//! proved under `laws`.
#![allow(unused_imports)]

pub mod artifact;
pub mod cause;
pub mod commit;
pub mod error;
pub mod import;
pub mod index;
pub mod key;
pub mod laws;
pub mod name;
pub mod open;
pub mod protocol;
pub mod reading;
pub mod record;
pub mod reference;
pub mod reset;
pub mod revision;
pub mod selector;
pub mod store;
pub mod text;
pub mod value;
pub mod world;

pub use artifact::{Artifact, Cause, Datum, Instruction, State};
pub use error::DialogArtifactsError;
pub use key::{Key, KeyKind};
pub use name::{Attribute, Entity};
pub use protocol::{Entry, Reply, Request, Revision};
pub use reference::{make_reference, Blake3Hash, HASH_SIZE, NULL_REVISION_HASH};
pub use selector::ArtifactSelector;
pub use store::Artifacts;
pub use value::Value;
