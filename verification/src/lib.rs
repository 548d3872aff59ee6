//! Computation of Software Heritage identifiers (SWHIDs).
//!
//! A SWHID is a content-derived identifier for a source artifact: a file, a
//! directory tree, a revision, a release or a repository snapshot.  Each kind
//! of artifact has a canonical byte serialization (its manifest); the
//! identifier is a 160-bit digest of that manifest wrapped in a type-tagged,
//! length-prefixed envelope.  This crate builds the manifests, composes
//! directory trees bottom-up, and encodes and parses the textual
//! `swh:1:<type>:<hex>` form.

pub mod compose;
pub mod content;
pub mod directory;
pub mod encoding;
pub mod error;
pub mod git_objects;
pub mod hash;
pub mod person;
pub mod release;
pub mod revision;
pub mod snapshot;
pub mod strutil;
pub mod swhid;
pub mod timestamp;

pub use content::Content;
pub use directory::Directory;
pub use error::SwhidError;
pub use swhid::ObjectType;
pub use swhid::Swhid;
