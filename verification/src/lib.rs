//! Language-intelligence core for a whitespace-indented, sigil-prefixed
//! declarative tree syntax: an in-memory project index of components and
//! their properties, a cursor-context classifier, and a completion
//! candidate generator.
//!
//! A scan pass feeds every workspace file through [`files::ingest_file`],
//! which routes tree-syntax files to the declaration parser
//! ([`parse`]) and companion source files to the reference scanner
//! ([`refs`]), folding both into one [`index::ProjectData`] snapshot.
//! A completion request classifies the cursor position ([`context`]) and
//! asks the generator ([`complete`]) for ranked candidates.
//!
//! All text is handled as bytes; a document is a sequence of byte lines.

pub mod complete;
pub mod context;
pub mod files;
pub mod index;
pub mod parse;
pub mod refs;
pub mod text;
