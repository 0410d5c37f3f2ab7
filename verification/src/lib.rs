//! Documentation extraction for SQL schema files: finds the comments in SQL
//! source text and attaches each one to the table or column it documents.

pub mod ast;
pub mod comments;
pub mod deny;
pub mod dialects;
pub mod docs;
pub mod engine;
pub mod extract;
pub mod files;
pub mod laws;
pub mod sql_doc;

use vstd::prelude::*;

verus! {

/// Why a build failed: the source description could not be resolved, a file
/// failed to parse, or the configuration itself was unusable.
#[derive(Debug, PartialEq, Eq)]
pub enum Error {
    /// The source files could not be discovered or read.
    Discovery(String),
    /// One file failed to parse; carries the file's path, when known, and the
    /// parser's message.
    Parse(Option<String>, String),
    /// The configuration was unusable.
    Configuration(String),
}

} // verus!
