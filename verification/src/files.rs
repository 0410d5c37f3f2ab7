//! Source files as the pipeline sees them: an optional path and the raw
//! content.  Discovering files on disk is a collaborator's job; the library
//! works on already-loaded content.

use vstd::prelude::*;

verus! {

/// Mathematical model of a source file.
pub struct SqlFileModel {
    pub path: Option<Seq<char>>,
    pub content: Seq<char>,
}

/// One SQL source file: its path, when it came from disk, and its content.
#[derive(Debug)]
pub struct SqlFile {
    pub path: Option<String>,
    pub content: String,
}

/// The view of an optional path.
pub open spec fn path_view(p: Option<String>) -> Option<Seq<char>> {
    match p {
        Option::None => None,
        Option::Some(s) => Some(s@),
    }
}

impl View for SqlFile {
    type V = SqlFileModel;

    open spec fn view(&self) -> SqlFileModel {
        SqlFileModel { path: path_view(self.path), content: self.content@ }
    }
}

impl SqlFile {
    /// Builds a source file from an optional path and its content.
    pub fn new(path: Option<String>, content: String) -> (r: Self)
        ensures
            r@ == (SqlFileModel { path: path_view(path), content: content@ }),
    {
        Self { path, content }
    }

    /// The file's path, when known.
    pub fn path(&self) -> (r: &Option<String>)
        ensures
            path_view(*r) == self@.path,
    {
        &self.path
    }

    /// The file's content.
    pub fn content(&self) -> (r: &str)
        ensures
            r@ == self@.content,
    {
        self.content.as_str()
    }
}

/// The file models of a file vector.
pub open spec fn file_models(s: Seq<SqlFile>) -> Seq<SqlFileModel> {
    s.map_values(|f: SqlFile| f@)
}

/// A set of SQL source files, in discovery order.
#[derive(Debug)]
pub struct SqlFileSet {
    pub files: Vec<SqlFile>,
}

impl View for SqlFileSet {
    type V = Seq<SqlFileModel>;

    open spec fn view(&self) -> Seq<SqlFileModel> {
        file_models(self.files@)
    }
}

impl SqlFileSet {
    /// Builds a file set from its files, in discovery order.
    pub fn new(files: Vec<SqlFile>) -> (r: Self)
        ensures
            r@ == file_models(files@),
    {
        Self { files }
    }

    /// The files, in discovery order.
    pub fn files(&self) -> (r: &[SqlFile])
        ensures
            file_models(r@) == self@,
    {
        self.files.as_slice()
    }
}

} // verus!
