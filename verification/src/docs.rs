//! The documentation model: per-table and per-column documentation produced
//! by the attachment engine, and the result of one whole build.

use vstd::prelude::*;

verus! {

/// Mathematical model of an attachment result.
pub enum AttachmentModel {
    /// No qualifying comment was found.
    Absent,
    /// The selected comments, flattened into one string.
    Single(Seq<char>),
    /// The selected comments as separate fragments, oldest first.
    Fragments(Seq<Seq<char>>),
}

/// The documentation attached to one schema element: absent, one flattened
/// string, or the fragments of a preserved multi-line block, oldest first.
#[derive(Debug, PartialEq, Eq)]
pub enum AttachmentResult {
    /// No qualifying comment was found.
    Absent,
    /// The selected comments, flattened into one string.
    Single(String),
    /// The selected comments as separate fragments, oldest first.
    Fragments(Vec<String>),
}

impl View for AttachmentResult {
    type V = AttachmentModel;

    open spec fn view(&self) -> AttachmentModel {
        match self {
            AttachmentResult::Absent => AttachmentModel::Absent,
            AttachmentResult::Single(s) => AttachmentModel::Single(s@),
            AttachmentResult::Fragments(v) => AttachmentModel::Fragments(
                v@.map_values(|s: String| s@),
            ),
        }
    }
}

impl AttachmentResult {
    /// Whether any documentation was attached.
    pub fn is_present(&self) -> (r: bool)
        ensures
            r == !(self@ is Absent),
    {
        !matches!(self, AttachmentResult::Absent)
    }
}

/// Mathematical model of a column's documentation.
pub struct ColumnDocModel {
    pub name: Seq<char>,
    pub doc: AttachmentModel,
}

/// Mathematical model of a table's documentation.
pub struct TableDocModel {
    pub name: Seq<char>,
    pub doc: AttachmentModel,
    pub columns: Seq<ColumnDocModel>,
}

/// The documentation of one column: its name and its attached comment, if
/// any.
#[derive(Debug, PartialEq, Eq)]
pub struct ColumnDoc {
    pub name: String,
    pub doc: AttachmentResult,
}

impl View for ColumnDoc {
    type V = ColumnDocModel;

    open spec fn view(&self) -> ColumnDocModel {
        ColumnDocModel { name: self.name@, doc: self.doc@ }
    }
}

impl ColumnDoc {
    /// The column's name.
    pub fn name(&self) -> (r: &str)
        ensures
            r@ == self@.name,
    {
        self.name.as_str()
    }

    /// The column's documentation.
    pub fn doc(&self) -> (r: &AttachmentResult)
        ensures
            r@ == self@.doc,
    {
        &self.doc
    }
}

/// The documentation of one table: its name, its attached comment, if any,
/// and its columns' documentation in declaration order.
#[derive(Debug, PartialEq, Eq)]
pub struct TableDoc {
    pub name: String,
    pub doc: AttachmentResult,
    pub columns: Vec<ColumnDoc>,
}

/// The column-doc models of a column-doc vector.
pub open spec fn column_doc_models(s: Seq<ColumnDoc>) -> Seq<ColumnDocModel> {
    s.map_values(|c: ColumnDoc| c@)
}

impl View for TableDoc {
    type V = TableDocModel;

    open spec fn view(&self) -> TableDocModel {
        TableDocModel {
            name: self.name@,
            doc: self.doc@,
            columns: column_doc_models(self.columns@),
        }
    }
}

impl TableDoc {
    /// The table's name.
    pub fn name(&self) -> (r: &str)
        ensures
            r@ == self@.name,
    {
        self.name.as_str()
    }

    /// The table's documentation.
    pub fn doc(&self) -> (r: &AttachmentResult)
        ensures
            r@ == self@.doc,
    {
        &self.doc
    }

    /// The columns' documentation, in declaration order.
    pub fn columns(&self) -> (r: &[ColumnDoc])
        ensures
            column_doc_models(r@) == self@.columns,
    {
        self.columns.as_slice()
    }
}

/// The table-doc models of a table-doc vector.
pub open spec fn table_doc_models(s: Seq<TableDoc>) -> Seq<TableDocModel> {
    s.map_values(|t: TableDoc| t@)
}

/// The documentation extracted from one SQL file: one `TableDoc` per table,
/// in declaration order.
#[derive(Debug, PartialEq, Eq)]
pub struct SqlDocs {
    pub tables: Vec<TableDoc>,
}

impl View for SqlDocs {
    type V = Seq<TableDocModel>;

    open spec fn view(&self) -> Seq<TableDocModel> {
        table_doc_models(self.tables@)
    }
}

impl SqlDocs {
    /// Builds a `SqlDocs` from its tables.
    pub fn new(tables: Vec<TableDoc>) -> (r: Self)
        ensures
            r@ == table_doc_models(tables@),
    {
        Self { tables }
    }

    /// The tables' documentation, in declaration order.
    pub fn tables(&self) -> (r: &[TableDoc])
        ensures
            table_doc_models(r@) == self@,
    {
        self.tables.as_slice()
    }

    /// Builds the documentation for one parsed file by attaching its leading
    /// and trailing comments to its tables and columns under the given
    /// strategies.
    pub fn from_parsed_file(
        file: &crate::ast::ParsedSqlFile,
        comments: &crate::comments::Comments,
        strat: crate::engine::CollectionStrategy,
        multi: &crate::engine::MultilineStrategy,
    ) -> (r: Self)
        ensures
            r@ == crate::engine::attach_file(
                crate::engine::table_decl_models(file.tables@),
                comments@,
                strat,
                multi@,
            ),
    {
        Self { tables: crate::engine::attach_comments(&file.tables, comments, strat, multi) }
    }
}

} // verus!
