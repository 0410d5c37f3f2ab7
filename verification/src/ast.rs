//! Parsing SQL text into table declarations through the external parser.
//!
//! The parser is a collaborator: it turns text into statement nodes with
//! source spans, and this module reduces those nodes to the plain
//! declarations the attachment engine works on.  Every call into the parser
//! stands behind a trusted wrapper; everything after the calls is verified.

use vstd::prelude::*;

use sqlparser::ast::Spanned;

use crate::comments::{CommentSpan, Location};
use crate::dialects::{spec_sql_name, Dialects};
use crate::engine::{table_decl_models, ColumnDecl, TableDecl, TableDeclModel};
use crate::files::{path_view, SqlFile, SqlFileSet};
use crate::Error;

verus! {

#[verifier::external_type_specification]
#[verifier::external_body]
pub struct ExStatement(sqlparser::ast::Statement);

#[verifier::external_type_specification]
#[verifier::external_body]
pub struct ExSpan(sqlparser::tokenizer::Span);

/// The table declarations that parsing a text under the named dialect
/// yields, or nothing when the parse fails.  Parsing reads the dialect name
/// and the text alone — no time, randomness or environment — so its result
/// is a function of the two and can carry this name.
pub uninterp spec fn parsed_tables_of(dialect_name: Seq<char>, text: Seq<char>) -> Option<
    Seq<TableDeclModel>,
>;

/// Relies on sqlparser's `Parser::parse_sql` and `dialect_from_str`: parses
/// the text into statements under the dialect of the given name (every name
/// `Dialects::sql_name` produces is known to the parser; an unknown name
/// falls back to the generic dialect) and keeps each CREATE TABLE
/// statement's declarations, in statement order.  A failure carries the
/// parser's message, through `ParserError`'s `Display` impl.
#[verifier::external_body]
fn parse_sql_text(dialect_name: &str, text: &str) -> (r: Result<Vec<TableDecl>, String>)
    ensures
        r matches Ok(ts) ==> parsed_tables_of(dialect_name@, text@) == Some(
            table_decl_models(ts@),
        ),
        r matches Err(_) ==> parsed_tables_of(dialect_name@, text@) is None,
{
    let parsed = match sqlparser::dialect::dialect_from_str(dialect_name) {
        Some(d) => sqlparser::parser::Parser::parse_sql(&*d, text),
        None => sqlparser::parser::Parser::parse_sql(&sqlparser::dialect::GenericDialect {}, text),
    };
    match parsed {
        Ok(stmts) => Ok(stmts.iter().filter_map(create_table_decl).collect()),
        Err(e) => Err(format!("{e}")),
    }
}

/// Relies on sqlparser's `Span` and `Location`: copies the line and column
/// numbers, which count from 1 for parsed tokens.
#[verifier::external_body]
fn span_model(sp: sqlparser::tokenizer::Span) -> (r: CommentSpan) {
    CommentSpan::new(
        Location::new(sp.start.line, sp.start.column),
        Location::new(sp.end.line, sp.end.column),
    )
}

/// Relies on sqlparser's `CreateTable` node and its `Spanned` impl: a
/// CREATE TABLE statement hands over its name, its span, and its columns'
/// names and spans in declaration order; any other statement yields nothing.
/// Serves the body of `parse_sql_text`, whose contract covers the whole
/// parse.
#[verifier::external_body]
fn create_table_decl(stmt: &sqlparser::ast::Statement) -> (r: Option<TableDecl>) {
    match stmt {
        sqlparser::ast::Statement::CreateTable(ct) => {
            let columns = ct.columns.iter().map(
                |c| ColumnDecl { name: c.name.value.clone(), span: span_model(c.span()) },
            ).collect();
            Some(TableDecl { name: ct.name.to_string(), span: span_model(ct.span()), columns })
        },
        _ => None,
    }
}

/// Parses the table declarations out of one text under the dialect; a parse
/// failure becomes the parser's message.  Success and result are exactly the
/// named parse of the dialect's name and the content.
pub(crate) fn parse_tables(dialect: Dialects, content: &str) -> (r: Result<Vec<TableDecl>, String>)
    ensures
        r matches Ok(ts) ==> parsed_tables_of(spec_sql_name(dialect), content@) == Some(
            table_decl_models(ts@),
        ),
        r is Ok <==> parsed_tables_of(spec_sql_name(dialect), content@) is Some,
{
    parse_sql_text(dialect.sql_name(), content)
}

/// One source file together with the table declarations parsed from it.
#[derive(Debug)]
pub struct ParsedSqlFile {
    pub file: SqlFile,
    pub tables: Vec<TableDecl>,
}

impl ParsedSqlFile {
    /// Parses every table declaration from the file under the dialect: the
    /// tables are exactly the named parse of the dialect's name and the
    /// file's content, and the parse fails exactly when that parse does,
    /// with a `Parse` error carrying the file's path and the parser's
    /// message.
    pub fn parse(file: SqlFile, dialect: Dialects) -> (r: Result<Self, Error>)
        ensures
            r matches Ok(p) ==> p.file == file && parsed_tables_of(
                spec_sql_name(dialect),
                file.content@,
            ) == Some(table_decl_models(p.tables@)),
            r is Ok <==> parsed_tables_of(spec_sql_name(dialect), file.content@) is Some,
            r matches Err(e) ==> e matches Error::Parse(p, _) && path_view(p) == path_view(
                file.path,
            ),
    {
        match parse_tables(dialect, file.content.as_str()) {
            Result::Ok(tables) => Ok(ParsedSqlFile { file, tables }),
            Result::Err(msg) => {
                let path = match &file.path {
                    Option::Some(p) => Some(p.clone()),
                    Option::None => None,
                };
                Err(Error::Parse(path, msg))
            },
        }
    }

    /// The file's path, when known.
    pub fn path(&self) -> (r: &Option<String>)
        ensures
            r == self.file.path,
    {
        &self.file.path
    }

    /// The table declarations, in statement order.
    pub fn tables(&self) -> (r: &[TableDecl])
        ensures
            r@ == self.tables@,
    {
        self.tables.as_slice()
    }
}

/// Every file of a set, parsed; a single parse failure fails the whole set.
#[derive(Debug)]
pub struct ParsedSqlFileSet {
    pub files: Vec<ParsedSqlFile>,
}

impl ParsedSqlFileSet {
    /// Parses every file of the set under the dialect, keeping discovery
    /// order.  Every file's tables are its named parse; the set fails
    /// exactly when some file's parse does, with the first failing file in
    /// discovery order determining the error and its path.
    #[verifier::loop_isolation(false)]
    pub fn parse_all(set: SqlFileSet, dialect: Dialects) -> (r: Result<Self, Error>)
        ensures
            r matches Ok(s) ==> s.files@.len() == set.files@.len() && forall|i: int|
                0 <= i < s.files@.len() ==> (#[trigger] s.files@[i]).file == set.files@[i]
                    && parsed_tables_of(spec_sql_name(dialect), set.files@[i].content@) == Some(
                    table_decl_models(s.files@[i].tables@),
                ),
            r is Ok <==> (forall|i: int|
                0 <= i < set.files@.len() ==> parsed_tables_of(
                    spec_sql_name(dialect),
                    (#[trigger] set.files@[i]).content@,
                ) is Some),
            r matches Err(e) ==> exists|j: int|
                0 <= j < set.files@.len() && parsed_tables_of(
                    spec_sql_name(dialect),
                    (#[trigger] set.files@[j]).content@,
                ) is None && (forall|i: int|
                    0 <= i < j ==> parsed_tables_of(
                        spec_sql_name(dialect),
                        (#[trigger] set.files@[i]).content@,
                    ) is Some) && (e matches Error::Parse(p, _) && path_view(p) == path_view(
                    set.files@[j].path,
                )),
    {
        let ghost orig = set.files@;
        let ghost dname = spec_sql_name(dialect);
        proof {
            assert(orig == set.files@);
        }
        let mut rest = set.files;
        let mut done: Vec<ParsedSqlFile> = Vec::new();
        while rest.len() > 0
            invariant
                dname == spec_sql_name(dialect),
                orig == done@.map_values(|p: ParsedSqlFile| p.file) + rest@,
                forall|i: int|
                    0 <= i < done@.len() ==> parsed_tables_of(
                        dname,
                        (#[trigger] done@[i]).file.content@,
                    ) == Some(table_decl_models(done@[i].tables@)),
            decreases rest@.len(),
        {
            let ghost done_before = done@;
            let f = rest.remove(0);
            proof {
                assert(orig[done_before.len() as int] == f);
            }
            match ParsedSqlFile::parse(f, dialect) {
                Result::Ok(p) => {
                    done.push(p);
                    proof {
                        assert(done@.map_values(|p: ParsedSqlFile| p.file) =~= done_before
                            .map_values(|p: ParsedSqlFile| p.file).push(done@.last().file));
                    }
                },
                Result::Err(e) => {
                    proof {
                        let j = done_before.len() as int;
                        assert(parsed_tables_of(dname, orig[j].content@) is None);
                        assert forall|i: int| 0 <= i < j implies parsed_tables_of(
                            dname,
                            (#[trigger] orig[i]).content@,
                        ) is Some by {
                            assert(orig[i] == done_before[i].file);
                        }
                    }
                    return Err(e);
                },
            }
        }
        proof {
            assert(done@.map_values(|p: ParsedSqlFile| p.file) =~= orig);
            assert forall|i: int| 0 <= i < orig.len() implies (#[trigger] done@[i]).file
                == orig[i] by {}
        }
        Ok(ParsedSqlFileSet { files: done })
    }

    /// The parsed files, in discovery order.
    pub fn files(&self) -> (r: &[ParsedSqlFile])
        ensures
            r@ == self.files@,
    {
        self.files.as_slice()
    }
}

} // verus!
