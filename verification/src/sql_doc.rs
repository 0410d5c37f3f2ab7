//! The top-level builder: accumulates deny patterns, a dialect, a collection
//! strategy and a multiline strategy, and builds the documentation of every
//! surviving source file into one `SqlDoc`.
//!
//! Denied files are filtered out before parsing and contribute nothing; a
//! parse failure of any surviving file aborts the build.  Each setter fully
//! replaces its field, so the last call on each axis wins.

use vstd::prelude::*;

use crate::ast::parsed_tables_of;
use crate::comments::Comments;
use crate::deny::{denied_file, is_denied};
use crate::dialects::{spec_sql_name, Dialects};
use crate::docs::{table_doc_models, TableDoc, TableDocModel};
use crate::engine::{
    attach_comments, attach_file, table_decl_models, CollectionStrategy, MultilineModel,
    MultilineStrategy, TableDeclModel,
};
use crate::extract::{comments_in, extract_comments};
use crate::files::{file_models, path_view, SqlFile, SqlFileModel};
use crate::Error;

verus! {

/// Where the SQL text comes from: in-memory text, one file on disk, or a
/// directory to discover files in.  Reading disk sources is a collaborator's
/// job; `build` handles in-memory text itself.
#[derive(Debug)]
pub enum Source {
    /// SQL text handed in directly, with no path.
    Text(String),
    /// The path of one SQL file.
    File(String),
    /// The root of a directory tree of SQL files.
    Dir(String),
}

/// Whether the named parse of a file's content succeeds under the dialect
/// of the given name.
pub open spec fn file_parses(dialect_name: Seq<char>, f: SqlFileModel) -> bool {
    parsed_tables_of(dialect_name, f.content) is Some
}

/// The documentation one surviving file contributes: the attachment of the
/// file's extracted comments to its parsed table declarations, under the
/// given strategies.
pub open spec fn file_doc_tables(
    dialect_name: Seq<char>,
    strat: CollectionStrategy,
    multi: MultilineModel,
    f: SqlFileModel,
) -> Seq<TableDocModel> {
    attach_file(parsed_tables_of(dialect_name, f.content)->0, comments_in(f.content), strat, multi)
}

/// The tables a successful build yields, file by file in discovery order:
/// nothing for a denied file, the file's attached documentation otherwise.
pub open spec fn built_tables(
    pats: Seq<Seq<char>>,
    dialect_name: Seq<char>,
    strat: CollectionStrategy,
    multi: MultilineModel,
    files: Seq<SqlFileModel>,
) -> Seq<TableDocModel>
    decreases files.len(),
{
    if files.len() == 0 {
        Seq::empty()
    } else {
        built_tables(pats, dialect_name, strat, multi, files.drop_last()) + (if denied_file(
            pats,
            files.last(),
        ) {
            Seq::empty()
        } else {
            file_doc_tables(dialect_name, strat, multi, files.last())
        })
    }
}

/// Whether every file either is denied or parses: exactly the builds that
/// succeed.
pub open spec fn all_parse(
    pats: Seq<Seq<char>>,
    dialect_name: Seq<char>,
    files: Seq<SqlFileModel>,
) -> bool {
    forall|i: int|
        0 <= i < files.len() ==> denied_file(pats, #[trigger] files[i]) || file_parses(
            dialect_name,
            files[i],
        )
}

/// The first surviving file whose parse fails: the file whose identity a
/// failed build's parse error carries (first-error-wins).
pub open spec fn first_failure(
    pats: Seq<Seq<char>>,
    dialect_name: Seq<char>,
    files: Seq<SqlFileModel>,
    j: int,
) -> bool {
    &&& 0 <= j < files.len()
    &&& !denied_file(pats, files[j])
    &&& !file_parses(dialect_name, files[j])
    &&& (forall|i: int|
        0 <= i < j ==> denied_file(pats, #[trigger] files[i]) || file_parses(
            dialect_name,
            files[i],
        ))
}

/// Whether every content is small enough to index; true of any text that
/// exists in memory.
pub open spec fn small_files(files: Seq<SqlFileModel>) -> bool {
    forall|i: int| 0 <= i < files.len() ==> (#[trigger] files[i]).content.len() < usize::MAX
}

/// Builds the documentation of every file that survives the deny filter, in
/// file order.
fn build_docs(
    deny: &Vec<String>,
    collection: CollectionStrategy,
    multiline: &MultilineStrategy,
    dialect: Dialects,
    files: &Vec<SqlFile>,
) -> (r: Result<SqlDoc, Error>)
    ensures
        r is Ok <==> all_parse(deny.deep_view(), spec_sql_name(dialect), file_models(files@)),
        r matches Ok(doc) ==> (small_files(file_models(files@)) ==> table_doc_models(doc.tables@)
            == built_tables(
            deny.deep_view(),
            spec_sql_name(dialect),
            collection,
            multiline@,
            file_models(files@),
        )),
        r matches Err(e) ==> exists|j: int|
            first_failure(deny.deep_view(), spec_sql_name(dialect), file_models(files@), j) && (
            e matches Error::Parse(p, _) && path_view(p) == file_models(files@)[j].path),
{
    let ghost pats = deny.deep_view();
    let ghost dname = spec_sql_name(dialect);
    let ghost fms = file_models(files@);
    let mut tables: Vec<TableDoc> = Vec::new();
    let mut k: usize = 0;
    proof {
        assert(fms.take(0) =~= Seq::<SqlFileModel>::empty());
        assert(table_doc_models(tables@) =~= built_tables(pats, dname, collection, multiline@,
        fms.take(0)));
    }
    while k < files.len()
        invariant
            k <= files@.len(),
            pats == deny.deep_view(),
            dname == spec_sql_name(dialect),
            fms == file_models(files@),
            forall|i: int|
                0 <= i < k ==> denied_file(pats, #[trigger] fms[i]) || file_parses(dname, fms[i]),
            small_files(fms.take(k as int)) ==> table_doc_models(tables@) == built_tables(
                pats,
                dname,
                collection,
                multiline@,
                fms.take(k as int),
            ),
        decreases files@.len() - k,
    {
        let f = &files[k];
        proof {
            assert(fms[k as int] == f@);
            assert(fms.take(k as int + 1).drop_last() =~= fms.take(k as int));
            assert(fms.take(k as int + 1).last() == fms[k as int]);
        }
        if is_denied(deny, &f.path, f.content.as_str()) {
            proof {
                if small_files(fms.take(k as int + 1)) {
                    assert(small_files(fms.take(k as int)));
                }
            }
        } else {
            match crate::ast::parse_tables(dialect, f.content.as_str()) {
                Result::Err(msg) => {
                    let path = match &f.path {
                        Option::Some(p) => Some(p.clone()),
                        Option::None => None,
                    };
                    proof {
                        assert(first_failure(pats, dname, fms, k as int));
                    }
                    return Err(Error::Parse(path, msg));
                },
                Result::Ok(decls) => {
                    let comments: Comments = extract_comments(f.content.as_str());
                    let mut docs = attach_comments(&decls, &comments, collection, multiline);
                    let ghost docs_models = table_doc_models(docs@);
                    let ghost tables_before = tables@;
                    tables.append(&mut docs);
                    proof {
                        assert(table_doc_models(tables@) =~= table_doc_models(tables_before)
                            + docs_models);
                        if small_files(fms.take(k as int + 1)) {
                            assert(small_files(fms.take(k as int)));
                            assert(fms[k as int].content.len() < usize::MAX) by {
                                assert(fms.take(k as int + 1)[k as int] == fms[k as int]);
                            }
                            assert(comments@ == comments_in(fms[k as int].content));
                            assert(parsed_tables_of(dname, fms[k as int].content)->0
                                == table_decl_models(decls@));
                            assert(docs_models == file_doc_tables(dname, collection, multiline@,
                            fms[k as int]));
                            assert(table_doc_models(tables@) =~= built_tables(
                                pats,
                                dname,
                                collection,
                                multiline@,
                                fms.take(k as int + 1),
                            ));
                        }
                    }
                },
            }
        }
        k = k + 1;
    }
    let doc = SqlDoc { tables };
    proof {
        assert(fms.take(fms.len() as int) =~= fms);
    }
    Ok(doc)
}

/// The documentation of every table of every surviving file, in file order
/// and then declaration order.  Built once; immutable afterwards.
#[derive(Debug, PartialEq, Eq)]
pub struct SqlDoc {
    pub tables: Vec<TableDoc>,
}

impl SqlDoc {
    /// The tables' documentation.
    pub fn tables(&self) -> (r: &[TableDoc])
        ensures
            r@ == self.tables@,
    {
        self.tables.as_slice()
    }

    /// Starts a build from SQL text held in memory; the text has no path.
    pub fn from_str(text: &str) -> (b: SqlDocBuilder)
        ensures
            b.source matches Source::Text(t) && t@ == text@,
            builder_defaults(b),
    {
        base_builder(Source::Text(text.to_owned()))
    }

    /// Starts a build from one SQL file's path; `build` leaves reading the
    /// file to the caller and reports a discovery error.
    pub fn from_path(path: &str) -> (b: SqlDocBuilder)
        ensures
            b.source matches Source::File(p) && p@ == path@,
            builder_defaults(b),
    {
        base_builder(Source::File(path.to_owned()))
    }

    /// Starts a build from a directory of SQL files; `build` leaves the
    /// discovery to the caller and reports a discovery error.
    pub fn from_dir(root: &str) -> (b: SqlDocBuilder)
        ensures
            b.source matches Source::Dir(p) && p@ == root@,
            builder_defaults(b),
    {
        base_builder(Source::Dir(root.to_owned()))
    }
}

/// The configuration a fresh builder starts from: no deny patterns, the
/// default dialect, the strategy that merges runs of single-line comments,
/// and flattening with a newline separator.
pub open spec fn builder_defaults(b: SqlDocBuilder) -> bool {
    &&& b.deny@.len() == 0
    &&& b.dialect == Dialects::PostgreSql
    &&& b.collection == CollectionStrategy::AllSingleOneMulti
    &&& b.multiline@ matches MultilineModel::Flatten(sep) && sep == "\n"@
}

/// Builds a fresh builder around a source.
fn base_builder(source: Source) -> (b: SqlDocBuilder)
    ensures
        b.source == source,
        builder_defaults(b),
{
    SqlDocBuilder {
        source,
        deny: Vec::new(),
        dialect: Dialects::PostgreSql,
        collection: CollectionStrategy::AllSingleOneMulti,
        multiline: MultilineStrategy::Flatten("\n".to_owned()),
    }
}

/// Accumulates the build configuration.  Every setter fully replaces its
/// field, so of two calls on the same axis the last one wins.
#[derive(Debug)]
pub struct SqlDocBuilder {
    pub source: Source,
    pub deny: Vec<String>,
    pub dialect: Dialects,
    pub collection: CollectionStrategy,
    pub multiline: MultilineStrategy,
}

impl SqlDocBuilder {
    /// Adds one deny pattern: a file whose path or content holds the pattern
    /// as a literal substring is excluded from the build.
    pub fn deny(self, pattern: &str) -> (r: Self)
        ensures
            r.deny.deep_view() == self.deny.deep_view().push(pattern@),
            r.source == self.source,
            r.dialect == self.dialect,
            r.collection == self.collection,
            r.multiline == self.multiline,
    {
        let mut deny = self.deny;
        let ghost before = deny.deep_view();
        deny.push(pattern.to_owned());
        proof {
            assert(deny.deep_view() =~= before.push(pattern@));
        }
        SqlDocBuilder {
            source: self.source,
            deny,
            dialect: self.dialect,
            collection: self.collection,
            multiline: self.multiline,
        }
    }

    /// Selects the dialect the files are parsed under.
    pub fn dialect(self, dialect: Dialects) -> (r: Self)
        ensures
            r == (SqlDocBuilder { dialect, ..self }),
    {
        SqlDocBuilder { dialect, ..self }
    }

    /// Collects only the comment immediately leading each element.
    pub fn collect_single_nearest(self) -> (r: Self)
        ensures
            r == (SqlDocBuilder { collection: CollectionStrategy::SingleNearest, ..self }),
    {
        SqlDocBuilder { collection: CollectionStrategy::SingleNearest, ..self }
    }

    /// Collects the full contiguous block of leading comments.
    pub fn collect_all_leading(self) -> (r: Self)
        ensures
            r == (SqlDocBuilder { collection: CollectionStrategy::AllLeading, ..self }),
    {
        SqlDocBuilder { collection: CollectionStrategy::AllLeading, ..self }
    }

    /// Collects a run of single-line comments, but a comment spanning several
    /// lines alone.
    pub fn collect_all_single_one_multi(self) -> (r: Self)
        ensures
            r == (SqlDocBuilder { collection: CollectionStrategy::AllSingleOneMulti, ..self }),
    {
        SqlDocBuilder { collection: CollectionStrategy::AllSingleOneMulti, ..self }
    }

    /// Flattens each selected block into one string, with a newline between
    /// fragments.
    pub fn flatten_multiline(self) -> (r: Self)
        ensures
            r.multiline@ matches MultilineModel::Flatten(sep) && sep == "\n"@,
            r.source == self.source,
            r.deny == self.deny,
            r.dialect == self.dialect,
            r.collection == self.collection,
    {
        SqlDocBuilder { multiline: MultilineStrategy::Flatten("\n".to_owned()), ..self }
    }

    /// Flattens each selected block into one string, with the given
    /// separator between fragments; an empty separator makes them abut.
    pub fn flatten_multiline_with(self, separator: &str) -> (r: Self)
        ensures
            r.multiline@ matches MultilineModel::Flatten(sep) && sep == separator@,
            r.source == self.source,
            r.deny == self.deny,
            r.dialect == self.dialect,
            r.collection == self.collection,
    {
        SqlDocBuilder { multiline: MultilineStrategy::Flatten(separator.to_owned()), ..self }
    }

    /// Keeps each selected block as an ordered sequence of fragments.
    pub fn preserve_multiline(self) -> (r: Self)
        ensures
            r == (SqlDocBuilder { multiline: MultilineStrategy::Preserve, ..self }),
    {
        SqlDocBuilder { multiline: MultilineStrategy::Preserve, ..self }
    }

    /// Builds the documentation.  In-memory text is filtered, parsed and
    /// attached in place; a file or directory source needs filesystem
    /// discovery, which the library leaves to its caller, so `build` reports
    /// it as a discovery error — resolve such a source to contents and use
    /// `build_with_sources`.
    pub fn build(self) -> (r: Result<SqlDoc, Error>)
        ensures
            self.source matches Source::Text(t) ==> {
                let fms = seq![SqlFileModel { path: None, content: t@ }];
                let pats = self.deny.deep_view();
                let dname = spec_sql_name(self.dialect);
                &&& (r is Ok <==> all_parse(pats, dname, fms))
                &&& (r matches Ok(doc) ==> (small_files(fms) ==> table_doc_models(doc.tables@)
                    == built_tables(pats, dname, self.collection, self.multiline@, fms)))
                &&& (r matches Err(e) ==> exists|j: int|
                    first_failure(pats, dname, fms, j) && (e matches Error::Parse(p, _)
                        && path_view(p) == fms[j].path))
            },
            !(self.source matches Source::Text(_)) ==> (r matches Err(e) && e matches
                Error::Discovery(_)),
    {
        let SqlDocBuilder { source, deny, dialect, collection, multiline } = self;
        match source {
            Source::Text(t) => {
                let mut files: Vec<SqlFile> = Vec::new();
                files.push(SqlFile { path: None, content: t });
                proof {
                    assert(file_models(files@) =~= seq![
                        SqlFileModel { path: None, content: self.source->Text_0@ },
                    ]);
                }
                build_docs(&deny, collection, &multiline, dialect, &files)
            },
            Source::File(_) => Err(
                Error::Discovery("file sources need filesystem discovery".to_owned()),
            ),
            Source::Dir(_) => Err(
                Error::Discovery("directory sources need filesystem discovery".to_owned()),
            ),
        }
    }

    /// Builds the documentation from already-loaded source files, standing in
    /// for the builder's source; the deny filter and the strategies apply as
    /// in `build`.
    pub fn build_with_sources(self, files: &Vec<SqlFile>) -> (r: Result<SqlDoc, Error>)
        ensures
            r is Ok <==> all_parse(
                self.deny.deep_view(),
                spec_sql_name(self.dialect),
                file_models(files@),
            ),
            r matches Ok(doc) ==> (small_files(file_models(files@)) ==> table_doc_models(
                doc.tables@,
            ) == built_tables(
                self.deny.deep_view(),
                spec_sql_name(self.dialect),
                self.collection,
                self.multiline@,
                file_models(files@),
            )),
            r matches Err(e) ==> exists|j: int|
                first_failure(
                    self.deny.deep_view(),
                    spec_sql_name(self.dialect),
                    file_models(files@),
                    j,
                ) && (e matches Error::Parse(p, _) && path_view(p) == file_models(files@)[j].path),
    {
        let SqlDocBuilder { source: _, deny, dialect, collection, multiline } = self;
        build_docs(&deny, collection, &multiline, dialect, files)
    }
}

/// A build whose sources are all denied succeeds and yields no tables at
/// all: denied files never reach parsing and contribute nothing.
pub proof fn lemma_all_denied_yields_empty(
    pats: Seq<Seq<char>>,
    dialect_name: Seq<char>,
    strat: CollectionStrategy,
    multi: MultilineModel,
    files: Seq<SqlFileModel>,
)
    requires
        forall|i: int| 0 <= i < files.len() ==> denied_file(pats, #[trigger] files[i]),
    ensures
        all_parse(pats, dialect_name, files),
        built_tables(pats, dialect_name, strat, multi, files) =~= Seq::<TableDocModel>::empty(),
    decreases files.len(),
{
    if files.len() > 0 {
        assert(denied_file(pats, files.last()));
        lemma_all_denied_yields_empty(pats, dialect_name, strat, multi, files.drop_last());
    }
}

} // verus!
