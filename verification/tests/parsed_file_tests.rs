//! The per-file parsing surface and the per-file documentation model.

use sql_docs::ast::{ParsedSqlFile, ParsedSqlFileSet};
use sql_docs::dialects::Dialects;
use sql_docs::docs::{AttachmentResult, SqlDocs};
use sql_docs::engine::{CollectionStrategy, MultilineStrategy};
use sql_docs::extract::extract_comments;
use sql_docs::files::{SqlFile, SqlFileSet};
use sql_docs::Error;

const USERS_SQL: &str = "-- users table\nCREATE TABLE users (\n  id INT,    -- primary key\n  name TEXT\n);\n";

#[test]
fn a_parsed_file_exposes_its_tables() {
    let file = SqlFile::new(Some(String::from("users.sql")), String::from(USERS_SQL));
    let parsed = ParsedSqlFile::parse(file, Dialects::default()).unwrap();
    assert_eq!(parsed.path(), &Some(String::from("users.sql")));
    assert_eq!(parsed.tables().len(), 1);
    assert_eq!(parsed.tables()[0].name, "users");
    assert_eq!(parsed.tables()[0].columns.len(), 2);
    assert_eq!(parsed.tables()[0].columns[0].name, "id");
    assert_eq!(parsed.tables()[0].span.start.line, 2);
    assert_eq!(parsed.tables()[0].columns[0].span.start.line, 3);
}

#[test]
fn from_parsed_file_attaches_the_comments() {
    let file = SqlFile::new(None, String::from(USERS_SQL));
    let parsed = ParsedSqlFile::parse(file, Dialects::default()).unwrap();
    let comments = extract_comments(USERS_SQL);
    let docs = SqlDocs::from_parsed_file(
        &parsed,
        &comments,
        CollectionStrategy::AllSingleOneMulti,
        &MultilineStrategy::Flatten(String::from("\n")),
    );
    let tables = docs.tables();
    assert_eq!(tables.len(), 1);
    assert_eq!(
        tables[0].doc(),
        &AttachmentResult::Single(String::from("users table"))
    );
    assert_eq!(
        tables[0].columns()[0].doc(),
        &AttachmentResult::Single(String::from("primary key"))
    );
}

#[test]
fn parse_failure_carries_the_file_path() {
    let file = SqlFile::new(Some(String::from("broken.sql")), String::from("CREATE TABLE"));
    match ParsedSqlFile::parse(file, Dialects::default()) {
        Err(Error::Parse(path, _)) => assert_eq!(path, Some(String::from("broken.sql"))),
        other => panic!("expected a parse error, got {other:?}"),
    }
}

#[test]
fn parse_all_keeps_discovery_order_and_fails_on_the_first_error() {
    let good = SqlFileSet::new(vec![
        SqlFile::new(None, String::from("CREATE TABLE a (x INT);\n")),
        SqlFile::new(None, String::from("CREATE TABLE b (y INT);\n")),
    ]);
    let parsed = ParsedSqlFileSet::parse_all(good, Dialects::default()).unwrap();
    let names: Vec<&String> = parsed.files().iter().map(|f| &f.tables()[0].name).collect();
    assert_eq!(names, vec!["a", "b"]);

    let bad = SqlFileSet::new(vec![
        SqlFile::new(None, String::from("CREATE TABLE a (x INT);\n")),
        SqlFile::new(Some(String::from("bad.sql")), String::from("CREATE TABLE")),
    ]);
    match ParsedSqlFileSet::parse_all(bad, Dialects::default()) {
        Err(Error::Parse(path, _)) => assert_eq!(path, Some(String::from("bad.sql"))),
        other => panic!("expected a parse error, got {other:?}"),
    }
}

#[test]
fn a_file_set_exposes_its_files() {
    let set = SqlFileSet::new(vec![SqlFile::new(None, String::from("SELECT 1;"))]);
    assert_eq!(set.files().len(), 1);
    assert_eq!(set.files()[0].content(), "SELECT 1;");
    assert_eq!(set.files()[0].path(), &None);
}
