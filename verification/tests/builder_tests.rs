//! The builder surface: deny filtering, source kinds, errors, and
//! last-writer-wins configuration.

use sql_docs::docs::AttachmentResult;
use sql_docs::files::SqlFile;
use sql_docs::sql_doc::SqlDoc;
use sql_docs::Error;

const USERS_SQL: &str = "-- users table\nCREATE TABLE users (\n  id INT,    -- primary key\n  name TEXT\n);\n";

#[test]
fn denying_the_file_content_excludes_the_file() {
    let doc = SqlDoc::from_str(USERS_SQL).deny(USERS_SQL).build().unwrap();
    assert_eq!(doc.tables().len(), 0);
}

#[test]
fn an_empty_deny_set_excludes_nothing() {
    let doc = SqlDoc::from_str(USERS_SQL).build().unwrap();
    assert_eq!(doc.tables().len(), 1);
}

#[test]
fn denying_twice_equals_denying_once() {
    let once = SqlDoc::from_str(USERS_SQL).deny("users").build().unwrap();
    let twice = SqlDoc::from_str(USERS_SQL)
        .deny("users")
        .deny("users")
        .build()
        .unwrap();
    assert_eq!(once, twice);
    assert_eq!(once.tables().len(), 0);
}

#[test]
fn a_pattern_missing_from_the_file_excludes_nothing() {
    let doc = SqlDoc::from_str(USERS_SQL)
        .deny("no such text anywhere")
        .build()
        .unwrap();
    assert_eq!(doc.tables().len(), 1);
}

#[test]
fn a_deny_pattern_can_match_the_path() {
    let files = vec![
        SqlFile::new(Some(String::from("keep/a.sql")), String::from("-- a\nCREATE TABLE a (x INT);\n")),
        SqlFile::new(Some(String::from("skip/b.sql")), String::from("-- b\nCREATE TABLE b (y INT);\n")),
    ];
    let doc = SqlDoc::from_dir("root")
        .deny("skip/")
        .build_with_sources(&files)
        .unwrap();
    let tables = doc.tables();
    assert_eq!(tables.len(), 1);
    assert_eq!(tables[0].name(), "a");
}

#[test]
fn tables_of_several_files_keep_file_order() {
    let files = vec![
        SqlFile::new(None, String::from("CREATE TABLE first (x INT);\n")),
        SqlFile::new(None, String::from("CREATE TABLE second (y INT);\n")),
    ];
    let doc = SqlDoc::from_dir("root").build_with_sources(&files).unwrap();
    let names: Vec<&str> = doc.tables().iter().map(|t| t.name()).collect();
    assert_eq!(names, vec!["first", "second"]);
}

#[test]
fn a_parse_failure_aborts_the_build() {
    let r = SqlDoc::from_str("CREATE TABLE").build();
    match r {
        Err(Error::Parse(path, message)) => {
            assert!(path.is_none());
            assert!(!message.is_empty());
        }
        other => panic!("expected a parse error, got {other:?}"),
    }
}

#[test]
fn a_denied_file_cannot_fail_the_build() {
    let bad = "CREATE TABLE";
    let doc = SqlDoc::from_str(bad).deny(bad).build().unwrap();
    assert_eq!(doc.tables().len(), 0);
}

#[test]
fn a_disk_source_reports_a_discovery_error_from_build() {
    match SqlDoc::from_path("schema.sql").build() {
        Err(Error::Discovery(_)) => {}
        other => panic!("expected a discovery error, got {other:?}"),
    }
    match SqlDoc::from_dir("migrations").build() {
        Err(Error::Discovery(_)) => {}
        other => panic!("expected a discovery error, got {other:?}"),
    }
}

#[test]
fn the_last_multiline_strategy_wins() {
    let text = "-- one\n-- two\nCREATE TABLE t (a INT);\n";
    let preserved = SqlDoc::from_str(text)
        .collect_all_leading()
        .flatten_multiline()
        .preserve_multiline()
        .build()
        .unwrap();
    assert!(matches!(
        preserved.tables()[0].doc(),
        AttachmentResult::Fragments(_)
    ));
    let flattened = SqlDoc::from_str(text)
        .collect_all_leading()
        .preserve_multiline()
        .flatten_multiline_with(" | ")
        .build()
        .unwrap();
    assert_eq!(
        flattened.tables()[0].doc(),
        &AttachmentResult::Single(String::from("one | two"))
    );
}

#[test]
fn the_last_collection_strategy_wins() {
    let text = "-- one\n-- two\nCREATE TABLE t (a INT);\n";
    let doc = SqlDoc::from_str(text)
        .collect_all_leading()
        .collect_single_nearest()
        .flatten_multiline()
        .build()
        .unwrap();
    assert_eq!(
        doc.tables()[0].doc(),
        &AttachmentResult::Single(String::from("two"))
    );
}

#[test]
fn empty_input_builds_an_empty_doc() {
    let doc = SqlDoc::from_str("").build().unwrap();
    assert_eq!(doc.tables().len(), 0);
}

#[test]
fn statements_other_than_create_table_contribute_nothing() {
    let doc = SqlDoc::from_str("SELECT 1;\n").build().unwrap();
    assert_eq!(doc.tables().len(), 0);
}

#[test]
fn an_empty_pattern_is_a_substring_of_everything() {
    let doc = SqlDoc::from_str(USERS_SQL).deny("").build().unwrap();
    assert_eq!(doc.tables().len(), 0);
}
