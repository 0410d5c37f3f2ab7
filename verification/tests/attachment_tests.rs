//! End-to-end attachment behaviour through the public builder.

use sql_docs::docs::AttachmentResult;
use sql_docs::sql_doc::SqlDoc;

const USERS_SQL: &str = "-- users table\nCREATE TABLE users (\n  id INT,    -- primary key\n  name TEXT\n);\n";

#[test]
fn table_and_columns_get_their_comments() {
    let doc = SqlDoc::from_str(USERS_SQL)
        .collect_all_single_one_multi()
        .flatten_multiline_with("\n")
        .build()
        .unwrap();
    let tables = doc.tables();
    assert_eq!(tables.len(), 1);
    assert_eq!(tables[0].name(), "users");
    assert_eq!(
        tables[0].doc(),
        &AttachmentResult::Single(String::from("users table"))
    );
    let columns = tables[0].columns();
    assert_eq!(columns.len(), 2);
    assert_eq!(columns[0].name(), "id");
    assert_eq!(
        columns[0].doc(),
        &AttachmentResult::Single(String::from("primary key"))
    );
    assert_eq!(columns[1].name(), "name");
    assert_eq!(columns[1].doc(), &AttachmentResult::Absent);
}

#[test]
fn blank_line_breaks_attachment() {
    let text = "-- users table\n\nCREATE TABLE users (\n  id INT,    -- primary key\n  name TEXT\n);\n";
    let doc = SqlDoc::from_str(text)
        .collect_all_single_one_multi()
        .flatten_multiline_with("\n")
        .build()
        .unwrap();
    let tables = doc.tables();
    assert_eq!(tables.len(), 1);
    assert_eq!(tables[0].doc(), &AttachmentResult::Absent);
}

#[test]
fn all_leading_merges_a_run_of_line_comments() {
    let text = "-- one\n-- two\nCREATE TABLE t (a INT);\n";
    let doc = SqlDoc::from_str(text)
        .collect_all_leading()
        .flatten_multiline_with(" | ")
        .build()
        .unwrap();
    assert_eq!(
        doc.tables()[0].doc(),
        &AttachmentResult::Single(String::from("one | two"))
    );
}

#[test]
fn single_nearest_takes_only_the_last_comment() {
    let text = "-- one\n-- two\nCREATE TABLE t (a INT);\n";
    let doc = SqlDoc::from_str(text)
        .collect_single_nearest()
        .flatten_multiline()
        .build()
        .unwrap();
    assert_eq!(
        doc.tables()[0].doc(),
        &AttachmentResult::Single(String::from("two"))
    );
}

#[test]
fn all_leading_extends_single_nearest() {
    let text = "-- one\n-- two\nCREATE TABLE t (a INT);\n";
    let sep = " | ";
    let all = SqlDoc::from_str(text)
        .collect_all_leading()
        .flatten_multiline_with(sep)
        .build()
        .unwrap();
    let one = SqlDoc::from_str(text)
        .collect_single_nearest()
        .flatten_multiline_with(sep)
        .build()
        .unwrap();
    let all_text = match all.tables()[0].doc() {
        AttachmentResult::Single(s) => s.clone(),
        other => panic!("expected a flattened doc, got {other:?}"),
    };
    let one_text = match one.tables()[0].doc() {
        AttachmentResult::Single(s) => s.clone(),
        other => panic!("expected a flattened doc, got {other:?}"),
    };
    assert!(all_text.ends_with(&one_text));
    assert!(all_text.len() >= one_text.len());
}

#[test]
fn preserve_keeps_fragments_and_joining_matches_flatten() {
    let text = "-- one\n-- two\nCREATE TABLE t (a INT);\n";
    let sep = " | ";
    let preserved = SqlDoc::from_str(text)
        .collect_all_leading()
        .preserve_multiline()
        .build()
        .unwrap();
    let flattened = SqlDoc::from_str(text)
        .collect_all_leading()
        .flatten_multiline_with(sep)
        .build()
        .unwrap();
    let fragments = match preserved.tables()[0].doc() {
        AttachmentResult::Fragments(v) => v.clone(),
        other => panic!("expected fragments, got {other:?}"),
    };
    assert_eq!(fragments, vec![String::from("one"), String::from("two")]);
    assert_eq!(
        flattened.tables()[0].doc(),
        &AttachmentResult::Single(fragments.join(sep))
    );
}

#[test]
fn a_blank_line_inside_a_run_shortens_the_block() {
    let text = "-- far\n\n-- near\nCREATE TABLE t (a INT);\n";
    let doc = SqlDoc::from_str(text)
        .collect_all_leading()
        .flatten_multiline_with(" ")
        .build()
        .unwrap();
    assert_eq!(
        doc.tables()[0].doc(),
        &AttachmentResult::Single(String::from("near"))
    );
}

#[test]
fn a_block_comment_is_taken_alone_under_all_single_one_multi() {
    let text = "-- earlier\n/* all\n   users */\nCREATE TABLE users (id INT);\n";
    let doc = SqlDoc::from_str(text)
        .collect_all_single_one_multi()
        .flatten_multiline_with(" ")
        .build()
        .unwrap();
    assert_eq!(
        doc.tables()[0].doc(),
        &AttachmentResult::Single(String::from("all\n   users"))
    );
}

#[test]
fn a_comment_is_never_attached_twice() {
    let text = "-- shared\nCREATE TABLE a (x INT);\nCREATE TABLE b (y INT);\n";
    let doc = SqlDoc::from_str(text)
        .collect_all_leading()
        .flatten_multiline()
        .build()
        .unwrap();
    let tables = doc.tables();
    assert_eq!(tables.len(), 2);
    assert_eq!(
        tables[0].doc(),
        &AttachmentResult::Single(String::from("shared"))
    );
    assert_eq!(tables[1].doc(), &AttachmentResult::Absent);
}

#[test]
fn repeated_builds_are_identical() {
    let build = || {
        SqlDoc::from_str(USERS_SQL)
            .deny("nothing-here")
            .collect_all_leading()
            .preserve_multiline()
            .build()
            .unwrap()
    };
    assert_eq!(build(), build());
}

#[test]
fn attachment_is_present_only_when_a_comment_qualified() {
    let doc = SqlDoc::from_str(USERS_SQL)
        .collect_all_single_one_multi()
        .build()
        .unwrap();
    let t = &doc.tables()[0];
    assert!(t.doc().is_present());
    assert!(t.columns()[0].doc().is_present());
    assert!(!t.columns()[1].doc().is_present());
}

#[test]
fn a_comment_between_columns_documents_the_next_column() {
    let text = "CREATE TABLE t (\n  a INT,\n  -- b doc\n  b INT\n);\n";
    let doc = SqlDoc::from_str(text)
        .collect_all_single_one_multi()
        .flatten_multiline()
        .build()
        .unwrap();
    let tables = doc.tables();
    assert_eq!(tables[0].doc(), &AttachmentResult::Absent);
    assert_eq!(tables[0].columns()[0].doc(), &AttachmentResult::Absent);
    assert_eq!(
        tables[0].columns()[1].doc(),
        &AttachmentResult::Single(String::from("b doc"))
    );
}

#[test]
fn a_table_never_takes_a_trailing_comment() {
    let text = "CREATE TABLE t ( -- the id column\n  id INT\n);\n";
    for strategy in 0..3 {
        let builder = SqlDoc::from_str(text).flatten_multiline();
        let builder = match strategy {
            0 => builder.collect_single_nearest(),
            1 => builder.collect_all_leading(),
            _ => builder.collect_all_single_one_multi(),
        };
        let doc = builder.build().unwrap();
        assert_eq!(doc.tables()[0].doc(), &AttachmentResult::Absent);
    }
}

#[test]
fn single_nearest_uses_only_leading_comments() {
    let doc = SqlDoc::from_str(USERS_SQL)
        .collect_single_nearest()
        .flatten_multiline()
        .build()
        .unwrap();
    let tables = doc.tables();
    assert_eq!(
        tables[0].doc(),
        &AttachmentResult::Single(String::from("users table"))
    );
    assert_eq!(tables[0].columns()[0].doc(), &AttachmentResult::Absent);
    assert_eq!(tables[0].columns()[1].doc(), &AttachmentResult::Absent);
}
