//! The dialect enumeration and its parser-facing names.

use sql_docs::dialects::Dialects;
use sql_docs::sql_doc::SqlDoc;

#[test]
fn default_is_postgres() {
    assert_eq!(Dialects::default(), Dialects::PostgreSql);
}

#[test]
fn each_dialect_has_its_parser_name() {
    assert_eq!(Dialects::Ansi.sql_name(), "ansi");
    assert_eq!(Dialects::BigQuery.sql_name(), "bigquery");
    assert_eq!(Dialects::ClickHouse.sql_name(), "clickhouse");
    assert_eq!(Dialects::Databricks.sql_name(), "databricks");
    assert_eq!(Dialects::DuckDb.sql_name(), "duckdb");
    assert_eq!(Dialects::Generic.sql_name(), "generic");
    assert_eq!(Dialects::Hive.sql_name(), "hive");
    assert_eq!(Dialects::MsSql.sql_name(), "mssql");
    assert_eq!(Dialects::MySql.sql_name(), "mysql");
    assert_eq!(Dialects::Oracle.sql_name(), "oracle");
    assert_eq!(Dialects::PostgreSql.sql_name(), "postgresql");
    assert_eq!(Dialects::RedshiftSql.sql_name(), "redshift");
    assert_eq!(Dialects::SQLite.sql_name(), "sqlite");
    assert_eq!(Dialects::Snowflake.sql_name(), "snowflake");
}

#[test]
fn a_selected_dialect_still_parses_plain_tables() {
    let doc = SqlDoc::from_str("-- t\nCREATE TABLE t (a INT);\n")
        .dialect(Dialects::MySql)
        .build()
        .unwrap();
    assert_eq!(doc.tables().len(), 1);
    assert_eq!(doc.tables()[0].name(), "t");
}
