//! The SQL dialects a build can parse under: a closed enumeration mapped by
//! name to the external parser's dialect configuration.

use vstd::prelude::*;

verus! {

/// The supported SQL dialects.
#[derive(Clone, Copy, Debug, PartialEq, Eq, Structural)]
pub enum Dialects {
    /// ANSI SQL.
    Ansi,
    /// Google BigQuery.
    BigQuery,
    /// ClickHouse.
    ClickHouse,
    /// Databricks.
    Databricks,
    /// DuckDB.
    DuckDb,
    /// A permissive generic dialect.
    Generic,
    /// Apache Hive.
    Hive,
    /// Microsoft SQL Server (T-SQL).
    MsSql,
    /// MySQL.
    MySql,
    /// Oracle.
    Oracle,
    /// PostgreSQL, the default.
    PostgreSql,
    /// Amazon Redshift.
    RedshiftSql,
    /// SQLite.
    SQLite,
    /// Snowflake.
    Snowflake,
}

impl Default for Dialects {
    /// The default dialect is PostgreSQL.
    fn default() -> (r: Self)
        ensures
            r == Dialects::PostgreSql,
    {
        Dialects::PostgreSql
    }
}

/// The name under which the external parser knows each dialect.
pub open spec fn spec_sql_name(d: Dialects) -> Seq<char> {
    match d {
        Dialects::Ansi => "ansi"@,
        Dialects::BigQuery => "bigquery"@,
        Dialects::ClickHouse => "clickhouse"@,
        Dialects::Databricks => "databricks"@,
        Dialects::DuckDb => "duckdb"@,
        Dialects::Generic => "generic"@,
        Dialects::Hive => "hive"@,
        Dialects::MsSql => "mssql"@,
        Dialects::MySql => "mysql"@,
        Dialects::Oracle => "oracle"@,
        Dialects::PostgreSql => "postgresql"@,
        Dialects::RedshiftSql => "redshift"@,
        Dialects::SQLite => "sqlite"@,
        Dialects::Snowflake => "snowflake"@,
    }
}

impl Dialects {
    /// The dialect's name, as the external parser spells it.
    pub fn sql_name(&self) -> (r: &'static str)
        ensures
            r@ == spec_sql_name(*self),
    {
        match self {
            Dialects::Ansi => "ansi",
            Dialects::BigQuery => "bigquery",
            Dialects::ClickHouse => "clickhouse",
            Dialects::Databricks => "databricks",
            Dialects::DuckDb => "duckdb",
            Dialects::Generic => "generic",
            Dialects::Hive => "hive",
            Dialects::MsSql => "mssql",
            Dialects::MySql => "mysql",
            Dialects::Oracle => "oracle",
            Dialects::PostgreSql => "postgresql",
            Dialects::RedshiftSql => "redshift",
            Dialects::SQLite => "sqlite",
            Dialects::Snowflake => "snowflake",
        }
    }
}

} // verus!
