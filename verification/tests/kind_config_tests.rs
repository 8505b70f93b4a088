//! Dialect identity from URLs, driver configuration parsing, failure kinds,
//! and the text adapter.

use describe_cache::AnyKind;
use describe_cache::Config;
use describe_cache::DescribeFailure;
use describe_cache::ExternalDriverConfig;
use describe_cache::FailureKind;
use describe_cache::Text;
use describe_cache::postgres_registration;
use describe_cache::str_has_prefix;

#[test]
fn postgres_urls_are_recognized() {
    assert!(matches!(AnyKind::from_url("postgres://localhost/db"), Ok(AnyKind::Postgres)));
    assert!(matches!(AnyKind::from_url("postgresql://localhost/db"), Ok(AnyKind::Postgres)));
    assert!(matches!(AnyKind::from_url("postgres:"), Ok(AnyKind::Postgres)));
    let parsed: Result<AnyKind, DescribeFailure> = "postgres://u@h/d".parse();
    assert!(matches!(parsed, Ok(AnyKind::Postgres)));
}

#[test]
fn unrecognized_url_is_a_configuration_failure() {
    let err = match AnyKind::from_url("mysql://localhost/db") {
        Err(e) => e,
        Ok(_) => panic!("mysql scheme must not be recognized"),
    };
    assert_eq!(err.kind(), FailureKind::Configuration);
    assert_eq!(err.message(), "unrecognized database url: \"mysql://localhost/db\"");
    // The scheme must lead: a URL merely containing the word is refused.
    assert!(AnyKind::from_url("http://postgres:example/db").is_err());
    assert!(AnyKind::from_url("").is_err());
}

#[test]
fn prefix_check_is_exact() {
    assert!(str_has_prefix("postgres://h", "postgres:"));
    assert!(!str_has_prefix("postgre", "postgres:"));
    assert!(!str_has_prefix("Postgres://h", "postgres:"));
    assert!(str_has_prefix("abc", ""));
    assert!(str_has_prefix("abc", "abc"));
    assert!(!str_has_prefix("abc", "abcd"));
}

#[test]
fn failure_kinds_and_messages() {
    let c = DescribeFailure::Connection("connection refused".to_string());
    assert_eq!(c.kind(), FailureKind::Connection);
    assert_eq!(c.message(), "connection refused");

    let p = DescribeFailure::Protocol("syntax error at or near \"FORM\"".to_string(), Some(11));
    assert_eq!(p.kind(), FailureKind::Protocol);
    assert_eq!(p.message(), "syntax error at or near \"FORM\"");

    let t = DescribeFailure::PoolExhaustedTimeout;
    assert_eq!(t.kind(), FailureKind::PoolExhaustedTimeout);
    assert_eq!(t.message(), "timed out waiting for a pooled connection");

    let g = DescribeFailure::Configuration("bad settings".to_string());
    assert_eq!(g.kind(), FailureKind::Configuration);
    assert_eq!(g.message(), "bad settings");
}

#[test]
fn external_driver_config_round_trip() {
    let mut external = ExternalDriverConfig::new();
    // No table recorded: Ok(None), not an error.
    let missing: Result<Option<toml::Table>, DescribeFailure> = external.try_parse("mydriver");
    assert!(matches!(missing, Ok(None)));

    let table: toml::Table = "port = 6000\nname = \"replica\"".parse().unwrap();
    external.insert_driver("mydriver".to_string(), table.clone());

    // The recorded table deserializes back, exactly.
    let parsed: Option<toml::Table> = external.try_parse("mydriver").unwrap();
    assert_eq!(parsed, Some(table.clone()));
    assert_eq!(external.get_table("mydriver"), Some(&table));

    // A different name still has nothing.
    let other: Result<Option<toml::Table>, DescribeFailure> = external.try_parse("otherdriver");
    assert!(matches!(other, Ok(None)));

    // A table that does not fit the requested shape is a configuration
    // failure, not a silent default.
    let bad: Result<Option<u32>, DescribeFailure> = external.try_parse("mydriver");
    let err = match bad {
        Err(e) => e,
        Ok(_) => panic!("a table cannot deserialize into an integer"),
    };
    assert_eq!(err.kind(), FailureKind::Configuration);
}

#[test]
fn config_defaults_are_empty() {
    let config = Config::default();
    let nothing: Result<Option<toml::Table>, DescribeFailure> =
        config.external.try_parse("postgres");
    assert!(matches!(nothing, Ok(None)));
    let fresh = Config::new();
    assert!(matches!(
        fresh.external.try_parse::<toml::Table>("anything"),
        Ok(None)
    ));
}

#[test]
fn postgres_registration_names_its_types() {
    let reg = postgres_registration();
    assert_eq!(reg.kind, AnyKind::Postgres);
    assert_eq!(reg.database_path, "sqlx::postgres::Postgres");
    assert_eq!(reg.row_path, "sqlx::postgres::PgRow");
}

#[test]
fn text_adapter_wraps_and_unwraps() {
    let t = Text(42_i64);
    assert_eq!(*t.get(), 42);
    assert_eq!(t.into_inner(), 42);
    let s = Text("plain".to_string());
    assert_eq!(s.get(), "plain");
    assert_eq!(s.into_inner(), "plain");
}
