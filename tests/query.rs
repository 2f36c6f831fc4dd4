use pacman_blame::query::{ParseError, Query};

fn name_of(r: Result<Query, ParseError>) -> String {
    match r {
        Ok(Query::PackageName(n)) => n,
        Err(e) => panic!("unexpected error: {:?}", e),
    }
}

#[test]
fn package_prefix_gives_name() {
    assert_eq!(name_of(Query::parse("package:foo")), "foo");
}

#[test]
fn plain_name_gives_name() {
    assert_eq!(name_of(Query::parse("plainname")), "plainname");
}

#[test]
fn whitespace_around_prefix_is_syntax_error() {
    assert!(matches!(Query::parse(" bad :val"), Err(ParseError::SyntaxError)));
    assert!(matches!(Query::parse("bad\t:val"), Err(ParseError::SyntaxError)));
}

#[test]
fn unknown_prefix_is_invalid_property() {
    match Query::parse("unknown:val") {
        Err(ParseError::InvalidProperty(p)) => assert_eq!(p, "unknown"),
        other => panic!("unexpected: {:?}", other),
    }
}

#[test]
fn only_first_colon_splits() {
    assert_eq!(name_of(Query::parse("package:a:b")), "a:b");
}

#[test]
fn empty_query_is_empty_name() {
    assert_eq!(name_of(Query::parse("")), "");
}

#[test]
fn empty_prefix_is_invalid_property() {
    match Query::parse(":x") {
        Err(ParseError::InvalidProperty(p)) => assert_eq!(p, ""),
        other => panic!("unexpected: {:?}", other),
    }
}

#[test]
fn parse_error_messages() {
    assert_eq!(ParseError::InvalidProperty("foo".to_string()).message(), "property not supported: foo");
    assert_eq!(ParseError::SyntaxError.message(), "invalid syntax");
}
