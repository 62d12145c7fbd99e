//! Tests for the annotation-block parser.

use cache_diff::attributes::{CacheAttributes, ParseError};

#[test]
fn test_parse_all_rename() {
    let input = r#"rename="Ruby version""#;
    let expected = CacheAttributes {
        rename: Some("Ruby version".to_string()),
        ..Default::default()
    };
    assert_eq!(CacheAttributes::parse_all(input).unwrap(), expected);
}

#[test]
fn test_parse_all_display() {
    let input = "display = my_function";
    let expected = CacheAttributes {
        display: Some("my_function".to_string()),
        ..Default::default()
    };
    assert_eq!(CacheAttributes::parse_all(input).unwrap(), expected);
}

#[test]
fn test_parse_all_ignore() {
    let input = "ignore";
    let expected = CacheAttributes {
        ignore: Some(()),
        ..Default::default()
    };
    assert_eq!(CacheAttributes::parse_all(input).unwrap(), expected);
}

#[test]
fn test_parse_all_unknown() {
    let input = r#"unknown = "IDK""#;
    let result = CacheAttributes::parse_all(input);
    assert!(result.is_err(), "Expected an error, got {:?}", result);
    assert_eq!(
        result.err().unwrap().message(),
        r#"Unknown cache_diff attribute: `unknown`. Must be one of `rename`, `display`, `ignore`"#
    );
}

#[test]
fn unknown_key_message_lists_valid_keys() {
    let err = CacheAttributes::parse_all(r#"foo = "bar""#).unwrap_err();
    let msg = err.message();
    assert!(msg.contains("rename"), "missing `rename` in: {msg}");
    assert!(msg.contains("display"), "missing `display` in: {msg}");
    assert!(msg.contains("ignore"), "missing `ignore` in: {msg}");
}

#[test]
fn duplicate_key_last_write_wins() {
    let parsed = CacheAttributes::parse_all(r#"rename = "A", rename = "B""#).unwrap();
    assert_eq!(parsed.rename, Some("B".to_string()));
}

#[test]
fn empty_annotation_is_default() {
    assert_eq!(CacheAttributes::parse_all("").unwrap(), CacheAttributes::default());
    assert_eq!(CacheAttributes::parse_all("   ").unwrap(), CacheAttributes::default());
}

#[test]
fn whitespace_and_trailing_comma_tolerated() {
    let parsed = CacheAttributes::parse_all(" rename = \"A\" , ignore , ").unwrap();
    assert_eq!(parsed.rename, Some("A".to_string()));
    assert_eq!(parsed.ignore, Some(()));
    assert_eq!(parsed.display, None);
}

#[test]
fn all_three_keys_in_one_block() {
    let parsed =
        CacheAttributes::parse_all(r#"rename="Ruby version", display=my_display, ignore"#).unwrap();
    assert_eq!(parsed.rename, Some("Ruby version".to_string()));
    assert_eq!(parsed.display, Some("my_display".to_string()));
    assert_eq!(parsed.ignore, Some(()));
}

#[test]
fn display_value_may_be_a_path() {
    let parsed = CacheAttributes::parse_all("display = std::convert::identity").unwrap();
    assert_eq!(parsed.display, Some("std::convert::identity".to_string()));
}

#[test]
fn rename_without_string_literal_is_malformed() {
    let err = CacheAttributes::parse_all("rename = 5").unwrap_err();
    assert_eq!(err, ParseError::MalformedValue("rename".to_string()));
}

#[test]
fn rename_without_value_is_malformed() {
    let err = CacheAttributes::parse_all("rename").unwrap_err();
    assert_eq!(err, ParseError::MalformedValue("rename".to_string()));
    let err = CacheAttributes::parse_all(r#"rename = "unterminated"#).unwrap_err();
    assert_eq!(err, ParseError::MalformedValue("rename".to_string()));
}

#[test]
fn display_without_function_reference_is_malformed() {
    let err = CacheAttributes::parse_all(r#"display = "my_function""#).unwrap_err();
    assert_eq!(err, ParseError::MalformedValue("display".to_string()));
}

#[test]
fn ignore_with_value_is_unexpected() {
    let err = CacheAttributes::parse_all(r#"ignore = "yes""#).unwrap_err();
    assert_eq!(err, ParseError::UnexpectedValue("ignore".to_string()));
}

#[test]
fn stray_tokens_are_a_syntax_error() {
    assert_eq!(CacheAttributes::parse_all(r#"= "x""#).unwrap_err(), ParseError::Syntax);
    assert_eq!(CacheAttributes::parse_all("ignore ignore").unwrap_err(), ParseError::Syntax);
    assert_eq!(CacheAttributes::parse_all(",").unwrap_err(), ParseError::Syntax);
}
