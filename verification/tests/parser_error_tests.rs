use adapto::parser::error::ParseError;

#[test]
fn parse_error_display_syntax() {
    let err = ParseError::Syntax { line: 5, col: 10, message: "unexpected token".to_string() };
    let msg = err.message();
    assert!(msg.contains("line 5"));
    assert!(msg.contains("col 10"));
    assert!(msg.contains("unexpected token"));
}

#[test]
fn parse_error_display_unknown_block() {
    let err = ParseError::UnknownBlock("widget".to_string());
    let msg = err.message();
    assert!(msg.contains("widget"));
    assert!(msg.contains("Unknown block"));
}

#[test]
fn parse_error_display_duplicate_block() {
    let err = ParseError::DuplicateBlock("script".to_string());
    let msg = err.message();
    assert!(msg.contains("script"));
    assert!(msg.contains("Duplicate"));
}

#[test]
fn parse_error_display_missing_field() {
    let err = ParseError::MissingField { block: "resource".to_string(), field: "name".to_string() };
    let msg = err.message();
    assert!(msg.contains("name"));
    assert!(msg.contains("resource"));
}

#[test]
fn parse_error_display_invalid_value() {
    let err = ParseError::InvalidValue {
        field: "cache".to_string(),
        value: "mega".to_string(),
        reason: "valid values: no-store, private, public, static".to_string(),
    };
    let msg = err.message();
    assert!(msg.contains("cache"));
    assert!(msg.contains("mega"));
}

#[test]
fn parse_error_display_unclosed_block() {
    let err = ParseError::UnclosedBlock("style".to_string());
    let msg = err.message();
    assert!(msg.contains("style"));
    assert!(msg.contains("Unclosed"));
}

#[test]
fn parse_error_display_unexpected_token() {
    let err = ParseError::UnexpectedToken(">>>".to_string());
    let msg = err.message();
    assert!(msg.contains(">>>"));
    assert!(msg.contains("Unexpected"));
}
