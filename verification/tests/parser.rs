use notemancy_core::query_parser::parse_query;
use notemancy_core::query_parser::Expr;
use notemancy_core::query_parser::ParseError;

fn cond(field: &str, op: &str, value: &str) -> Expr {
    Expr::Condition {
        field: field.to_string(),
        op: op.to_string(),
        value: value.to_string(),
    }
}

#[test]
fn test_parse_single_condition() {
    let ast = parse_query("tag = \"CLI\"").unwrap();
    assert_eq!(ast, cond("tag", "=", "CLI"));
}

#[test]
fn test_parse_bare_identifier_value() {
    // A bare identifier and a quoted string are accepted identically.
    let ast = parse_query("tag = CLI").unwrap();
    assert_eq!(ast, cond("tag", "=", "CLI"));
}

#[test]
fn test_parse_or_and_precedence() {
    // `a or b and c` parses as `a or (b and c)`.
    let ast = parse_query("tag = a or tag = b and tag = c").unwrap();
    assert_eq!(
        ast,
        Expr::Or(
            Box::new(cond("tag", "=", "a")),
            Box::new(Expr::And(
                Box::new(cond("tag", "=", "b")),
                Box::new(cond("tag", "=", "c")),
            )),
        )
    );
}

#[test]
fn test_parse_not_and_precedence() {
    // `not a and b` parses as `(not a) and b`.
    let ast = parse_query("not tag = a and tag = b").unwrap();
    assert_eq!(
        ast,
        Expr::And(
            Box::new(Expr::Not(Box::new(cond("tag", "=", "a")))),
            Box::new(cond("tag", "=", "b")),
        )
    );
}

#[test]
fn test_parse_parentheses_override_precedence() {
    let ast = parse_query("(tag = a or tag = b) and tag = c").unwrap();
    assert_eq!(
        ast,
        Expr::And(
            Box::new(Expr::Or(
                Box::new(cond("tag", "=", "a")),
                Box::new(cond("tag", "=", "b")),
            )),
            Box::new(cond("tag", "=", "c")),
        )
    );
}

#[test]
fn test_parse_or_left_associative() {
    let ast = parse_query("tag = a or tag = b or tag = c").unwrap();
    assert_eq!(
        ast,
        Expr::Or(
            Box::new(Expr::Or(
                Box::new(cond("tag", "=", "a")),
                Box::new(cond("tag", "=", "b")),
            )),
            Box::new(cond("tag", "=", "c")),
        )
    );
}

#[test]
fn test_parse_nested_not() {
    let ast = parse_query("not not tag = a").unwrap();
    assert_eq!(
        ast,
        Expr::Not(Box::new(Expr::Not(Box::new(cond("tag", "=", "a")))))
    );
}

#[test]
fn test_parse_is_idempotent() {
    // Parsing the same query text twice yields structurally equal trees.
    let text = "date >= \"2025-03-01\" and (tag = \"rust\" or not tag = \"CLI\")";
    let first = parse_query(text).unwrap();
    let second = parse_query(text).unwrap();
    assert_eq!(first, second);
}

#[test]
fn test_parse_error_missing_field() {
    assert_eq!(parse_query(""), Err(ParseError::ExpectedField { at: 0 }));
    assert_eq!(parse_query("and"), Err(ParseError::ExpectedField { at: 0 }));
}

#[test]
fn test_parse_error_missing_operator() {
    assert_eq!(parse_query("tag"), Err(ParseError::ExpectedOperator { at: 1 }));
    assert_eq!(
        parse_query("tag CLI"),
        Err(ParseError::ExpectedOperator { at: 1 })
    );
}

#[test]
fn test_parse_error_missing_value() {
    assert_eq!(parse_query("tag ="), Err(ParseError::ExpectedValue { at: 2 }));
    assert_eq!(
        parse_query("tag = and"),
        Err(ParseError::ExpectedValue { at: 2 })
    );
}

#[test]
fn test_parse_error_unclosed_parenthesis() {
    assert_eq!(
        parse_query("(tag = a"),
        Err(ParseError::ExpectedClosingParen { at: 4 })
    );
}

#[test]
fn test_parse_error_unsupported_character() {
    assert_eq!(parse_query("tag = %"), Err(ParseError::UnsupportedChar { at: 6 }));
}
