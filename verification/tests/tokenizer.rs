use notemancy_core::query_parser::tokenize;
use notemancy_core::query_parser::ParseError;
use notemancy_core::query_parser::Token;

#[test]
fn test_tokenize_condition_with_literal() {
    let tokens = tokenize("date >= \"2025-03-01\"").unwrap();
    assert_eq!(
        tokens,
        vec![
            Token::Identifier("date".to_string()),
            Token::Operator(">=".to_string()),
            Token::StringLiteral("2025-03-01".to_string()),
        ]
    );
}

#[test]
fn test_tokenize_keywords_case_insensitive() {
    let tokens = tokenize("AND Or nOt and").unwrap();
    assert_eq!(tokens, vec![Token::And, Token::Or, Token::Not, Token::And]);
}

#[test]
fn test_tokenize_parens_and_operators() {
    let tokens = tokenize("(tag = x) or a != b and c < d").unwrap();
    assert_eq!(
        tokens,
        vec![
            Token::LParen,
            Token::Identifier("tag".to_string()),
            Token::Operator("=".to_string()),
            Token::Identifier("x".to_string()),
            Token::RParen,
            Token::Or,
            Token::Identifier("a".to_string()),
            Token::Operator("!=".to_string()),
            Token::Identifier("b".to_string()),
            Token::And,
            Token::Identifier("c".to_string()),
            Token::Operator("<".to_string()),
            Token::Identifier("d".to_string()),
        ]
    );
}

#[test]
fn test_tokenize_two_char_operator_greedy() {
    // An operator takes a second operator character whenever one follows.
    let tokens = tokenize("a=b").unwrap();
    assert_eq!(
        tokens,
        vec![
            Token::Identifier("a".to_string()),
            Token::Operator("=".to_string()),
            Token::Identifier("b".to_string()),
        ]
    );
    let tokens = tokenize("a == b").unwrap();
    assert_eq!(
        tokens,
        vec![
            Token::Identifier("a".to_string()),
            Token::Operator("==".to_string()),
            Token::Identifier("b".to_string()),
        ]
    );
}

#[test]
fn test_tokenize_literal_keeps_spaces_and_keywords() {
    let tokens = tokenize("title = \"not a keyword\"").unwrap();
    assert_eq!(
        tokens,
        vec![
            Token::Identifier("title".to_string()),
            Token::Operator("=".to_string()),
            Token::StringLiteral("not a keyword".to_string()),
        ]
    );
}

#[test]
fn test_tokenize_unterminated_literal_reads_to_end() {
    let tokens = tokenize("tag = \"abc").unwrap();
    assert_eq!(
        tokens,
        vec![
            Token::Identifier("tag".to_string()),
            Token::Operator("=".to_string()),
            Token::StringLiteral("abc".to_string()),
        ]
    );
}

#[test]
fn test_tokenize_empty_input() {
    assert_eq!(tokenize("").unwrap(), vec![]);
    assert_eq!(tokenize("   \t\n ").unwrap(), vec![]);
}

#[test]
fn test_tokenize_rejects_unsupported_character() {
    assert_eq!(tokenize("#"), Err(ParseError::UnsupportedChar { at: 0 }));
    assert_eq!(tokenize("tag @ x"), Err(ParseError::UnsupportedChar { at: 4 }));
}

#[test]
fn test_tokenize_identifier_with_underscore_and_hyphen() {
    let tokens = tokenize("my_field-2 = v").unwrap();
    assert_eq!(
        tokens,
        vec![
            Token::Identifier("my_field-2".to_string()),
            Token::Operator("=".to_string()),
            Token::Identifier("v".to_string()),
        ]
    );
}
