use notemancy_core::query_parser::build_jq_expression;
use notemancy_core::query_parser::parse_query;

fn compile(text: &str) -> String {
    build_jq_expression(&parse_query(text).unwrap())
}

#[test]
fn test_compile_tag_equals_is_membership() {
    assert_eq!(
        compile("tag = \"CLI\""),
        "(.tags | index(\"CLI\") != null)"
    );
}

#[test]
fn test_compile_tag_not_equals_is_non_membership() {
    assert_eq!(
        compile("tag != \"CLI\""),
        "(.tags | index(\"CLI\") == null)"
    );
}

#[test]
fn test_compile_tag_field_case_insensitive() {
    assert_eq!(
        compile("TAG = \"CLI\""),
        "(.tags | index(\"CLI\") != null)"
    );
}

#[test]
fn test_compile_negated_tag_equals_special_case() {
    // `not tag = v` compiles directly to the non-membership test.
    assert_eq!(
        compile("not tag = \"CLI\""),
        "(.tags | index(\"CLI\") == null)"
    );
}

#[test]
fn test_compile_negated_tag_not_equals_uses_generic_negation() {
    assert_eq!(
        compile("not tag != \"CLI\""),
        "((.tags | index(\"CLI\") == null) | not)"
    );
}

#[test]
fn test_compile_negated_date_condition() {
    assert_eq!(
        compile("not date > \"2025-01-01\""),
        "(.date > \"2025-01-01\" | not)"
    );
}

#[test]
fn test_compile_plain_field_comparison() {
    assert_eq!(compile("date >= \"2025-03-01\""), ".date >= \"2025-03-01\"");
    assert_eq!(compile("title = \"My Note\""), ".title = \"My Note\"");
}

#[test]
fn test_compile_and_or_nest_with_parentheses() {
    assert_eq!(
        compile("date >= \"2025-03-01\" and date <= \"2025-03-31\""),
        "(.date >= \"2025-03-01\" and .date <= \"2025-03-31\")"
    );
    assert_eq!(
        compile("tag = \"CLI\" or tag = \"rust\""),
        "((.tags | index(\"CLI\") != null) or (.tags | index(\"rust\") != null))"
    );
}

#[test]
fn test_compile_complex_query() {
    let text = "date >= \"2025-03-01\" and date <= \"2025-03-31\" and (tag = \"rust\" or not tag = \"CLI\")";
    assert_eq!(
        compile(text),
        "((.date >= \"2025-03-01\" and .date <= \"2025-03-31\") and \
         ((.tags | index(\"rust\") != null) or (.tags | index(\"CLI\") == null)))"
    );
}

#[test]
fn test_compile_is_deterministic() {
    let text = "not tag = \"CLI\" and date >= \"2025-03-01\"";
    assert_eq!(compile(text), compile(text));
}
