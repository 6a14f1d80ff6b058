use notemancy_core::query_native::evaluate_expr;
use notemancy_core::query_native::query_notes_native;
use notemancy_core::query_native::NoteMetadata;
use notemancy_core::query_parser::parse_query;

fn note(path: &str, title: &str, date: Option<&str>, tags: &[&str]) -> NoteMetadata {
    NoteMetadata {
        path: path.to_string(),
        title: title.to_string(),
        date: date.map(|d| d.to_string()),
        tags: tags.iter().map(|t| t.to_string()).collect(),
    }
}

fn eval(query: &str, n: &NoteMetadata) -> bool {
    evaluate_expr(n, &parse_query(query).unwrap())
}

#[test]
fn test_evaluate_tag_membership() {
    let n = note("a.md", "A", None, &["CLI", "rust"]);
    assert!(eval("tag = \"CLI\"", &n));
    assert!(eval("tag = \"rust\"", &n));
    assert!(!eval("tag = \"cli\"", &n)); // tag values are case-sensitive
    assert!(!eval("tag != \"CLI\"", &n));
    assert!(eval("tag != \"other\"", &n));
}

#[test]
fn test_evaluate_tag_other_operators_are_false() {
    let n = note("a.md", "A", None, &["CLI"]);
    assert!(!eval("tag > \"A\"", &n));
    assert!(!eval("tag < \"zzz\"", &n));
    assert!(!eval("tag >= \"CLI\"", &n));
}

#[test]
fn test_evaluate_date_comparisons() {
    let n = note("a.md", "A", Some("2025-03-15"), &[]);
    assert!(eval("date = \"2025-03-15\"", &n));
    assert!(eval("date != \"2025-03-14\"", &n));
    assert!(eval("date >= \"2025-03-15\"", &n));
    assert!(eval("date >= \"2025-03-01\"", &n));
    assert!(eval("date <= \"2025-03-31\"", &n));
    assert!(eval("date > \"2025-02-28\"", &n));
    assert!(eval("date < \"2025-04-01\"", &n));
    assert!(!eval("date > \"2025-03-15\"", &n));
    assert!(!eval("date < \"2025-03-15\"", &n));
}

#[test]
fn test_evaluate_date_missing_is_false() {
    let n = note("a.md", "A", None, &["CLI"]);
    assert!(!eval("date = \"2025-03-15\"", &n));
    assert!(!eval("date != \"2025-03-15\"", &n));
    assert!(!eval("date <= \"2025-03-15\"", &n));
    assert!(!eval("date >= \"2025-03-15\"", &n));
}

#[test]
fn test_evaluate_title_supports_only_equality() {
    let n = note("a.md", "My Note", None, &[]);
    assert!(eval("title = \"My Note\"", &n));
    assert!(!eval("title = \"Other\"", &n));
    assert!(eval("title != \"Other\"", &n));
    assert!(!eval("title > \"A\"", &n));
}

#[test]
fn test_evaluate_field_name_case_insensitive() {
    let n = note("a.md", "A", Some("2025-03-15"), &["CLI"]);
    assert!(eval("TAG = \"CLI\"", &n));
    assert!(eval("Date >= \"2025-03-01\"", &n));
    assert!(eval("TITLE = \"A\"", &n));
}

#[test]
fn test_evaluate_unknown_field_is_false() {
    let n = note("a.md", "A", Some("2025-03-15"), &["CLI"]);
    assert!(!eval("priority = \"high\"", &n));
    assert!(!eval("path = \"a.md\"", &n));
}

#[test]
fn test_evaluate_boolean_connectives() {
    let n = note("a.md", "A", Some("2025-03-15"), &["CLI"]);
    assert!(eval("tag = \"CLI\" and date >= \"2025-03-01\"", &n));
    assert!(!eval("tag = \"CLI\" and date >= \"2025-04-01\"", &n));
    assert!(eval("tag = \"x\" or date >= \"2025-03-01\"", &n));
    assert!(!eval("tag = \"x\" or date >= \"2025-04-01\"", &n));
    assert!(eval("not tag = \"x\"", &n));
    assert!(!eval("not tag = \"CLI\"", &n));
    assert!(eval("not tag != \"CLI\"", &n));
}

fn four_notes() -> Vec<NoteMetadata> {
    vec![
        note("note1.md", "Note One", Some("2025-03-01"), &["CLI"]),
        note("note2.md", "Note Two", Some("2025-03-15"), &["rust"]),
        note("note3.md", "Note Three", Some("2025-03-20"), &["CLI", "rust"]),
        note("note4.md", "Note Four", Some("2025-04-05"), &["CLI"]),
    ]
}

#[test]
fn test_complex_query_native() {
    // Query for notes in March that either have tag "rust" or do NOT have tag "CLI".
    let query = r#"date >= "2025-03-01" and date <= "2025-03-31" and (tag = "rust" or not tag = "CLI")"#;
    let results = query_notes_native(four_notes(), query).unwrap();
    let mut paths: Vec<_> = results.into_iter().map(|(p, _)| p).collect();
    paths.sort();
    // Expected: note2.md and note3.md.
    assert_eq!(paths, vec!["note2.md".to_string(), "note3.md".to_string()]);
}

#[test]
fn test_query_native_returns_titles() {
    let results = query_notes_native(four_notes(), "tag = \"rust\"").unwrap();
    let mut pairs = results;
    pairs.sort();
    assert_eq!(
        pairs,
        vec![
            ("note2.md".to_string(), "Note Two".to_string()),
            ("note3.md".to_string(), "Note Three".to_string()),
        ]
    );
}

#[test]
fn test_query_native_propagates_parse_error() {
    assert!(query_notes_native(four_notes(), "tag =").is_err());
}

#[test]
fn test_evaluation_is_idempotent() {
    // Evaluating the same query twice against an unchanged corpus yields the
    // same match set.
    let query = r#"date >= "2025-03-01" and not tag = "CLI""#;
    let mut first: Vec<_> = query_notes_native(four_notes(), query).unwrap();
    let mut second: Vec<_> = query_notes_native(four_notes(), query).unwrap();
    first.sort();
    second.sort();
    assert_eq!(first, second);
}
