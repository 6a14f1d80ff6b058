//! The two backends — native evaluation and the verified model of the
//! compiled jq filter — run against the same corpora and queries.

use notemancy_core::filter_model::jq_select;
use notemancy_core::query_native::query_notes_native;
use notemancy_core::query_native::NoteMetadata;
use notemancy_core::query_parser::parse_query;

fn note(path: &str, title: &str, date: Option<&str>, tags: &[&str]) -> NoteMetadata {
    NoteMetadata {
        path: path.to_string(),
        title: title.to_string(),
        date: date.map(|d| d.to_string()),
        tags: tags.iter().map(|t| t.to_string()).collect(),
    }
}

fn four_notes() -> Vec<NoteMetadata> {
    vec![
        note("note1.md", "Note One", Some("2025-03-01"), &["CLI"]),
        note("note2.md", "Note Two", Some("2025-03-15"), &["rust"]),
        note("note3.md", "Note Three", Some("2025-03-20"), &["CLI", "rust"]),
        note("note4.md", "Note Four", Some("2025-04-05"), &["CLI"]),
    ]
}

fn both_backends(notes: Vec<NoteMetadata>, query: &str) -> (Vec<String>, Vec<String>) {
    let ast = parse_query(query).unwrap();
    let mut compiled: Vec<String> = jq_select(&notes, &ast).into_iter().map(|(p, _)| p).collect();
    let mut native: Vec<String> = query_notes_native(notes, query)
        .unwrap()
        .into_iter()
        .map(|(p, _)| p)
        .collect();
    compiled.sort();
    native.sort();
    (native, compiled)
}

fn paths(v: &[&str]) -> Vec<String> {
    v.iter().map(|p| p.to_string()).collect()
}

#[test]
fn test_scenario_date_range() {
    let (native, compiled) = both_backends(
        four_notes(),
        r#"date >= "2025-03-01" and date <= "2025-03-31""#,
    );
    assert_eq!(native, paths(&["note1.md", "note2.md", "note3.md"]));
    assert_eq!(compiled, native);
}

#[test]
fn test_scenario_not_tag() {
    let (native, compiled) = both_backends(four_notes(), r#"not tag = "CLI""#);
    assert_eq!(native, paths(&["note2.md"]));
    assert_eq!(compiled, native);
}

#[test]
fn test_scenario_tag_or_tag() {
    let (native, compiled) = both_backends(four_notes(), r#"tag = "CLI" or tag = "rust""#);
    assert_eq!(
        native,
        paths(&["note1.md", "note2.md", "note3.md", "note4.md"])
    );
    assert_eq!(compiled, native);
}

#[test]
fn test_scenario_date_range_with_tag_alternative() {
    let (native, compiled) = both_backends(
        four_notes(),
        r#"date >= "2025-03-01" and date <= "2025-03-31" and (tag = "rust" or not tag = "CLI")"#,
    );
    assert_eq!(native, paths(&["note2.md", "note3.md"]));
    assert_eq!(compiled, native);
}

#[test]
fn test_query_native_vs_shell() {
    // Four notes; query: notes in March that do NOT have tag "CLI". The
    // native path and the compiled-filter path must return the same paths.
    let notes = vec![
        note("note1.md", "Note One", Some("2025-03-01"), &["CLI"]),
        note("note2.md", "Note Two", Some("2025-03-10"), &["rust"]),
        note("note3.md", "Note Three", Some("2025-03-20"), &["CLI", "rust"]),
        note("note4.md", "Note Four", Some("2025-04-05"), &["CLI"]),
    ];
    let query = r#"date >= "2025-03-01" and date <= "2025-03-31" and not tag = "CLI""#;
    let (native_paths, shell_paths) = both_backends(notes, query);
    assert_eq!(shell_paths, native_paths);
}

#[test]
fn test_empty_corpus_both_backends() {
    // Any query against zero notes returns an empty result set via both
    // paths.
    for query in [
        r#"tag = "CLI""#,
        r#"not tag = "CLI""#,
        r#"date >= "2025-03-01" and date <= "2025-03-31""#,
        r#"title != "x" or not tag != "y""#,
    ] {
        let (native, compiled) = both_backends(Vec::new(), query);
        assert!(native.is_empty());
        assert!(compiled.is_empty());
    }
}

#[test]
fn test_backends_agree_on_negated_tag_not_equals() {
    // `not tag != v`: the compiler negates the non-membership form rather
    // than using its special case; both backends still agree.
    let (native, compiled) = both_backends(four_notes(), r#"not tag != "rust""#);
    assert_eq!(native, paths(&["note2.md", "note3.md"]));
    assert_eq!(compiled, native);
}

#[test]
fn test_backends_diverge_on_missing_date_upper_bound() {
    // Outside the agreed fragment the paths can differ: jq reads a missing
    // date as null, which sorts below every string, so `date <= v` keeps a
    // dateless note that the native evaluator rejects.
    let notes = vec![note("plain.md", "Plain", None, &[])];
    let query = r#"date <= "2025-03-31""#;
    let (native, compiled) = both_backends(notes, query);
    assert!(native.is_empty());
    assert_eq!(compiled, paths(&["plain.md"]));
}
