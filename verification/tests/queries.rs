//! The query scenarios run through the compiled-filter backend's verified
//! model, projected down to paths and sorted before comparing.

use notemancy_core::filter_model::jq_select;
use notemancy_core::query_native::NoteMetadata;
use notemancy_core::query_parser::parse_query;

fn note(path: &str, title: &str, date: &str, tags: &[&str]) -> NoteMetadata {
    NoteMetadata {
        path: path.to_string(),
        title: title.to_string(),
        date: Some(date.to_string()),
        tags: tags.iter().map(|t| t.to_string()).collect(),
    }
}

fn run(notes: &Vec<NoteMetadata>, query: &str) -> Vec<String> {
    let ast = parse_query(query).unwrap();
    let mut found: Vec<String> = jq_select(notes, &ast).into_iter().map(|(p, _)| p).collect();
    found.sort();
    found
}

#[test]
fn test_query_notes_by_date_range() {
    let notes = vec![
        note("note1.md", "Note One", "2025-03-01", &["CLI"]),
        note("note2.md", "Note Two", "2025-03-15", &["rust"]),
        note("note3.md", "Note Three", "2025-04-01", &["CLI", "rust"]),
    ];
    let query = r#"date >= "2025-03-01" and date <= "2025-03-31""#;
    let found = run(&notes, query);
    assert_eq!(found, vec!["note1.md".to_string(), "note2.md".to_string()]);
}

#[test]
fn test_query_notes_with_tag_not() {
    let notes = vec![
        note("note1.md", "Note One", "2025-03-01", &["CLI", "rust"]),
        note("note2.md", "Note Two", "2025-03-15", &["rust"]),
    ];
    let query = r#"not tag = "CLI""#;
    let found = run(&notes, query);
    assert_eq!(found, vec!["note2.md".to_string()]);
}

#[test]
fn test_query_notes_complex() {
    let notes = vec![
        note("note1.md", "Note One", "2025-03-01", &["CLI"]),
        note("note2.md", "Note Two", "2025-03-15", &["rust"]),
        note("note3.md", "Note Three", "2025-03-20", &["CLI", "rust"]),
        note("note4.md", "Note Four", "2025-04-05", &["CLI"]),
    ];
    // Query: within March 2025 and either has tag "rust" or does NOT have tag "CLI".
    let query = r#"date >= "2025-03-01" and date <= "2025-03-31" and (tag = "rust" or not tag = "CLI")"#;
    let found = run(&notes, query);
    assert_eq!(found, vec!["note2.md".to_string(), "note3.md".to_string()]);
}

#[test]
fn test_query_notes_or_condition() {
    let notes = vec![
        note("note1.md", "Note One", "2025-03-01", &["CLI"]),
        note("note2.md", "Note Two", "2025-03-10", &["rust"]),
        note("note3.md", "Note Three", "2025-03-20", &["CLI", "rust"]),
    ];
    let query = r#"tag = "CLI" or tag = "rust""#;
    let found = run(&notes, query);
    assert_eq!(
        found,
        vec![
            "note1.md".to_string(),
            "note2.md".to_string(),
            "note3.md".to_string()
        ]
    );
}
