use notemancy_core::paths::relative_to_absolute;
use notemancy_core::tags::get_all_tags;

fn lines(v: &[&str]) -> Vec<String> {
    v.iter().map(|s| s.to_string()).collect()
}

#[test]
fn test_get_all_tags_sorts_and_deduplicates() {
    let input = lines(&[
        "rust",
        "programming",
        "'test tag'",
        "programming",
        "another-tag",
        "RUST",
        "\"quoted tag\"",
        "tag with spaces",
    ]);
    let tags = get_all_tags(&input);
    let expected = lines(&[
        "RUST",
        "another-tag",
        "programming",
        "quoted tag",
        "rust",
        "tag with spaces",
        "test tag",
    ]);
    assert_eq!(tags, expected);
}

#[test]
fn test_get_all_tags_trims_and_drops_empty_lines() {
    let input = lines(&["  rust  ", "", "   ", "''", "\"\"", "'rust'"]);
    let tags = get_all_tags(&input);
    assert_eq!(tags, lines(&["rust"]));
}

#[test]
fn test_get_all_tags_empty_vault() {
    let tags = get_all_tags(&Vec::new());
    assert!(tags.is_empty());
}

#[test]
fn test_relative_to_absolute() {
    let vault_dir = "/vault";

    // Converting a relative path to an absolute path.
    let relative_path = "notes/test.md";
    let absolute_path = relative_to_absolute(relative_path, vault_dir);
    let expected_path = "/vault/notes/test.md";
    assert_eq!(absolute_path, expected_path);

    // With a leading slash.
    let relative_path = "/notes/test.md";
    let absolute_path = relative_to_absolute(relative_path, vault_dir);
    assert_eq!(absolute_path, expected_path);

    // With "./path" notation.
    let relative_path = "./notes/test.md";
    let absolute_path = relative_to_absolute(relative_path, vault_dir);
    assert_eq!(absolute_path, expected_path);
}

#[test]
fn test_relative_to_absolute_trailing_slash_base() {
    assert_eq!(relative_to_absolute("a/b.md", "/vault/"), "/vault/a/b.md");
    assert_eq!(relative_to_absolute("a.md", ""), "a.md");
}
