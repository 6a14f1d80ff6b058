use notemancy_core::regex_escape;
use notemancy_core::titles::check_unique_title;
use notemancy_core::titles::sanitize_title;

#[test]
fn test_sanitize_title() {
    assert_eq!(sanitize_title("Test Title"), "Test-Title");
    assert_eq!(
        sanitize_title("Test/Title:With?Invalid*Chars"),
        "Test-Title-With-Invalid-Chars"
    );
    assert_eq!(
        sanitize_title("   Leading and trailing spaces   "),
        "Leading-and-trailing-spaces"
    );
    assert_eq!(
        sanitize_title("---Title--with---many-hyphens----"),
        "Title-with-many-hyphens"
    );
    assert_eq!(sanitize_title(""), "Untitled");
    assert_eq!(sanitize_title("//////"), "Untitled");
}

#[test]
fn test_regex_escape() {
    assert_eq!(regex_escape("simple"), "simple");
    assert_eq!(regex_escape("with.dot"), "with\\.dot");
    assert_eq!(
        regex_escape("multiple^$.*+?()[]{}|\\chars"),
        "multiple\\^\\$\\.\\*\\+\\?\\(\\)\\[\\]\\{\\}\\|\\\\chars"
    );
}

#[test]
fn test_check_unique_title() {
    let files = vec!["project/Existing-Note.md".to_string()];

    // A title that exists should not be unique.
    let is_unique = check_unique_title("Existing Note", &files);
    assert!(!is_unique, "Expected title 'Existing Note' to not be unique");

    // A title that doesn't exist should be unique.
    let is_unique = check_unique_title("Non Existent Note", &files);
    assert!(is_unique, "Expected title 'Non Existent Note' to be unique");

    // A title that uses different formatting but sanitizes to the same result.
    let is_unique = check_unique_title("Existing.Note", &files);
    assert!(
        !is_unique,
        "Expected title 'Existing.Note' to not be unique after sanitization"
    );
}

#[test]
fn test_check_unique_title_markdown_extension() {
    let files = vec![
        "project1/My-Note.markdown".to_string(),
        "Top-Level.md".to_string(),
    ];
    assert!(!check_unique_title("My Note", &files));
    assert!(!check_unique_title("Top Level", &files));
    assert!(check_unique_title("Another", &files));
}
