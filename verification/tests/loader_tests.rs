use melos::loader::{load_source, SourceFile, SourceTree};

fn file(name: &str, content: &str) -> SourceFile {
    SourceFile { name: name.to_string(), content: content.to_string() }
}

#[test]
fn test_load_single_file() {
    let content = r#"Title: "Test"
Part: Piano Instrument: Piano {
    | C4 q |
}"#;
    let tree = SourceTree::File {
        path: "test.mel".to_string(),
        content: content.to_string(),
    };

    let result = load_source(&tree).expect("Failed to load source");

    assert_eq!(result.source, content);
    assert_eq!(result.base_path, "test.mel");
}

#[test]
fn test_load_directory_single_file() {
    let content = r#"Title: "Test"
Part: Piano Instrument: Piano {
    | C4 q |
}"#;
    let tree = SourceTree::Directory {
        path: "my_score".to_string(),
        files: vec![file("score.mel", content)],
    };

    let result = load_source(&tree).expect("Failed to load source");

    assert_eq!(result.source, content);
    assert_eq!(result.base_path, "my_score");
}

#[test]
fn test_load_directory_multiple_files_score_first() {
    let score_content = "Title: \"Multi-File Test\"\nTempo: 120\nTime: 4/4\n";
    let piano_content = "Part: Piano Instrument: Piano {\n    | C4 q D4 q E4 q F4 q |\n}\n";
    let violin_content = "Part: Violin Instrument: Violin {\n    | G4 q A4 q B4 q C5 q |\n}\n";

    let tree = SourceTree::Directory {
        path: "my_score".to_string(),
        files: vec![
            file("piano.mel", piano_content),
            file("violin.mel", violin_content),
            file("score.mel", score_content),
        ],
    };

    let result = load_source(&tree).expect("Failed to load source");

    // score.mel should be first, then others alphabetically
    assert!(result.source.starts_with("Title: \"Multi-File Test\""));
    assert!(result.source.contains("Part: Piano"));
    assert!(result.source.contains("Part: Violin"));

    // Verify order: score.mel content appears before piano.mel content
    let score_pos = result.source.find("Title:").unwrap();
    let piano_pos = result.source.find("Part: Piano").unwrap();
    let violin_pos = result.source.find("Part: Violin").unwrap();

    assert!(score_pos < piano_pos);
    assert!(piano_pos < violin_pos); // alphabetical: piano before violin
}

#[test]
fn test_load_directory_alphabetical_order_without_score() {
    let cello_content = "Title: \"Test\"\nPart: Cello Instrument: Cello {\n    | C3 w |\n}\n";
    let violin_content = "Part: Violin Instrument: Violin {\n    | G4 w |\n}\n";

    let tree = SourceTree::Directory {
        path: "my_score".to_string(),
        files: vec![file("violin.mel", violin_content), file("cello.mel", cello_content)],
    };

    let result = load_source(&tree).expect("Failed to load source");

    // cello.mel comes before violin.mel alphabetically
    let cello_pos = result.source.find("Part: Cello").unwrap();
    let violin_pos = result.source.find("Part: Violin").unwrap();

    assert!(cello_pos < violin_pos);
}

#[test]
fn test_load_directory_ignores_non_mel_files() {
    let score_content = "Title: \"Test\"\nPart: Piano Instrument: Piano {\n    | C4 q |\n}\n";

    let tree = SourceTree::Directory {
        path: "my_score".to_string(),
        files: vec![
            file("score.mel", score_content),
            file("README.md", "# My Score"),
            file("notes.txt", "Some notes"),
            file(".DS_Store", "garbage"),
        ],
    };

    let result = load_source(&tree).expect("Failed to load source");

    assert!(!result.source.contains("README"));
    assert!(!result.source.contains("Some notes"));
    assert!(!result.source.contains("garbage"));
}

#[test]
fn test_load_directory_empty_errors() {
    let tree = SourceTree::Directory { path: "empty_score".to_string(), files: vec![] };

    let result = load_source(&tree);

    assert!(result.is_err());
    assert!(result.unwrap_err().message().contains("No .mel files"));
}

#[test]
fn test_load_nonexistent_path_errors() {
    let tree = SourceTree::Missing { path: "/nonexistent/path/to/file.mel".to_string() };

    let result = load_source(&tree);

    assert!(result.is_err());
}

#[test]
fn test_load_directory_with_newline_separator() {
    // Files without trailing newlines
    let tree = SourceTree::Directory {
        path: "my_score".to_string(),
        files: vec![
            file("score.mel", "Title: \"Test\""),
            file("piano.mel", "Part: Piano Instrument: Piano { | C4 q | }"),
        ],
    };

    let result = load_source(&tree).expect("Failed to load source");

    // Should have newline between concatenated files
    assert!(result.source.contains("Title: \"Test\"\n"));
}

#[test]
fn test_load_errors_name_the_path() {
    let missing = SourceTree::Missing { path: "/nonexistent/score.mel".to_string() };
    let err = load_source(&missing).unwrap_err();
    assert_eq!(err.path(), "/nonexistent/score.mel");
    assert!(err.message().contains("does not exist"));

    let empty = SourceTree::Directory { path: "empty_dir".to_string(), files: vec![] };
    let err = load_source(&empty).unwrap_err();
    assert_eq!(err.path(), "empty_dir");
    assert!(err.message().contains("No .mel files"));
}
