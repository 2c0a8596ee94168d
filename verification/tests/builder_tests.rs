use whatever_find::{Config, FileSearcher, FileSearchError, SearchMode};

#[test]
fn test_builder_validation() {
    // Test invalid max_depth
    let result = FileSearcher::builder().max_depth(0).build();
    assert!(result.is_err());

    // Test invalid max_file_size
    let result = FileSearcher::builder().max_file_size(0).build();
    assert!(result.is_err());

    // Test empty ignore pattern
    let mut builder = FileSearcher::builder();
    builder.config.ignore_patterns.push(String::new());
    let result = builder.build();
    assert!(result.is_err());
}

#[test]
fn test_builder_accepts_valid_configuration() {
    let searcher = FileSearcher::builder()
        .max_depth(3)
        .ignore_hidden(false)
        .case_sensitive(true)
        .ignore_pattern(String::from("*.tmp"))
        .ignore_pattern(String::from("target"))
        .max_file_size(1024 * 1024)
        .build()
        .unwrap();
    assert_eq!(searcher.config.max_depth, Some(3));
    assert!(!searcher.config.ignore_hidden);
    assert!(searcher.config.case_sensitive);
    assert_eq!(searcher.config.max_file_size, Some(1024 * 1024));
}

#[test]
fn test_builder_validation_error_kind() {
    let result = FileSearcher::builder().max_depth(0).build();
    assert!(matches!(result, Err(FileSearchError::InvalidConfig { .. })));
}

#[test]
fn test_builder_unchecked_skips_validation() {
    let searcher = FileSearcher::builder().max_depth(0).build_unchecked();
    assert_eq!(searcher.config.max_depth, Some(0));
}

#[test]
fn test_builder_clear_and_bulk_patterns() {
    let builder = FileSearcher::builder()
        .clear_ignore_patterns()
        .ignore_patterns(vec![String::from("*.bak"), String::from("dist")]);
    assert_eq!(
        builder.config.ignore_patterns,
        vec![String::from("*.bak"), String::from("dist")]
    );
}

#[test]
fn test_default_config() {
    let config = Config::default();
    assert_eq!(config.max_depth, None);
    assert!(config.ignore_hidden);
    assert!(!config.case_sensitive);
    assert_eq!(config.max_file_size, None);
    assert_eq!(config.ignore_patterns.len(), 5);
    assert!(config.ignore_patterns.contains(&String::from("target")));
}

#[test]
fn test_searcher_end_to_end_with_index() {
    let index: whatever_find::FileIndex = vec![
        (String::from("main.rs"), vec![String::from("/a/main.rs")]),
        (String::from("lib.rs"), vec![String::from("/a/lib.rs")]),
        (String::from("README.md"), vec![String::from("/a/README.md")]),
    ];
    let searcher = FileSearcher::builder()
        .ignore_hidden(false)
        .clear_ignore_patterns()
        .case_sensitive(false)
        .build()
        .unwrap();

    let (results, mode) = searcher.search_auto_with_mode(&index, "*.rs").unwrap();
    assert_eq!(mode, SearchMode::Glob);
    assert_eq!(results, vec![String::from("/a/lib.rs"), String::from("/a/main.rs")]);

    let results = searcher.search(&index, "main", SearchMode::Substring).unwrap();
    assert_eq!(results, vec![String::from("/a/main.rs")]);

    let results = searcher.search(&index, r"\.rs$", SearchMode::Regex).unwrap();
    assert_eq!(results.len(), 2);

    let scored = searcher.search_fuzzy(&index, "man");
    assert!(scored.iter().any(|(p, s)| p == "/a/main.rs" && *s > 0));

    let results = searcher.search(&index, "man", SearchMode::Fuzzy).unwrap();
    assert_eq!(results.len(), scored.len());
}

#[test]
fn test_set_config_and_getter() {
    let mut searcher = FileSearcher::new();
    let mut config = Config::default();
    config.case_sensitive = true;
    searcher.set_config(config);
    assert!(searcher.config().case_sensitive);
}

#[test]
fn test_error_constructors() {
    let e = FileSearchError::io_error(String::from("denied"), String::from("reading"));
    assert!(matches!(e, FileSearchError::Io { .. }));
    let e = FileSearchError::io_error_with_path(
        String::from("denied"),
        String::from("reading"),
        String::from("/p"),
    );
    assert!(matches!(e, FileSearchError::Io { path: Some(_), .. }));
    let e = FileSearchError::walkdir_error(String::from("loop"), String::from("/root"));
    assert!(matches!(e, FileSearchError::WalkDir { .. }));
    let e = FileSearchError::empty_index(String::from("/root"));
    assert!(matches!(e, FileSearchError::EmptyIndex { .. }));
    let e = FileSearchError::invalid_query(String::from("empty"), String::from(""));
    assert!(matches!(e, FileSearchError::InvalidQuery { .. }));
    let e = FileSearchError::invalid_path(String::from("/p"), String::from("not unicode"));
    assert!(matches!(e, FileSearchError::InvalidPath { .. }));
    let e = FileSearchError::invalid_config(String::from("bad"));
    assert!(matches!(e, FileSearchError::InvalidConfig { .. }));
}
