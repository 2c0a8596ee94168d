use whatever_find::config::Config;
use whatever_find::search::{SearchEngine, SearchMode};
use whatever_find::FileIndex;

fn test_config() -> Config {
    Config {
        ignore_hidden: false,
        ignore_patterns: vec![],
        case_sensitive: false,
        max_depth: None,
        max_file_size: None,
    }
}

fn test_index() -> FileIndex {
    vec![
        (String::from("main.rs"), vec![String::from("/a/main.rs")]),
        (String::from("lib.rs"), vec![String::from("/a/lib.rs")]),
        (String::from("README.md"), vec![String::from("/a/README.md")]),
    ]
}

fn test_index_reversed() -> FileIndex {
    vec![
        (String::from("README.md"), vec![String::from("/a/README.md")]),
        (String::from("lib.rs"), vec![String::from("/a/lib.rs")]),
        (String::from("main.rs"), vec![String::from("/a/main.rs")]),
    ]
}

#[test]
fn test_auto_detection_modes() {
    let engine = SearchEngine::new(test_config());
    assert_eq!(engine.detect_search_mode("*.rs"), SearchMode::Glob);
    assert_eq!(engine.detect_search_mode(r"\.toml$"), SearchMode::Regex);
    assert_eq!(engine.detect_search_mode("main"), SearchMode::Substring);
    assert_eq!(engine.detect_search_mode("test_*"), SearchMode::Glob);
    assert_eq!(engine.detect_search_mode("^test"), SearchMode::Regex);
    assert_eq!(engine.detect_search_mode("config.txt"), SearchMode::Substring);
}

#[test]
fn test_auto_detection_details() {
    let engine = SearchEngine::new(test_config());
    assert!(engine.looks_like_regex("^test"));
    assert!(engine.looks_like_regex("test$"));
    assert!(engine.looks_like_regex("[abc]"));
    assert!(engine.looks_like_regex("a{2}"));
    assert!(engine.looks_like_regex("a|b"));
    assert!(engine.looks_like_regex("(group)"));
    assert!(engine.looks_like_regex("ab+"));
    assert!(!engine.looks_like_regex("+ab"));
    assert!(!engine.looks_like_regex("main"));
    assert!(engine.looks_like_glob("*.rs"));
    assert!(engine.looks_like_glob("file?.txt"));
    assert!(!engine.looks_like_glob("main"));
    assert!(!engine.looks_like_glob(r"*\d"));
}

#[test]
fn test_search_auto_glob_scenario() {
    let engine = SearchEngine::new(test_config());
    let index = test_index();
    let (results, mode) = engine.search_auto_with_mode(&index, "*.rs").unwrap();
    assert_eq!(mode, SearchMode::Glob);
    assert_eq!(results, vec![String::from("/a/lib.rs"), String::from("/a/main.rs")]);
}

#[test]
fn test_search_substring_exact_hit() {
    let engine = SearchEngine::new(test_config());
    let index = test_index();
    let results = engine.search_substring(&index, "main");
    assert_eq!(results, vec![String::from("/a/main.rs")]);
}

#[test]
fn test_search_substring_empty_query_matches_all() {
    let engine = SearchEngine::new(test_config());
    let index = test_index();
    let results = engine.search_substring(&index, "");
    assert_eq!(results.len(), 3);
}

#[test]
fn test_search_regex_hits() {
    let engine = SearchEngine::new(test_config());
    let index = test_index();
    let results = engine.search_regex(&index, r".*\.rs$").unwrap();
    assert_eq!(results, vec![String::from("/a/lib.rs"), String::from("/a/main.rs")]);
}

#[test]
fn test_search_regex_invalid_pattern() {
    let engine = SearchEngine::new(test_config());
    let index = test_index();
    let result = engine.search_regex(&index, "[invalid");
    assert!(result.is_err());
    assert!(matches!(
        result,
        Err(whatever_find::FileSearchError::InvalidRegex { .. })
    ));
}

#[test]
fn test_search_glob_invalid_pattern() {
    let engine = SearchEngine::new(test_config());
    let index = test_index();
    let result = engine.search_glob(&index, "a**b***");
    assert!(matches!(
        result,
        Err(whatever_find::FileSearchError::InvalidGlob { .. })
    ));
}

#[test]
fn test_search_fuzzy_finds_close_match() {
    let engine = SearchEngine::new(test_config());
    let index = test_index();
    let results = engine.search_fuzzy(&index, "man");
    assert!(!results.is_empty());
    let found_main = results.iter().any(|(p, _)| p == "/a/main.rs");
    assert!(found_main, "fuzzy search for 'man' should reach /a/main.rs");
    for (_, score) in &results {
        assert!(*score > 0);
        assert!(*score <= whatever_find::score::SCORE_SCALE);
    }
    for w in results.windows(2) {
        assert!(w[0].1 >= w[1].1, "scores must never increase");
    }
}

#[test]
fn test_search_order_independent_of_index_order() {
    let engine = SearchEngine::new(test_config());
    let a = test_index();
    let b = test_index_reversed();
    assert_eq!(
        engine.search_substring(&a, ".rs"),
        engine.search_substring(&b, ".rs")
    );
    assert_eq!(
        engine.search_glob(&a, "*.rs").unwrap(),
        engine.search_glob(&b, "*.rs").unwrap()
    );
    assert_eq!(
        engine.search_regex(&a, r"\.rs$").unwrap(),
        engine.search_regex(&b, r"\.rs$").unwrap()
    );
    assert_eq!(engine.search_fuzzy(&a, "man"), engine.search_fuzzy(&b, "man"));
}

#[test]
fn test_search_idempotent() {
    let engine = SearchEngine::new(test_config());
    let index = test_index();
    assert_eq!(
        engine.search_substring(&index, "main"),
        engine.search_substring(&index, "main")
    );
    assert_eq!(
        engine.search_glob(&index, "*.rs").unwrap(),
        engine.search_glob(&index, "*.rs").unwrap()
    );
    assert_eq!(
        engine.search_regex(&index, r"\.rs$").unwrap(),
        engine.search_regex(&index, r"\.rs$").unwrap()
    );
    assert_eq!(
        engine.search_fuzzy(&index, "man"),
        engine.search_fuzzy(&index, "man")
    );
}

#[test]
fn test_case_sensitivity_substring() {
    let index = test_index();
    let insensitive = SearchEngine::new(test_config());
    let results = insensitive.search_substring(&index, "MAIN");
    assert_eq!(results.len(), 1);

    let mut config = test_config();
    config.case_sensitive = true;
    let sensitive = SearchEngine::new(config);
    let results = sensitive.search_substring(&index, "MAIN");
    assert_eq!(results.len(), 0);
}

#[test]
fn test_case_insensitive_glob_and_regex() {
    let engine = SearchEngine::new(test_config());
    let index = test_index();
    let results = engine.search_glob(&index, "*.MD").unwrap();
    assert_eq!(results, vec![String::from("/a/README.md")]);
    let results = engine.search_regex(&index, "readme").unwrap();
    assert_eq!(results, vec![String::from("/a/README.md")]);
}

#[test]
fn test_duplicate_filenames_keep_all_paths() {
    let engine = SearchEngine::new(test_config());
    let index: FileIndex = vec![(
        String::from("main.rs"),
        vec![String::from("/b/main.rs"), String::from("/a/main.rs")],
    )];
    let results = engine.search_substring(&index, "main");
    assert_eq!(results, vec![String::from("/a/main.rs"), String::from("/b/main.rs")]);
}
