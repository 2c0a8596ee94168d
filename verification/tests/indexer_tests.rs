use whatever_find::config::Config;
use whatever_find::indexer::file_walker::FileWalker;
use whatever_find::indexer::FileIndexer;
use whatever_find::search::matcher::{matches_name_pattern, MatchType, Matcher};

fn open_config() -> Config {
    Config {
        ignore_hidden: false,
        ignore_patterns: vec![],
        case_sensitive: false,
        max_depth: None,
        max_file_size: None,
    }
}

#[test]
fn test_build_index_groups_by_filename() {
    let indexer = FileIndexer::new(open_config());
    let files = vec![
        (String::from("main.rs"), String::from("/a/main.rs")),
        (String::from("lib.rs"), String::from("/a/lib.rs")),
        (String::from("main.rs"), String::from("/b/main.rs")),
    ];
    let index = indexer.build_index(&files);
    assert_eq!(index.len(), 2);
    assert_eq!(index[0].0, "main.rs");
    assert_eq!(index[0].1, vec![String::from("/a/main.rs"), String::from("/b/main.rs")]);
    assert_eq!(index[1].0, "lib.rs");
}

#[test]
fn test_build_index_folds_keys_when_insensitive() {
    let indexer = FileIndexer::new(open_config());
    let files = vec![
        (String::from("README.md"), String::from("/a/README.md")),
        (String::from("readme.MD"), String::from("/b/readme.MD")),
    ];
    let index = indexer.build_index(&files);
    assert_eq!(index.len(), 1);
    assert_eq!(index[0].0, "readme.md");
    assert_eq!(index[0].1.len(), 2);
}

#[test]
fn test_build_index_keeps_keys_when_sensitive() {
    let mut config = open_config();
    config.case_sensitive = true;
    let indexer = FileIndexer::new(config);
    let files = vec![
        (String::from("README.md"), String::from("/a/README.md")),
        (String::from("readme.MD"), String::from("/b/readme.MD")),
    ];
    let index = indexer.build_index(&files);
    assert_eq!(index.len(), 2);
}

#[test]
fn test_should_ignore_hidden() {
    let mut config = open_config();
    config.ignore_hidden = true;
    let indexer = FileIndexer::new(config);
    assert!(indexer.should_ignore(".hidden", "/a/.hidden"));
    assert!(!indexer.should_ignore("visible", "/a/visible"));
}

#[test]
fn test_should_ignore_patterns() {
    let mut config = open_config();
    config.ignore_patterns = vec![String::from("*.tmp"), String::from("target")];
    let indexer = FileIndexer::new(config);
    assert!(indexer.should_ignore("scratch.tmp", "/a/scratch.tmp"));
    assert!(indexer.should_ignore("target", "/a/target"));
    assert!(indexer.should_ignore("main.rs", "/a/target/main.rs"));
    assert!(!indexer.should_ignore("main.rs", "/a/src/main.rs"));
}

#[test]
fn test_walker_skips_oversized_files() {
    let mut config = open_config();
    config.max_file_size = Some(100);
    assert!(FileWalker::should_skip_entry_with_config(
        "big.bin",
        "/a/big.bin",
        true,
        Some(101),
        &config
    ));
    assert!(!FileWalker::should_skip_entry_with_config(
        "small.bin",
        "/a/small.bin",
        true,
        Some(100),
        &config
    ));
    assert!(!FileWalker::should_skip_entry_with_config(
        "dir",
        "/a/dir",
        false,
        None,
        &config
    ));
}

#[test]
fn test_walker_new_copies_config() {
    let mut config = open_config();
    config.ignore_patterns = vec![String::from("*.log")];
    let walker = FileWalker::new(&config);
    assert_eq!(walker.config.ignore_patterns, config.ignore_patterns);
}

#[test]
fn test_matcher_modes() {
    let exact = Matcher::new(MatchType::Exact, false);
    assert!(exact.matches("Main.RS", "main.rs"));
    assert!(!exact.matches("main.rs", "main"));

    let substring = Matcher::new(MatchType::Substring, false);
    assert!(substring.matches("main.rs", "AIN"));
    assert!(!substring.matches("main.rs", "xyz"));

    let fuzzy = Matcher::new(MatchType::Fuzzy, false);
    assert!(fuzzy.matches("main.rs", "man"));
    assert!(!fuzzy.matches("abc", "xyz"));

    let unready = Matcher::new(MatchType::Regex, false);
    assert!(!unready.matches("main.rs", "main"));
}

#[test]
fn test_matcher_with_regex() {
    let m = Matcher::with_regex(r"\.rs$", false).unwrap();
    assert!(m.matches("main.rs", "ignored"));
    assert!(!m.matches("README.md", "ignored"));
    assert!(Matcher::with_regex("[bad", false).is_err());
}

#[test]
fn test_matcher_regex_inline_flag() {
    let m = Matcher::with_regex("readme", false).unwrap();
    assert!(m.matches("README.md", ""));
    let m = Matcher::with_regex("readme", true).unwrap();
    assert!(!m.matches("README.md", ""));
}

#[test]
fn test_matcher_fuzzy_score_values() {
    let fuzzy = Matcher::new(MatchType::Fuzzy, false);
    assert_eq!(
        fuzzy.fuzzy_score("main.rs", "main.rs"),
        whatever_find::score::SCORE_SCALE
    );
    assert_eq!(fuzzy.fuzzy_score("main.rs", "main"), 800_000);
    assert!(fuzzy.fuzzy_score("main.rs", "man") > 0);
    assert_eq!(fuzzy.fuzzy_score("abc", "xyz"), 0);

    let substring = Matcher::new(MatchType::Substring, false);
    assert_eq!(
        substring.fuzzy_score("main.rs", "main"),
        whatever_find::score::SCORE_SCALE
    );
    assert_eq!(substring.fuzzy_score("main.rs", "xyz"), 0);
}

#[test]
fn test_matches_name_pattern() {
    assert!(matches_name_pattern("main.rs", "*.rs"));
    assert!(!matches_name_pattern("main.rs", "*.md"));
    assert!(matches_name_pattern("main.rs", "main"));
    assert!(!matches_name_pattern("main.rs", "lib"));
    assert!(matches_name_pattern("file1.txt", "file?.txt"));
}

#[test]
fn test_config_manager_defaults() {
    let manager = whatever_find::settings::ConfigManager::new(
        String::from("/home/u/.config/whatever-find/config.json"),
        None,
    );
    assert_eq!(manager.config().max_depth, None);
    assert!(manager.config().ignore_hidden);

    let mut custom = Config::default();
    custom.case_sensitive = true;
    let manager = whatever_find::settings::ConfigManager::new(String::from("c.json"), Some(custom));
    assert!(manager.config().case_sensitive);
}
