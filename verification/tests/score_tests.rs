use whatever_find::score::{
    fuzzy_score_scaled, levenshtein_distance, levenshtein_score_scaled, ngram_score_scaled,
    subsequence_score_scaled, SCORE_SCALE,
};
use whatever_find::text::chars_of;

#[test]
fn test_score_self_is_unit() {
    assert_eq!(fuzzy_score_scaled("main.rs", "main.rs", false), SCORE_SCALE);
    assert_eq!(fuzzy_score_scaled("main.rs", "main.rs", true), SCORE_SCALE);
    assert_eq!(fuzzy_score_scaled("", "", false), SCORE_SCALE);
    assert_eq!(fuzzy_score_scaled("MAIN.RS", "main.rs", false), SCORE_SCALE);
}

#[test]
fn test_score_substring_band() {
    let s = fuzzy_score_scaled("main.rs", "main", false);
    assert!(s >= 800_000 && s <= 900_000, "substring score was {}", s);
    let s = fuzzy_score_scaled("a_very_long_filename.txt", "name", false);
    assert!(s >= 800_000 && s <= 900_000, "substring score was {}", s);
}

#[test]
fn test_score_substring_exact_value() {
    // 0.9 less (7 - 4) / 7 of 0.1, in fixed point, rounded down.
    let s = fuzzy_score_scaled("main.rs", "main", false);
    assert_eq!(s as i64, 900_000 - (3 * 100_000) / 7);
}

#[test]
fn test_score_range_always() {
    let pairs = [
        ("", "query"),
        ("filename", ""),
        ("abc", "xyz"),
        ("main.rs", "man"),
        ("kitten", "sitting"),
        ("a", "b"),
    ];
    for (f, q) in pairs {
        for cs in [false, true] {
            let s = fuzzy_score_scaled(f, q, cs);
            assert!(s <= SCORE_SCALE, "score({:?},{:?}) out of range: {}", f, q, s);
        }
    }
}

#[test]
fn test_levenshtein_distance_values() {
    let d = levenshtein_distance(&chars_of("kitten"), &chars_of("sitting"));
    assert_eq!(d, 3);
    let d = levenshtein_distance(&chars_of("abc"), &chars_of("abc"));
    assert_eq!(d, 0);
    let d = levenshtein_distance(&chars_of(""), &chars_of("abc"));
    assert_eq!(d, 3);
    let d = levenshtein_distance(&chars_of("main.rs"), &chars_of("man"));
    assert_eq!(d, 4);
}

#[test]
fn test_levenshtein_component_values() {
    // 1 - 3/7 in fixed point, rounded down.
    let s = levenshtein_score_scaled(&chars_of("kitten"), &chars_of("sitting"));
    assert_eq!(s, (4 * SCORE_SCALE) / 7);
    assert_eq!(levenshtein_score_scaled(&chars_of(""), &chars_of("")), SCORE_SCALE);
    assert_eq!(levenshtein_score_scaled(&chars_of("x"), &chars_of("")), 0);
}

#[test]
fn test_subsequence_component_values() {
    // "man" in "main.rs": runs of 2 and 1, raw tenths 34, coverage
    // 34/70, completeness 1, consecutiveness 2/3, blended 4:4:2.
    let s = subsequence_score_scaled(&chars_of("main.rs"), &chars_of("man"));
    let cov = (34 * SCORE_SCALE) / 70;
    let cons = (2 * SCORE_SCALE) / 3;
    assert_eq!(s, (4 * cov + 4 * SCORE_SCALE + 2 * cons) / 10);
    // An empty query is vacuously complete.
    assert_eq!(subsequence_score_scaled(&chars_of("abc"), &chars_of("")), SCORE_SCALE);
    // A query not present in order scores nothing.
    assert_eq!(subsequence_score_scaled(&chars_of("abc"), &chars_of("ca")), 0);
}

#[test]
fn test_ngram_component_values() {
    // Windows of "main.rs" and "man" share only "ma": 1 of max(6, 2).
    let s = ngram_score_scaled(&chars_of("main.rs"), &chars_of("man"));
    assert_eq!(s, SCORE_SCALE / 6);
    assert_eq!(ngram_score_scaled(&chars_of("ab"), &chars_of("ab")), SCORE_SCALE);
    assert_eq!(ngram_score_scaled(&chars_of(""), &chars_of("")), SCORE_SCALE);
    assert_eq!(ngram_score_scaled(&chars_of(""), &chars_of("ab")), 0);
    assert_eq!(ngram_score_scaled(&chars_of("a"), &chars_of("a")), SCORE_SCALE);
    // Repeated windows count once: "aaab" has the distinct windows
    // "aa" and "ab", of which "aa" shares its one window.
    assert_eq!(ngram_score_scaled(&chars_of("aaab"), &chars_of("aa")), SCORE_SCALE / 2);
}

#[test]
fn test_fuzzy_combined_value() {
    // "man" against "main.rs" is no substring, so the components blend.
    let lev = levenshtein_score_scaled(&chars_of("main.rs"), &chars_of("man"));
    let sub = subsequence_score_scaled(&chars_of("main.rs"), &chars_of("man"));
    let ng = ngram_score_scaled(&chars_of("main.rs"), &chars_of("man"));
    let expected = (4 * lev + 4 * sub + 2 * ng) / 10;
    assert!(expected >= 300_000);
    assert_eq!(fuzzy_score_scaled("main.rs", "man", false), expected);
}

#[test]
fn test_fuzzy_weak_match_floors_to_zero() {
    assert_eq!(fuzzy_score_scaled("abc", "xyz", false), 0);
    assert_eq!(fuzzy_score_scaled("readme.md", "zq", false), 0);
}

#[test]
fn test_case_folding_reaches_scores() {
    // Case-insensitive scoring folds both sides before comparing.
    let s = fuzzy_score_scaled("MAIN.RS", "main", false);
    assert!(s >= 800_000 && s <= 900_000);
    // Under the case-sensitive policy the same pair is no substring hit.
    let s = fuzzy_score_scaled("MAIN.RS", "main", true);
    assert!(s < 800_000);
}
