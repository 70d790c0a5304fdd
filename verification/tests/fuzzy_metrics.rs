use wxyc_etl::fuzzy::metrics::{
    fuzz_counts, join_nonempty, lcs_length, levenshtein_counts, sorted_tokens, split_whitespace,
    token_set_strings, tokenize,
};
use wxyc_etl::fuzzy::order::{chars_lt, sort_strings};

fn chars(s: &str) -> Vec<char> {
    s.chars().collect()
}

fn fuzz_ratio(a: &str, b: &str) -> f64 {
    let (lcs, total) = fuzz_counts(a, b);
    if total == 0 {
        1.0
    } else {
        (2 * lcs) as f64 / total as f64
    }
}

fn token_sort_ratio(a: &str, b: &str) -> f64 {
    fuzz_ratio(&sorted_tokens(a), &sorted_tokens(b))
}

fn token_set_ratio(a: &str, b: &str) -> f64 {
    let parts = token_set_strings(a, b);
    if parts.first_empty && parts.second_empty {
        return 1.0;
    }
    if parts.first_empty || parts.second_empty {
        return 0.0;
    }
    let r1 = fuzz_ratio(&parts.intersection, &parts.combined1);
    let r2 = fuzz_ratio(&parts.intersection, &parts.combined2);
    let r3 = fuzz_ratio(&parts.combined1, &parts.combined2);
    r1.max(r2).max(r3)
}

#[test]
fn test_token_set_ratio_matches_rapidfuzz() {
    let cases: Vec<(&str, &str, f64)> = vec![
        ("juana molina", "juana molina", 1.0),
        ("duke ellington", "ellington duke", 1.0),
        ("fuzzy wuzzy", "fuzzy wuzzy was a bear", 1.0),
        ("juana molina", "molina juana", 1.0),
        ("duke ellington", "duke ellington john coltrane", 1.0),
        ("cat power", "cat power band", 1.0),
        ("abc def", "xyz uvw", 0.142857),
        ("autechre", "aphex twin", 0.333333),
        ("cat power", "dog power", 0.714286),
        ("sessa", "stereolab", 0.428571),
    ];
    for (s1, s2, expected) in cases {
        let actual = token_set_ratio(s1, s2);
        assert!(
            (actual - expected).abs() < 0.05,
            "token_set_ratio({:?}, {:?}): got {:.4}, expected {:.4}",
            s1,
            s2,
            actual,
            expected,
        );
    }
}

#[test]
fn test_token_sort_ratio_matches_rapidfuzz() {
    let cases: Vec<(&str, &str, f64)> = vec![
        ("the beatles", "beatles the", 1.0),
        ("juana molina", "molina juana", 1.0),
        ("cat power", "stereolab", 0.333333),
        ("duke ellington", "duke ellington john coltrane", 0.666667),
        ("cat power", "cat power band", 0.782609),
        ("stereolab", "stereolab reissue", 0.692308),
        ("jessica pratt", "jessica pratt live", 0.838710),
        ("abc def", "xyz uvw", 0.142857),
        ("cat power", "dog power", 0.666667),
    ];
    for (s1, s2, expected) in cases {
        let actual = token_sort_ratio(s1, s2);
        assert!(
            (actual - expected).abs() < 0.05,
            "token_sort_ratio({:?}, {:?}): got {:.4}, expected {:.4}",
            s1,
            s2,
            actual,
            expected,
        );
    }
}

#[test]
fn test_ranking_order_preserved() {
    let score_similar = token_set_ratio("cat power", "dog power");
    let score_different = token_set_ratio("cat power", "stereolab");
    assert!(score_similar > score_different);
}

#[test]
fn tokenize_splits_on_whitespace_and_lowercases() {
    assert_eq!(tokenize("  The  Beatles\tABBEY\nRoad "), vec!["the", "beatles", "abbey", "road"]);
    assert!(tokenize("   ").is_empty());
    assert_eq!(tokenize("ΣΟΦΟΣ"), vec!["σοφος"]);
}

#[test]
fn split_whitespace_handles_unicode_spaces() {
    assert_eq!(split_whitespace("a\u{3000}b\u{a0}c"), vec![chars("a"), chars("b"), chars("c")]);
}

#[test]
fn sorted_tokens_sorts_and_joins() {
    assert_eq!(sorted_tokens("the beatles"), "beatles the");
    assert_eq!(sorted_tokens("Zeta alpha Beta"), "alpha beta zeta");
    assert_eq!(sorted_tokens("b a a"), "a a b");
    assert_eq!(sorted_tokens(""), "");
}

#[test]
fn join_nonempty_skips_empty_parts() {
    assert_eq!(join_nonempty(&["a", "", "b"]), "a b");
    assert_eq!(join_nonempty(&["", ""]), "");
    assert_eq!(join_nonempty(&["only"]), "only");
}

#[test]
fn lcs_length_exact_values() {
    assert_eq!(lcs_length(&chars("abcde"), &chars("ace")), 3);
    assert_eq!(lcs_length(&chars(""), &chars("abc")), 0);
    assert_eq!(lcs_length(&chars("abc"), &chars("")), 0);
    assert_eq!(lcs_length(&chars("AGGTAB"), &chars("GXTXAYB")), 4);
    assert_eq!(lcs_length(&chars("abcbdab"), &chars("bdcaba")), 4);
    assert_eq!(lcs_length(&chars("cat power"), &chars("dog power")), 6);
}

#[test]
fn fuzz_counts_counts_characters() {
    assert_eq!(fuzz_counts("cat power", "cat power band"), (9, 23));
    assert_eq!(fuzz_counts("", ""), (0, 0));
    assert_eq!(fuzz_counts("é", "é"), (1, 2));
}

#[test]
fn token_set_strings_for_superset() {
    let p = token_set_strings("fuzzy wuzzy", "fuzzy wuzzy was a bear");
    assert!(!p.first_empty && !p.second_empty);
    assert_eq!(p.intersection, "fuzzy wuzzy");
    assert_eq!(p.combined1, "fuzzy wuzzy");
    assert_eq!(p.combined2, "fuzzy wuzzy a bear was");
}

#[test]
fn token_set_strings_with_no_overlap() {
    let p = token_set_strings("abc def", "xyz uvw");
    assert_eq!(p.intersection, "");
    assert_eq!(p.combined1, "abc def");
    assert_eq!(p.combined2, "uvw xyz");
    let e = token_set_strings("hello", "");
    assert!(!e.first_empty);
    assert!(e.second_empty);
}

#[test]
fn levenshtein_counts_distance_and_byte_length() {
    assert_eq!(levenshtein_counts("kitten", "sitting"), (3, 7));
    assert_eq!(levenshtein_counts("", ""), (0, 0));
    assert_eq!(levenshtein_counts("hello", ""), (5, 5));
    assert_eq!(levenshtein_counts("é", "e"), (1, 2));
}

#[test]
fn sort_strings_orders_by_code_point() {
    let v = vec![chars("b"), chars("ab"), chars("a"), chars("B"), chars("é")];
    let sorted = sort_strings(v);
    assert_eq!(sorted, vec![chars("B"), chars("a"), chars("ab"), chars("b"), chars("é")]);
    assert!(chars_lt(&chars("a"), &chars("ab")));
    assert!(!chars_lt(&chars("ab"), &chars("ab")));
}

#[test]
fn lcs_length_is_symmetric() {
    assert_eq!(lcs_length(&chars("abcbdab"), &chars("bdcaba")), 4);
    assert_eq!(lcs_length(&chars("bdcaba"), &chars("abcbdab")), 4);
}

#[test]
fn token_set_strings_are_symmetric() {
    let a = token_set_strings("The Beatles Abbey Road", "abbey road beatles remastered");
    let b = token_set_strings("abbey road beatles remastered", "The Beatles Abbey Road");
    assert_eq!(a.intersection, b.intersection);
    assert_eq!(a.combined1, b.combined2);
    assert_eq!(a.combined2, b.combined1);
    assert_eq!(a.first_empty, b.second_empty);
    assert_eq!(a.intersection, "abbey beatles road");
}
