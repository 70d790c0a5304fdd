use wxyc_etl::fuzzy::classify::{combined_key, LibraryIndex};

#[test]
fn test_library_index_from_pairs() {
    let pairs = vec![
        ("Juana Molina".to_string(), "DOGA".to_string()),
        ("Stereolab".to_string(), "Aluminum Tunes".to_string()),
        ("Cat Power".to_string(), "Moon Pix".to_string()),
    ];
    let index = LibraryIndex::from_pairs(&pairs);

    assert_eq!(index.exact_pairs.len(), 3);
    assert!(index.exact_pairs.contains(&("juana molina".into(), "doga".into())));
    assert!(index.exact_pairs.contains(&("stereolab".into(), "aluminum tunes".into())));
    assert!(index.exact_pairs.contains(&("cat power".into(), "moon pix".into())));
}

#[test]
fn test_library_index_all_artists_deduplicated() {
    let pairs = vec![
        ("Stereolab".to_string(), "Aluminum Tunes".to_string()),
        ("Stereolab".to_string(), "Dots and Loops".to_string()),
        ("Cat Power".to_string(), "Moon Pix".to_string()),
    ];
    let index = LibraryIndex::from_pairs(&pairs);

    assert_eq!(index.all_artists.len(), 2);
    assert!(index.all_artists.contains(&"cat power".to_string()));
    assert!(index.all_artists.contains(&"stereolab".to_string()));
}

#[test]
fn test_library_index_artist_to_titles() {
    let pairs = vec![
        ("Stereolab".to_string(), "Aluminum Tunes".to_string()),
        ("Stereolab".to_string(), "Dots and Loops".to_string()),
        ("Cat Power".to_string(), "Moon Pix".to_string()),
    ];
    let index = LibraryIndex::from_pairs(&pairs);

    let stereolab_titles = index.artist_to_titles.get("stereolab").unwrap();
    assert_eq!(stereolab_titles.len(), 2);
    assert!(stereolab_titles.contains(&"aluminum tunes".to_string()));
    assert!(stereolab_titles.contains(&"dots and loops".to_string()));
}

#[test]
fn test_library_index_combined_strings() {
    let pairs = vec![
        ("Cat Power".to_string(), "Moon Pix".to_string()),
    ];
    let index = LibraryIndex::from_pairs(&pairs);

    assert_eq!(index.combined_strings.len(), 1);
    assert_eq!(index.combined_strings[0], "cat power ||| moon pix");
}

#[test]
fn test_library_index_empty() {
    let pairs: Vec<(String, String)> = vec![];
    let index = LibraryIndex::from_pairs(&pairs);

    assert!(index.exact_pairs.is_empty());
    assert!(index.artist_to_titles.is_empty());
    assert!(index.combined_strings.is_empty());
    assert!(index.all_artists.is_empty());
}

fn build_test_index() -> LibraryIndex {
    let pairs = vec![
        ("Juana Molina".to_string(), "DOGA".to_string()),
        ("Stereolab".to_string(), "Aluminum Tunes".to_string()),
        ("Cat Power".to_string(), "Moon Pix".to_string()),
    ];
    LibraryIndex::from_pairs(&pairs)
}

// --- score_exact ---

#[test]
fn contains_exact_matches_normalized_pairs_only() {
    let index = LibraryIndex::from_pairs(&[
        ("Juana Molina".to_string(), "DOGA".to_string()),
        ("Stereolab".to_string(), "Aluminum Tunes".to_string()),
    ]);
    assert!(index.contains_exact("juana molina", "doga"));
    assert!(index.contains_exact("stereolab", "aluminum tunes"));
    assert!(!index.contains_exact("Juana Molina", "DOGA"));
    assert!(!index.contains_exact("juana molina", "aluminum tunes"));
    assert!(!index.contains_exact("", ""));
}

#[test]
fn combined_key_joins_with_separator() {
    assert_eq!(combined_key("stereolab", "dots and loops"), "stereolab ||| dots and loops");
    assert_eq!(combined_key("", ""), " ||| ");
}
