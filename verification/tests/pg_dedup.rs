use wxyc_etl::pg::dedup::{ArtistDedup, DedupSet, LabelDedup, TrackArtistDedup};
#[test]
fn test_first_insert_returns_true() {
    let mut dedup = DedupSet::<(u64, String)>::new();
    assert!(dedup.insert((1, "Autechre".to_string())));
}

#[test]
fn test_duplicate_returns_false() {
    let mut dedup = DedupSet::<(u64, String)>::new();
    dedup.insert((1, "Autechre".to_string()));
    assert!(!dedup.insert((1, "Autechre".to_string())));
}

#[test]
fn test_different_keys_both_true() {
    let mut dedup = DedupSet::<(u64, String)>::new();
    assert!(dedup.insert((1, "Autechre".to_string())));
    assert!(dedup.insert((1, "Stereolab".to_string())));
}

#[test]
fn test_len_and_is_empty() {
    let mut dedup = DedupSet::<u32>::new();
    assert!(dedup.is_empty());
    assert_eq!(dedup.len(), 0);
    dedup.insert(1);
    assert!(!dedup.is_empty());
    assert_eq!(dedup.len(), 1);
    dedup.insert(1); // duplicate
    assert_eq!(dedup.len(), 1);
}

#[test]
fn test_artist_dedup() {
    let mut dedup = ArtistDedup::new();
    assert!(dedup.insert((1001, "Autechre".to_string())));
    assert!(dedup.insert((1001, "Boards of Canada".to_string())));
    assert!(!dedup.insert((1001, "Autechre".to_string())));
    // Same artist, different release
    assert!(dedup.insert((1002, "Autechre".to_string())));
}

#[test]
fn test_track_artist_dedup() {
    let mut dedup = TrackArtistDedup::new();
    assert!(dedup.insert((1001, 1, "Autechre".to_string())));
    assert!(dedup.insert((1001, 2, "Autechre".to_string())));
    assert!(!dedup.insert((1001, 1, "Autechre".to_string())));
    assert!(dedup.insert((1001, 1, "Boards of Canada".to_string())));
}

#[test]
fn test_label_dedup() {
    let mut dedup = LabelDedup::new();
    assert!(dedup.insert((1001, "Warp".to_string())));
    assert!(dedup.insert((1001, "4AD".to_string())));
    assert!(!dedup.insert((1001, "Warp".to_string())));
    assert!(dedup.insert((1002, "Warp".to_string())));
}
