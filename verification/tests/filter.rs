use wxyc_etl::text::filter::{parse_u64, text_lines, ArtistFilter, TitleFilter};

// --- TitleFilter ---

#[test]
fn test_title_filter_from_file() {
    let filter = TitleFilter::from_text("Sugar Hill\nOK Computer\n  Café Tacvba  \n\n");
    assert_eq!(filter.len(), 3);
    assert!(filter.matches("Sugar Hill"));
    assert!(filter.matches("ok computer"));
    assert!(filter.matches("Café Tacvba"));
    assert!(!filter.matches("Unknown Album"));
}

#[test]
fn test_title_filter_exact_match() {
    let filter = TitleFilter::from_text("Sugar Hill\n");
    assert!(filter.matches("Sugar Hill"));
    assert!(filter.matches("sugar hill"));
    assert!(filter.matches("SUGAR HILL"));
    assert!(!filter.matches("Sugar Hill Records"));
}

#[test]
fn test_title_filter_bracket_suffix_stripping() {
    let filter = TitleFilter::from_text("Sublime Frequencies\nSugar Hill\n");
    assert!(filter.matches("Sublime Frequencies"));
    assert!(filter.matches("Sublime Frequencies [SF044]"));
    assert!(filter.matches("Sugar Hill [Remastered]"));
    assert!(!filter.matches("Unknown Album [Deluxe]"));
}

#[test]
fn test_title_filter_empty() {
    let filter = TitleFilter::from_text("\n\n");
    assert!(filter.is_empty());
    assert!(!filter.matches("Anything"));
}

#[test]
fn title_filter_bracket_only_title_does_not_match_empty() {
    let filter = TitleFilter::from_text("Sugar Hill\n");
    assert!(!filter.matches("[Remastered]"));
    assert!(!filter.matches("   [Live]"));
}

#[test]
fn title_filter_uses_last_bracket() {
    let filter = TitleFilter::from_text("A [B]\n");
    assert!(filter.matches("A [B] [C]"));
    assert!(!filter.matches("A [C] [D]"));
}

// --- ArtistFilter ---

#[test]
fn test_artist_filter_from_file() {
    let filter = ArtistFilter::from_text("Stereolab\nNilüfer Yanya\n  Yo La Tengo  \n\n");
    assert_eq!(filter.len(), 3);
    assert!(filter.matches_any(&["Stereolab"]));
    assert!(filter.matches_any(&["Nilüfer Yanya"]));
    assert!(filter.matches_any(&["yo la tengo"]));
    assert!(!filter.matches_any(&["Unknown Artist"]));
}

#[test]
fn test_artist_filter_matches_any() {
    let filter = ArtistFilter::from_text("Stereolab\nNilüfer Yanya\n");
    assert!(filter.matches_any(&["Unknown", "Stereolab"]));
    assert!(!filter.matches_any(&["Unknown", "Other"]));
}

#[test]
fn test_load_aliases_and_match() {
    let mut filter = ArtistFilter::from_text("Madlib\n");
    let rows = [
        ("123", "Quasimoto"),
        ("123", "Madlib"),
        ("123", "Lord Quas"),
        ("123", "DJ Rels"),
    ];
    let mut count = 0;
    for (id, alias) in rows {
        if filter.add_alias_record(id, alias) {
            count += 1;
        }
    }
    assert_eq!(count, 4);
    assert!(filter.has_aliases());

    assert!(!filter.matches_any(&["Quasimoto"]));
    assert!(filter.matches_any_with_ids(&[(123, "Quasimoto")]));

    assert!(!filter.matches_any_with_ids(&[(999, "Unknown")]));
}

#[test]
fn test_matches_any_with_ids_canonical_name_still_works() {
    let filter = ArtistFilter::from_text("Stereolab\n");
    assert!(filter.matches_any_with_ids(&[(300, "Stereolab")]));
    assert!(!filter.matches_any_with_ids(&[(300, "Unknown")]));
}

#[test]
fn alias_records_skip_empty_names_and_default_bad_ids() {
    let mut filter = ArtistFilter::from_text("Madlib\n");
    assert!(!filter.add_alias_record("7", "   "));
    assert!(!filter.has_aliases());
    assert!(filter.add_alias_record("not-a-number", "Madlib"));
    assert!(filter.matches_any_with_ids(&[(0, "Someone Else")]));
}

#[test]
fn duplicate_lines_count_once() {
    let filter = ArtistFilter::from_text("Stereolab\nstereolab\n STEREOLAB \n");
    assert_eq!(filter.len(), 1);
}

#[test]
fn text_lines_follow_str_lines() {
    assert_eq!(text_lines("a\nb"), vec!["a", "b"]);
    assert_eq!(text_lines("a\r\nb\r\n"), vec!["a", "b"]);
    assert_eq!(text_lines("a\n\n"), vec!["a", ""]);
    assert!(text_lines("").is_empty());
    assert_eq!(text_lines("\n"), vec![""]);
}

#[test]
fn parse_u64_reads_fields_like_str_parse() {
    use_parse();
}

fn use_parse() {
    for s in ["42", "+7", "", "+", "-1", "18446744073709551615", "18446744073709551616", " 1", "007", "1a"] {
        assert_eq!(parse_u64(s), s.parse::<u64>().ok(), "field {s:?}");
    }
    assert_eq!(parse_u64("+007"), Some(7));
}
