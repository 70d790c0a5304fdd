use wxyc_etl::text::split::{split_artist_name, split_artist_name_contextual};

// --- split_artist_name (context-free) ---

#[test]
fn test_comma_split() {
    assert_eq!(
        split_artist_name("Mike Vainio, Ryoji, Alva Noto"),
        Some(vec!["Mike Vainio".into(), "Ryoji".into(), "Alva Noto".into()])
    );
}

#[test]
fn test_plus_split() {
    assert_eq!(
        split_artist_name("Mika Vainio + Ryoji Ikeda + Alva Noto"),
        Some(vec!["Mika Vainio".into(), "Ryoji Ikeda".into(), "Alva Noto".into()])
    );
}

#[test]
fn test_slash_split() {
    assert_eq!(
        split_artist_name("J Dilla / Jay Dee"),
        Some(vec!["J Dilla".into(), "Jay Dee".into()])
    );
}

#[test]
fn test_plus_deduplicates() {
    assert_eq!(
        split_artist_name("David + David"),
        Some(vec!["David".into()])
    );
}

#[test]
fn test_numeric_comma_guard() {
    assert_eq!(split_artist_name("10,000 Maniacs"), None);
}

#[test]
fn test_trailing_and_stripped() {
    assert_eq!(
        split_artist_name("Emerson, Lake, and Palmer"),
        Some(vec!["Emerson".into(), "Lake".into(), "Palmer".into()])
    );
}

#[test]
fn test_trailing_ampersand_kept_without_context() {
    assert_eq!(
        split_artist_name("Crosby, Stills, Nash & Young"),
        Some(vec!["Crosby".into(), "Stills".into(), "Nash & Young".into()])
    );
}

#[test]
fn test_no_split_on_and() {
    assert_eq!(split_artist_name("Andy Human and the Reptoids"), None);
}

#[test]
fn test_no_split_on_with() {
    assert_eq!(split_artist_name("Nurse with Wound"), None);
}

#[test]
fn test_single_char_filtered() {
    assert_eq!(split_artist_name("A + B"), None);
}

#[test]
fn test_no_delimiter() {
    assert_eq!(split_artist_name("Autechre"), None);
}

#[test]
fn test_empty_string() {
    assert_eq!(split_artist_name(""), None);
}

#[test]
fn test_whitespace_trimmed() {
    assert_eq!(
        split_artist_name("  Cat Power  /  Liz Phair  "),
        Some(vec!["Cat Power".into(), "Liz Phair".into()])
    );
}

#[test]
fn test_does_not_split_ampersand_alone() {
    assert_eq!(split_artist_name("Duke Ellington & John Coltrane"), None);
}

#[test]
fn test_comma_with_short_numeric_component() {
    assert_eq!(split_artist_name("808,303"), None);
}

#[test]
fn test_fred_hopkins_slash() {
    assert_eq!(
        split_artist_name("Fred Hopkins / Dierdre Murray"),
        Some(vec!["Fred Hopkins".into(), "Dierdre Murray".into()])
    );
}

#[test]
fn test_1000_homo_djs() {
    assert_eq!(split_artist_name("1,000 Homo DJs"), None);
}

// --- split_artist_name_contextual ---

#[test]
fn test_contextual_ampersand_with_known_artist() {
    let known: Vec<String> = ["duke ellington"].iter().map(|s| s.to_string()).collect();
    assert_eq!(
        split_artist_name_contextual("Duke Ellington & John Coltrane", &known),
        Some(vec!["Duke Ellington".into(), "John Coltrane".into()])
    );
}

#[test]
fn test_contextual_ampersand_without_known_artist() {
    let known: Vec<String> = Vec::new();
    assert_eq!(
        split_artist_name_contextual("Simon & Garfunkel", &known),
        None
    );
}

#[test]
fn test_contextual_ampersand_second_component_known() {
    let known: Vec<String> = ["john coltrane"].iter().map(|s| s.to_string()).collect();
    assert_eq!(
        split_artist_name_contextual("Duke Ellington & John Coltrane", &known),
        Some(vec!["Duke Ellington".into(), "John Coltrane".into()])
    );
}

#[test]
fn test_contextual_context_free_splits_still_work() {
    let known: Vec<String> = Vec::new();
    assert_eq!(
        split_artist_name_contextual("J Dilla / Jay Dee", &known),
        Some(vec!["J Dilla".into(), "Jay Dee".into()])
    );
}

#[test]
fn test_contextual_13_and_god() {
    let known: Vec<String> = ["god"].iter().map(|s| s.to_string()).collect();
    assert_eq!(
        split_artist_name_contextual("13 & God", &known),
        Some(vec!["13".into(), "God".into()])
    );
}

#[test]
fn test_contextual_known_artists_normalized() {
    let known: Vec<String> = ["bjork"].iter().map(|s| s.to_string()).collect();
    assert_eq!(
        split_artist_name_contextual("Björk & Thom Yorke", &known),
        Some(vec!["Björk".into(), "Thom Yorke".into()])
    );
}

#[test]
fn test_contextual_mixed_comma_and_ampersand() {
    let known: Vec<String> = ["young"].iter().map(|s| s.to_string()).collect();
    assert_eq!(
        split_artist_name_contextual("Crosby, Stills, Nash & Young", &known),
        Some(vec!["Crosby".into(), "Stills".into(), "Nash".into(), "Young".into()])
    );
}

#[test]
fn test_contextual_mixed_comma_and_ampersand_no_known() {
    let known: Vec<String> = Vec::new();
    assert_eq!(
        split_artist_name_contextual("Crosby, Stills, Nash & Young", &known),
        Some(vec!["Crosby".into(), "Stills".into(), "Nash & Young".into()])
    );
}

#[test]
fn test_contextual_band_names_not_split_sly() {
    let known: Vec<String> = ["sly"].iter().map(|s| s.to_string()).collect();
    assert_eq!(
        split_artist_name_contextual("Sly and the Family Stone", &known),
        None
    );
}

#[test]
fn test_contextual_band_names_not_split_nurse() {
    let known: Vec<String> = ["nurse"].iter().map(|s| s.to_string()).collect();
    assert_eq!(
        split_artist_name_contextual("Nurse with Wound", &known),
        None
    );
}

#[test]
fn split_components_are_trimmed_and_distinct() {
    assert_eq!(
        split_artist_name("  Mika Vainio ,  Mika Vainio , Alva Noto "),
        Some(vec!["Mika Vainio".to_string(), "Alva Noto".to_string()])
    );
}

#[test]
fn contextual_split_deduplicates_expanded_components() {
    let known = vec!["baz".to_string()];
    assert_eq!(
        split_artist_name_contextual("Foo, Bar & Baz, Bar", &known),
        Some(vec!["Foo".to_string(), "Bar".to_string(), "Baz".to_string()])
    );
}

#[test]
fn blank_name_does_not_split() {
    assert_eq!(split_artist_name("  \t "), None);
}

#[test]
fn contextual_split_without_known_artists_is_plain_split() {
    let none: Vec<String> = vec![];
    for name in ["J Dilla / Jay Dee", "Simon & Garfunkel", "10,000 Maniacs", "Emerson, Lake, and Palmer"] {
        assert_eq!(split_artist_name_contextual(name, &none), split_artist_name(name));
    }
}

#[test]
fn split_components_occur_in_the_name() {
    for name in ["Mike Vainio, Ryoji, Alva Noto", "Emerson, Lake, and Palmer", " J Dilla / Jay Dee ", "A + B + A"] {
        for part in split_artist_name(name).unwrap() {
            assert!(name.contains(part.as_str()), "{part:?} not in {name:?}");
        }
    }
}
