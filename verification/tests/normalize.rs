use wxyc_etl::text::normalize::{normalize_artist_name, normalize_title, strip_diacritics};

// --- normalize_artist_name ---

#[test]
fn test_normalize_lowercase() {
    assert_eq!(normalize_artist_name("Stereolab"), "stereolab");
}

#[test]
fn test_normalize_strip_spaces() {
    assert_eq!(normalize_artist_name("  Stereolab  "), "stereolab");
}

#[test]
fn test_normalize_all_caps() {
    assert_eq!(normalize_artist_name("STEREOLAB"), "stereolab");
}

#[test]
fn test_normalize_mixed_case_strip() {
    assert_eq!(normalize_artist_name("  Mixed Case  "), "mixed case");
}

#[test]
fn test_normalize_empty() {
    assert_eq!(normalize_artist_name(""), "");
}

#[test]
fn test_normalize_nilufer_yanya() {
    assert_eq!(normalize_artist_name("Nilüfer Yanya"), "nilufer yanya");
}

#[test]
fn test_normalize_csillagrablok() {
    assert_eq!(normalize_artist_name("Csillagrablók"), "csillagrablok");
}

#[test]
fn test_normalize_motorhead() {
    assert_eq!(normalize_artist_name("Motörhead"), "motorhead");
}

#[test]
fn test_normalize_husker_du() {
    assert_eq!(normalize_artist_name("Hüsker Dü"), "husker du");
}

#[test]
fn test_normalize_hermanos_gutierrez() {
    assert_eq!(
        normalize_artist_name("Hermanos Gutiérrez"),
        "hermanos gutierrez"
    );
}

#[test]
fn test_normalize_zoe() {
    assert_eq!(normalize_artist_name("Zoé"), "zoe");
}

// --- trim optimization paths ---

#[test]
fn test_normalize_trim_no_extra_alloc() {
    assert_eq!(normalize_artist_name("Stereolab"), "stereolab");
}

#[test]
fn test_normalize_trim_leading_space() {
    assert_eq!(normalize_artist_name("  Nilüfer Yanya"), "nilufer yanya");
}

#[test]
fn test_normalize_trim_trailing_space() {
    assert_eq!(
        normalize_artist_name("Hermanos Gutiérrez  "),
        "hermanos gutierrez"
    );
}

// --- strip_diacritics: preserves case and whitespace ---

#[test]
fn test_strip_diacritics_preserves_case() {
    assert_eq!(strip_diacritics("Nilüfer Yanya"), "Nilufer Yanya");
}

#[test]
fn test_strip_diacritics_preserves_whitespace() {
    assert_eq!(
        strip_diacritics("  Hermanos Gutiérrez  "),
        "  Hermanos Gutierrez  "
    );
}

#[test]
fn test_strip_diacritics_no_change() {
    assert_eq!(strip_diacritics("Stereolab"), "Stereolab");
}

#[test]
fn test_strip_diacritics_empty() {
    assert_eq!(strip_diacritics(""), "");
}

// --- normalize_title delegates to same logic ---

#[test]
fn test_normalize_title_lowercase_and_diacritics() {
    assert_eq!(normalize_title("Hermanos Gutiérrez"), "hermanos gutierrez");
    assert_eq!(normalize_title("  Sugar Hill  "), "sugar hill");
    assert_eq!(normalize_title("Aluminum Tunes"), "aluminum tunes");
}

// --- Greek sigma fold (WXYC/library-metadata-lookup#168) ---
// Final-form sigma U+03C2 (ς) and medial-form sigma U+03C3 (σ) are
// positional variants of the same letter and must hash to the same
// normalized bucket.

#[test]
fn test_normalize_folds_final_sigma_to_medial() {
    assert_eq!(normalize_artist_name("\u{03C2}"), "\u{03C3}");
}

#[test]
fn test_normalize_capital_sigma_lowercases_to_medial() {
    assert_eq!(normalize_artist_name("\u{03A3}"), "\u{03C3}");
}

#[test]
fn test_normalize_greek_word_sigma_variants_collide() {
    let final_form = "Στελλάς";
    let medial_form = "Στελλάσ";
    assert_eq!(
        normalize_artist_name(final_form),
        normalize_artist_name(medial_form)
    );
}

#[test]
fn test_strip_diacritics_folds_final_sigma_to_medial() {
    assert_eq!(strip_diacritics("\u{03C2}"), "\u{03C3}");
}

#[test]
fn test_strip_diacritics_preserves_capital_sigma() {
    assert_eq!(strip_diacritics("\u{03A3}"), "\u{03A3}");
}

#[test]
fn normalize_trims_all_whitespace() {
    assert_eq!(normalize_artist_name("Stereolab\t"), "stereolab");
    assert_eq!(normalize_artist_name("\u{1f} Stereolab \n"), "stereolab");
}
