use wxyc_etl::text::folds::apply_folds;

#[test]
fn folds_final_sigma_to_medial() {
    assert_eq!(apply_folds("\u{03C2}"), "\u{03C3}");
}

#[test]
fn folds_ae_ligature_to_ae() {
    assert_eq!(apply_folds("\u{00E6}"), "ae");
    assert_eq!(apply_folds("encyclop\u{00E6}dia"), "encyclopaedia");
}

#[test]
fn folds_oe_ligature_to_oe() {
    assert_eq!(apply_folds("\u{0153}"), "oe");
    assert_eq!(apply_folds("c\u{0153}ur"), "coeur");
}

#[test]
fn preserves_polish_l_with_stroke() {
    // Non-fold: ł stays ł.
    assert_eq!(apply_folds("\u{0142}ukasz"), "\u{0142}ukasz");
}

#[test]
fn preserves_norwegian_o_with_stroke() {
    assert_eq!(apply_folds("\u{00F8}ster"), "\u{00F8}ster");
}

#[test]
fn preserves_turkish_dotless_i() {
    assert_eq!(apply_folds("a\u{0131}"), "a\u{0131}");
}

#[test]
fn passes_through_when_no_trigger() {
    // Fast path: no allocation expected, but we only assert equality.
    assert_eq!(apply_folds("stereolab"), "stereolab");
    assert_eq!(apply_folds(""), "");
    assert_eq!(
        apply_folds("\u{03C3}\u{03C4}\u{03B5}\u{03BB}\u{03BB}\u{03B1}"),
        "\u{03C3}\u{03C4}\u{03B5}\u{03BB}\u{03BB}\u{03B1}"
    );
}

#[test]
fn passes_through_medial_sigma() {
    // Medial sigma is the canonical bucket; no trigger.
    assert_eq!(apply_folds("\u{03C3}"), "\u{03C3}");
}
