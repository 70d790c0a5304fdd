use wxyc_etl::text::mojibake::fix_mojibake;

// --- The WX-1 mojibake_known fix-pairs (copied here so unit-test
// failures are diagnosable without loading the corpus). ---

#[test]
fn fixes_latin_e_acute() {
    assert_eq!(fix_mojibake("Ã©"), "é");
}

#[test]
fn fixes_latin_n_tilde() {
    assert_eq!(fix_mojibake("Ã±"), "ñ");
}

#[test]
fn fixes_latin_o_diaeresis() {
    assert_eq!(fix_mojibake("Ã¶"), "ö");
}

#[test]
fn fixes_latin_u_diaeresis() {
    assert_eq!(fix_mojibake("Ã¼"), "ü");
}

#[test]
fn fixes_greek_capital_sigma() {
    assert_eq!(fix_mojibake("Î£tella"), "Σtella");
}

#[test]
fn fixes_w1252_right_single_quote() {
    assert_eq!(fix_mojibake("â€™"), "\u{2019}");
}

// --- Idempotence: fix(fix(x)) == fix(x). ---

#[test]
fn idempotent_on_already_fixed() {
    for input in ["é", "ñ", "ö", "ü", "Σtella", "\u{2019}"] {
        assert_eq!(
            fix_mojibake(&fix_mojibake(input)),
            fix_mojibake(input),
            "idempotence broken for {input:?}"
        );
    }
}

// --- Non-mojibake input passes through unchanged. ---

#[test]
fn passes_through_clean_ascii() {
    assert_eq!(fix_mojibake("Stereolab"), "Stereolab");
}

#[test]
fn passes_through_clean_latin_with_diacritics() {
    // No trigger codepoints — fast path.
    assert_eq!(fix_mojibake("Nilüfer Yanya"), "Nilüfer Yanya");
    assert_eq!(fix_mojibake("Hermanos Gutiérrez"), "Hermanos Gutiérrez");
}

#[test]
fn passes_through_legitimate_capital_n_tilde() {
    // Spanish "EL NIÑO" — Ñ triggers the scan but the candidate is
    // invalid UTF-8 (0xD1 needs a continuation byte; 0x4F is not one).
    assert_eq!(fix_mojibake("EL NIÑO"), "EL NIÑO");
}

#[test]
fn passes_through_legitimate_capital_a_circumflex() {
    // French "Â" alone — Â triggers but produces a 1-byte invalid UTF-8
    // candidate.
    assert_eq!(fix_mojibake("Â"), "Â");
}

#[test]
fn passes_through_legitimate_norwegian_o_slash() {
    // Norwegian "Øster" — Ø triggers but candidate (0xD8 + ASCII) is
    // invalid UTF-8.
    assert_eq!(fix_mojibake("Øster"), "Øster");
}

#[test]
fn passes_through_clean_greek() {
    assert_eq!(fix_mojibake("Σtella"), "Σtella");
    assert_eq!(fix_mojibake("Στελλάς"), "Στελλάς");
}

#[test]
fn passes_through_clean_cjk() {
    // CJK characters are 3-byte UTF-8 outside the Latin-1+W1252 range,
    // so char_to_w1252_byte returns None for them — bail out path.
    assert_eq!(fix_mojibake("細野晴臣"), "細野晴臣");
}

#[test]
fn passes_through_emoji() {
    assert_eq!(fix_mojibake("🎵"), "🎵");
    assert_eq!(fix_mojibake("Stereolab 🎸"), "Stereolab 🎸");
}

#[test]
fn passes_through_empty() {
    assert_eq!(fix_mojibake(""), "");
}

#[test]
fn doubly_encoded_text_is_repaired_fully() {
    let doubled = "\u{c3}\u{192}\u{c2}\u{a9}";
    assert_eq!(fix_mojibake(doubled), "\u{e9}");
    assert_eq!(fix_mojibake(&fix_mojibake(doubled)), fix_mojibake(doubled));
}
