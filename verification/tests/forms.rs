use wxyc_etl::text::forms::{to_ascii_form, to_match_form, to_storage_form};

#[test]
fn forms_idempotent_on_clean_input() {
    for s in ["Stereolab", "Nilüfer Yanya", "Στελλάς", "細野晴臣", "🎵"] {
        assert_eq!(
            to_storage_form(&to_storage_form(s)),
            to_storage_form(s),
            "idempotence broken for {s:?}"
        );
    }
}

#[test]
fn idempotent_on_mojibake_input() {
    for s in ["Ã©", "Î£tella", "â€™"] {
        assert_eq!(to_storage_form(&to_storage_form(s)), to_storage_form(s));
    }
}

#[test]
fn trims_ascii_whitespace() {
    assert_eq!(to_storage_form("  Stereolab  "), "Stereolab");
}

#[test]
fn preserves_internal_whitespace() {
    assert_eq!(to_storage_form("Molchat  Doma"), "Molchat  Doma");
}

#[test]
fn nfc_input_is_passthrough() {
    // Already-NFC café (U+00E9). Storage form is a no-op.
    let nfc = "caf\u{00E9}";
    assert_eq!(to_storage_form(nfc), nfc);
}

#[test]
fn nfd_input_canonicalizes_to_nfc() {
    // Decomposed café (U+0065 U+0301) collapses to precomposed (U+00E9)
    // so two byte forms of the same visual string don't both land in the
    // catalog as separate rows.
    let nfd = "cafe\u{0301}";
    let nfc = "caf\u{00E9}";
    assert_eq!(to_storage_form(nfd), nfc);
}

#[test]
fn nfd_n_tilde_canonicalizes_to_nfc() {
    let nfd = "n\u{0303}";
    let nfc = "\u{00F1}";
    assert_eq!(to_storage_form(nfd), nfc);
}

// --- to_match_form ---

#[test]
fn match_form_lowercases_and_strips_latin_diacritics() {
    assert_eq!(to_match_form("Hermanos Gutiérrez"), "hermanos gutierrez");
    assert_eq!(to_match_form("NILÜFER YANYA"), "nilufer yanya");
}

#[test]
fn match_form_folds_greek_capital_sigma_to_medial() {
    assert_eq!(to_match_form("\u{03A3}tella"), "\u{03C3}tella");
}

#[test]
fn match_form_folds_greek_final_sigma_to_medial() {
    // ς and σ must collide on the same bucket (LML#168).
    assert_eq!(to_match_form("Στελλάς"), to_match_form("Στελλάσ"));
    assert_eq!(to_match_form("Στελλάς"), "στελλασ");
}

#[test]
fn match_form_preserves_cyrillic_yo_diaeresis() {
    // Cyrillic Ё must NOT decompose+strip to "е" — script-essential mark.
    assert_eq!(to_match_form("\u{0401}"), "\u{0451}");
}

#[test]
fn match_form_strips_bidi_format_chars() {
    assert_eq!(to_match_form("Hello\u{200E}World"), "helloworld");
    assert_eq!(to_match_form("Hello\u{200F}World"), "helloworld");
    assert_eq!(to_match_form("\u{202E}Reversed\u{202C}"), "reversed");
}

#[test]
fn match_form_preserves_zwj_in_emoji_sequence() {
    // U+200D ZWJ is the only Cf char that survives — emoji integrity.
    let family = "\u{1F468}\u{200D}\u{1F469}\u{200D}\u{1F467}\u{200D}\u{1F466}";
    assert_eq!(to_match_form(family), family);
}

#[test]
fn match_form_repairs_mojibake_then_folds() {
    // to_storage_form runs first, so mojibake is fixed before folding.
    assert_eq!(to_match_form("Î£tella"), "\u{03C3}tella");
    assert_eq!(to_match_form("Ã©"), "e");
    assert_eq!(to_match_form("â€™"), "\u{2019}");
}

#[test]
fn match_form_preserves_polish_l_and_norwegian_o() {
    // Non-folds: ł and ø stay (they are letters, not decorated bases).
    assert_eq!(to_match_form("\u{0141}ukasz"), "\u{0142}ukasz");
    assert_eq!(to_match_form("\u{00D8}ster"), "\u{00F8}ster");
}

#[test]
fn match_form_preserves_turkish_dotless_i() {
    assert_eq!(to_match_form("Aşıq Altay"), "asıq altay");
}

#[test]
fn match_form_preserves_cjk_emoji_arabic() {
    assert_eq!(to_match_form("細野晴臣"), "細野晴臣");
    assert_eq!(to_match_form("🎵"), "🎵");
    assert_eq!(to_match_form("فيروز"), "فيروز");
}

#[test]
fn match_form_collapses_runs_of_ascii_space() {
    assert_eq!(to_match_form("  Molchat   Doma  "), "molchat doma");
}

#[test]
fn match_form_preserves_embedded_tab() {
    // TAB is intentional probe data, not whitespace to scrub.
    assert_eq!(to_match_form("tab\there"), "tab\there");
}

#[test]
fn match_form_idempotent() {
    for s in [
        "Stereolab",
        "Hermanos Gutiérrez",
        "Στελλάς",
        "細野晴臣",
        "🎵",
        "Î£tella",
        "Hello\u{200E}World",
        "\u{0401}", // Cyrillic Ё
        "\u{1F468}\u{200D}\u{1F469}",
    ] {
        assert_eq!(
            to_match_form(&to_match_form(s)),
            to_match_form(s),
            "idempotence broken for {s:?}"
        );
    }
}

#[test]
fn match_form_empty() {
    assert_eq!(to_match_form(""), "");
}

// --- to_ascii_form ---

#[test]
fn ascii_form_lml_168_sigma_to_s() {
    // The motivating case: "Στella" reduces to "stella" so a typed
    // "Stella" can find the canonical entry through the ASCII fallback.
    assert_eq!(to_ascii_form("\u{03A3}tella"), "stella");
    assert_eq!(to_ascii_form("Στελλάς"), "stellas");
}

#[test]
fn ascii_form_cyrillic_yo_overrides_deunicode_io() {
    // deunicode renders Ё/ё as "Io"/"io"; WXYC convention is "Yo"/"yo".
    assert_eq!(to_ascii_form("\u{0401}"), "yo");
    assert_eq!(to_ascii_form("\u{0451}"), "yo");
}

#[test]
fn ascii_form_strips_emoji_instead_of_describing_them() {
    // deunicode would render 🎸 as "guitar"; we strip Symbol-Other first.
    assert_eq!(to_ascii_form("Stereolab \u{1F3B8}"), "stereolab");
    assert_eq!(to_ascii_form("\u{1F3B5}"), "");
}

#[test]
fn ascii_form_transliterates_cyrillic() {
    assert_eq!(to_ascii_form("Молчат Дома"), "molchat doma");
    assert_eq!(to_ascii_form("Аукцыон"), "auktsyon");
}

#[test]
fn ascii_form_strips_latin_diacritics_via_match_form() {
    assert_eq!(to_ascii_form("Hermanos Gutiérrez"), "hermanos gutierrez");
    assert_eq!(to_ascii_form("Sigur Rós"), "sigur ros");
}

#[test]
fn ascii_form_repairs_mojibake_then_transliterates() {
    // Mojibake is fixed by the to_storage_form leg of to_match_form.
    assert_eq!(to_ascii_form("Î£tella"), "stella");
    assert_eq!(to_ascii_form("Ã©"), "e");
}

#[test]
fn ascii_form_preserves_embedded_tab() {
    // Same rule as to_match_form: TAB is intentional probe data.
    assert_eq!(to_ascii_form("tab\there"), "tab\there");
}

#[test]
fn ascii_form_idempotent() {
    for s in [
        "Stereolab",
        "Hermanos Gutiérrez",
        "Στελλάς",
        "Молчат Дома",
        "Î£tella",
        "Stereolab \u{1F3B8}",
        "\u{0401}",
    ] {
        assert_eq!(
            to_ascii_form(&to_ascii_form(s)),
            to_ascii_form(s),
            "idempotence broken for {s:?}"
        );
    }
}

#[test]
fn ascii_form_empty() {
    assert_eq!(to_ascii_form(""), "");
}

#[test]
fn forms_refine_one_another() {
    let a = "  Cafe\u{301} ";
    let b = "Caf\u{e9}";
    assert_eq!(to_storage_form(a), to_storage_form(b));
    assert_eq!(to_match_form(a), to_match_form(b));
    assert_eq!(to_match_form(a), "cafe");
    assert_eq!(to_ascii_form(a), to_ascii_form(b));
    assert_eq!(to_ascii_form(a), "cafe");
}
