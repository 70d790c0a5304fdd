use wxyc_etl::text::identity::{
    strip_leading_article, to_identity_match_form, to_identity_match_form_title,
    to_identity_match_form_with_disambiguator_strip, to_identity_match_form_with_punctuation,
};
use wxyc_etl::text::forms::to_match_form;

// --- step 4: trailing paren strip ---

#[test]
fn strips_trailing_parens() {
    assert_eq!(to_identity_match_form("Foo (Remastered 2019)"), "foo");
}

#[test]
fn strips_trailing_brackets() {
    assert_eq!(to_identity_match_form("Foo [Live]"), "foo");
}

#[test]
fn strips_outermost_only_in_one_pass() {
    // Documented behavior: a second trailing group survives.
    assert_eq!(
        to_identity_match_form("Foo (Live) [Remastered]"),
        "foo (live)"
    );
}

#[test]
fn strips_empty_parens() {
    assert_eq!(to_identity_match_form("Foo ()"), "foo");
}

#[test]
fn does_not_strip_when_only_parens() {
    // (Foo) would otherwise reduce to empty.
    assert_eq!(to_identity_match_form("(Foo)"), "(foo)");
}

#[test]
fn does_not_strip_unbalanced_close() {
    assert_eq!(to_identity_match_form("Foo )"), "foo )");
}

#[test]
fn does_not_strip_paren_in_middle() {
    assert_eq!(
        to_identity_match_form("Sigur (the band) Rós"),
        "sigur (the band) ros"
    );
}

#[test]
fn handles_nested_parens() {
    assert_eq!(to_identity_match_form("Foo (Live (1999) Edition)"), "foo");
}

// --- step 5: leading article drop ---

#[test]
fn drops_the() {
    assert_eq!(to_identity_match_form("The Beatles"), "beatles");
}

#[test]
fn drops_a() {
    assert_eq!(
        to_identity_match_form("A Tribe Called Quest"),
        "tribe called quest"
    );
}

#[test]
fn drops_an() {
    assert_eq!(to_identity_match_form("An Albatross"), "albatross");
}

#[test]
fn drops_only_first_article() {
    // `The The` should drop one `the` only.
    assert_eq!(to_identity_match_form("The The"), "the");
}

#[test]
fn does_not_drop_when_article_is_a_prefix_substring() {
    assert_eq!(to_identity_match_form("Theater"), "theater");
    assert_eq!(to_identity_match_form("Anal"), "anal");
    assert_eq!(to_identity_match_form("Apple"), "apple");
}

#[test]
fn drops_comma_form_the() {
    // Discogs convention: `Beatles, The` — leading article moved to end.
    assert_eq!(to_identity_match_form("Beatles, The"), "beatles");
}

#[test]
fn drops_comma_form_a() {
    assert_eq!(
        to_identity_match_form("Tribe Called Quest, A"),
        "tribe called quest"
    );
}

#[test]
fn drops_comma_form_an() {
    assert_eq!(to_identity_match_form("Albatross, An"), "albatross");
}

#[test]
fn does_not_drop_comma_article_when_more_follows() {
    assert_eq!(
        to_identity_match_form("Beatles, the Best Of"),
        "beatles, the best of"
    );
}

// --- composed steps ---

#[test]
fn drops_article_then_strips_parens() {
    assert_eq!(
        to_identity_match_form("The Beatles (Remastered)"),
        "beatles"
    );
}

#[test]
fn strips_parens_then_drops_article_after_recollapse() {
    // After paren strip, the leading "the " is exposed only if it was
    // already there before — paren strip from end doesn't expose new
    // articles. This test pins composition order.
    assert_eq!(
        to_identity_match_form("The Foo Fighters (1995)"),
        "foo fighters"
    );
}

// --- public strip_leading_article (PyO3-exposed; e3-normalization#133) ---

#[test]
fn pub_strip_drops_the_prefix() {
    assert_eq!(strip_leading_article("the beatles"), "beatles");
}

#[test]
fn pub_strip_drops_a_prefix() {
    assert_eq!(
        strip_leading_article("a tribe called quest"),
        "tribe called quest"
    );
}

#[test]
fn pub_strip_drops_an_prefix() {
    assert_eq!(strip_leading_article("an albatross"), "albatross");
}

#[test]
fn pub_strip_drops_bare_the_to_empty() {
    // Bare article (EOS match) — diverges from drop_articles, which preserves
    // bare articles in identity-matching context.
    assert_eq!(strip_leading_article("the"), "");
}

#[test]
fn pub_strip_drops_bare_a_to_empty() {
    assert_eq!(strip_leading_article("a"), "");
}

#[test]
fn pub_strip_drops_bare_an_to_empty() {
    assert_eq!(strip_leading_article("an"), "");
}

#[test]
fn pub_strip_no_op_on_prefix_substring() {
    // No word boundary after the article.
    assert_eq!(strip_leading_article("theater"), "theater");
    assert_eq!(
        strip_leading_article("thee silver mt zion"),
        "thee silver mt zion"
    );
    assert_eq!(strip_leading_article("animal"), "animal");
    assert_eq!(strip_leading_article("apple"), "apple");
}

#[test]
fn pub_strip_no_op_on_no_article() {
    assert_eq!(strip_leading_article("stereolab"), "stereolab");
    assert_eq!(strip_leading_article("juana molina"), "juana molina");
}

#[test]
fn pub_strip_no_op_on_empty() {
    assert_eq!(strip_leading_article(""), "");
}

#[test]
fn pub_strip_consumes_multiple_spaces_after_article() {
    assert_eq!(strip_leading_article("the  beatles"), "beatles");
    assert_eq!(strip_leading_article("a\ttribe"), "tribe");
}

#[test]
fn pub_strip_consumes_only_first_article() {
    // `the the` → strip one leading `the ` → `the`.
    assert_eq!(strip_leading_article("the the"), "the");
}

#[test]
fn pub_strip_matches_python_re_whitespace() {
    // Mirrors CPython's `\s` for str patterns: White_Space ∪ U+001C..=U+001F.
    // NBSP folds away under NFKC inside `to_match_form` and never reaches
    // here from that path, but the standalone helper takes pre-normalized
    // input from other paths too — pin it here so the contract is explicit.
    assert_eq!(strip_leading_article("the\u{a0}beatles"), "beatles");
    assert_eq!(strip_leading_article("the\u{1680}beatles"), "beatles");
    assert_eq!(strip_leading_article("the\u{2028}beatles"), "beatles");
    assert_eq!(strip_leading_article("the\u{2029}beatles"), "beatles");
    // The four ASCII info separators are CPython's historical `\s` quirk.
    assert_eq!(strip_leading_article("the\u{1c}beatles"), "beatles");
    assert_eq!(strip_leading_article("the\u{1d}beatles"), "beatles");
    assert_eq!(strip_leading_article("the\u{1e}beatles"), "beatles");
    assert_eq!(strip_leading_article("the\u{1f}beatles"), "beatles");
}

#[test]
fn pub_strip_consumes_mixed_whitespace_run() {
    // `\s+` greediness across heterogeneous codepoints.
    assert_eq!(
        strip_leading_article("the \u{a0}\t\u{1680}beatles"),
        "beatles"
    );
}

#[test]
fn pub_strip_preserves_input_when_not_lowercased() {
    // Contract: input is assumed lowercased + trimmed.
    // The helper does not normalize; an uppercased article is a no-op.
    assert_eq!(strip_leading_article("The Beatles"), "The Beatles");
}

// --- inherited from to_match_form: sigma + diacritics ---

#[test]
fn folds_diacritics_via_to_match_form() {
    assert_eq!(
        to_identity_match_form("The Hermanos Gutiérrez"),
        "hermanos gutierrez"
    );
}

#[test]
fn folds_final_sigma_via_to_match_form() {
    assert_eq!(
        to_identity_match_form("Στελλάς"),
        to_identity_match_form("Στελλάσ")
    );
}

#[test]
fn repairs_mojibake_via_to_match_form() {
    // to_match_form runs to_storage_form first, fixing mojibake before fold.
    assert_eq!(to_identity_match_form("The Î£tella"), "\u{03c3}tella");
}

// --- empty / whitespace edges ---

#[test]
fn empty_input() {
    assert_eq!(to_identity_match_form(""), "");
}

#[test]
fn whitespace_only_input() {
    assert_eq!(to_identity_match_form("   "), "");
}

#[test]
fn only_article() {
    // `The` alone: leading-article pattern requires trailing space, so
    // a bare article is preserved.
    assert_eq!(to_identity_match_form("The"), "the");
}

// --- idempotence ---

#[test]
fn idempotent() {
    for s in [
        "Stereolab",
        "The Beatles",
        "An Albatross",
        "A Tribe Called Quest",
        "Beatles, The",
        "Foo (Remastered 2019)",
        "The Foo Fighters (1995)",
        "Hermanos Gutiérrez",
        "Στελλάς",
        "Î£tella",
        "",
    ] {
        assert_eq!(
            to_identity_match_form(&to_identity_match_form(s)),
            to_identity_match_form(s),
            "idempotence broken for {s:?}"
        );
    }
}

// --- title variant: same as base today ---

#[test]
fn title_variant_matches_base() {
    for s in [
        "Stereolab",
        "The Sun Also Rises",
        "Foo (Live)",
        "Bar, The",
        "",
    ] {
        assert_eq!(
            to_identity_match_form_title(s),
            to_identity_match_form(s),
            "title variant diverged from base for {s:?}"
        );
    }
}

// --- step 6: punctuation collapse (with_punctuation variant) ---

#[test]
fn punctuation_collapses_dots() {
    assert_eq!(to_identity_match_form_with_punctuation("M.I.A."), "m i a");
}

#[test]
fn punctuation_collapses_excitement() {
    assert_eq!(
        to_identity_match_form_with_punctuation("Godspeed You! Black Emperor"),
        "godspeed you black emperor"
    );
}

#[test]
fn punctuation_collapses_run_of_punctuation_to_single_space() {
    // Per spec: replace each run of punctuation chars with one ASCII space.
    assert_eq!(to_identity_match_form_with_punctuation("!!!"), "");
    assert_eq!(to_identity_match_form_with_punctuation("+/-"), "");
    assert_eq!(to_identity_match_form_with_punctuation("R.E.M."), "r e m");
}

#[test]
fn punctuation_preserves_letters_and_numbers() {
    assert_eq!(
        to_identity_match_form_with_punctuation("10,000 Maniacs"),
        "10 000 maniacs"
    );
}

#[test]
fn punctuation_preserves_unicode_letters() {
    // Greek/Cyrillic/Han letters survive the punctuation pass.
    assert_eq!(
        to_identity_match_form_with_punctuation("Στελλάς"),
        "στελλασ"
    );
}

#[test]
fn punctuation_runs_after_paren_strip() {
    // Trailing-paren strip happens first, so `(Live)` is gone before step 6
    // sees the input. The remaining punctuation is what gets collapsed.
    assert_eq!(
        to_identity_match_form_with_punctuation("Foo!Bar (Live)"),
        "foo bar"
    );
}

#[test]
fn punctuation_after_article_drop() {
    assert_eq!(
        to_identity_match_form_with_punctuation("The M.I.A."),
        "m i a"
    );
}

#[test]
fn punctuation_idempotent() {
    for s in [
        "M.I.A.",
        "10,000 Maniacs",
        "Godspeed You! Black Emperor",
        "Foo!Bar (Live)",
        "",
    ] {
        let once = to_identity_match_form_with_punctuation(s);
        let twice = to_identity_match_form_with_punctuation(&once);
        assert_eq!(once, twice, "idempotence broken for {s:?}");
    }
}

// --- step 8: trailing /N disambiguator strip ---

#[test]
fn disambiguator_strips_one_digit() {
    assert_eq!(
        to_identity_match_form_with_disambiguator_strip("John Smith /1"),
        "john smith"
    );
}

#[test]
fn disambiguator_strips_multi_digit() {
    assert_eq!(
        to_identity_match_form_with_disambiguator_strip("Various /17"),
        "various"
    );
}

#[test]
fn disambiguator_requires_leading_space_before_slash() {
    // `Track 1/12` has no whitespace before `/`; preserved.
    assert_eq!(
        to_identity_match_form_with_disambiguator_strip("Track 1/12"),
        "track 1/12"
    );
}

#[test]
fn disambiguator_does_not_strip_trailing_letter() {
    assert_eq!(
        to_identity_match_form_with_disambiguator_strip("Side A/B"),
        "side a/b"
    );
}

#[test]
fn disambiguator_strips_after_paren_and_article_drops() {
    // Pipeline order: to_match_form → parens → article → re-collapse → /N.
    assert_eq!(
        to_identity_match_form_with_disambiguator_strip("The John Smith /3 (1995)"),
        "john smith"
    );
}

#[test]
fn disambiguator_no_match_passes_through() {
    assert_eq!(
        to_identity_match_form_with_disambiguator_strip("Stereolab"),
        "stereolab"
    );
}

#[test]
fn disambiguator_idempotent() {
    for s in [
        "John Smith /1",
        "Various /17",
        "Track 1/12",
        "The John Smith /3 (1995)",
        "Stereolab",
        "",
    ] {
        let once = to_identity_match_form_with_disambiguator_strip(s);
        let twice = to_identity_match_form_with_disambiguator_strip(&once);
        assert_eq!(once, twice, "idempotence broken for {s:?}");
    }
}

#[test]
fn identity_form_agrees_when_match_form_agrees() {
    let a = "The Beatles (Remastered)";
    let b = "THE  BEATLES  (Remastered)";
    assert_eq!(to_match_form(a), to_match_form(b));
    assert_eq!(to_identity_match_form(a), to_identity_match_form(b));
    assert_eq!(to_identity_match_form(a), "beatles");
    assert_eq!(
        to_identity_match_form_with_punctuation(a),
        to_identity_match_form_with_punctuation(b)
    );
}

#[test]
fn blank_input_gives_empty_identity_form() {
    assert_eq!(to_identity_match_form(" \t "), "");
    assert_eq!(to_identity_match_form_with_punctuation("\t"), "");
}

#[test]
fn disambiguator_accepts_any_whitespace_before_slash() {
    assert_eq!(to_identity_match_form_with_disambiguator_strip("x\t/1"), "x");
}
