use wxyc_etl::text::compilation::is_compilation_artist;

// Positive cases.

#[test]
fn various_artists_is_compilation() {
    assert!(is_compilation_artist("Various Artists"));
}

#[test]
fn various_alone_is_compilation() {
    // Discogs canonical V/A credit.
    assert!(is_compilation_artist("Various"));
}

#[test]
fn various_lowercase_is_compilation() {
    assert!(is_compilation_artist("various"));
}

#[test]
fn various_all_caps_is_compilation() {
    assert!(is_compilation_artist("VARIOUS"));
}

#[test]
fn various_artists_with_wxyc_filing_suffix_is_compilation() {
    // WXYC physical-catalog filing convention.
    assert!(is_compilation_artist("Various Artists-Rock-Y"));
}

#[test]
fn v_slash_a_is_compilation() {
    assert!(is_compilation_artist("V/A"));
}

#[test]
fn v_dot_a_is_compilation() {
    assert!(is_compilation_artist("V.A."));
}

#[test]
fn soundtrack_alone_is_compilation() {
    assert!(is_compilation_artist("Soundtrack"));
}

#[test]
fn soundtracks_plural_is_compilation() {
    assert!(is_compilation_artist("Soundtracks"));
}

#[test]
fn compilation_alone_is_compilation() {
    assert!(is_compilation_artist("Compilation"));
}

// Negative cases — real WXYC artists previously misclassified.

#[test]
fn the_soundtrack_of_our_lives_is_real_artist() {
    // Swedish rock band — WXYC plays this.
    assert!(!is_compilation_artist("The Soundtrack of Our Lives"));
}

#[test]
fn soundtrack_of_our_lives_is_real_artist() {
    // Same band, alternate credit.
    assert!(!is_compilation_artist("Soundtrack of Our Lives"));
}

#[test]
fn the_various_is_real_artist() {
    // Australian band.
    assert!(!is_compilation_artist("The Various"));
}

#[test]
fn various_production_is_real_artist() {
    // UK electronic act — must not match either rule.
    assert!(!is_compilation_artist("Various Production"));
}

// Generic negative cases.

#[test]
fn stereolab_is_not_compilation() {
    assert!(!is_compilation_artist("Stereolab"));
}

#[test]
fn juana_molina_is_not_compilation() {
    assert!(!is_compilation_artist("Juana Molina"));
}

#[test]
fn cat_power_is_not_compilation() {
    assert!(!is_compilation_artist("Cat Power"));
}

#[test]
fn empty_is_not_compilation() {
    assert!(!is_compilation_artist(""));
}
