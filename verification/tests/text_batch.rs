use wxyc_etl::text::batch::{batch_filter, batch_to_ascii_form, batch_to_match_form, batch_to_storage_form};
use wxyc_etl::text::filter::ArtistFilter;
use wxyc_etl::text::forms::{to_ascii_form, to_match_form, to_storage_form};


#[test]
fn test_batch_to_storage_form_matches_singles() {
    let inputs: Vec<String> = vec!["Stereolab".into(), "  Caf\u{00e9}  ".into()];
    let expected: Vec<String> = inputs.iter().map(|s| to_storage_form(s)).collect();
    assert_eq!(batch_to_storage_form(&inputs), expected);
}

#[test]
fn test_batch_to_match_form_matches_singles() {
    let inputs: Vec<String> = vec!["STEREOLAB".into(), "Nil\u{00fc}fer Yanya".into()];
    let expected: Vec<String> = inputs.iter().map(|s| to_match_form(s)).collect();
    assert_eq!(batch_to_match_form(&inputs), expected);
}

#[test]
fn test_batch_to_ascii_form_matches_singles() {
    let inputs: Vec<String> = vec!["\u{03a3}tella".into(), "Stereolab \u{1f3b8}".into()];
    let expected: Vec<String> = inputs.iter().map(|s| to_ascii_form(s)).collect();
    assert_eq!(batch_to_ascii_form(&inputs), expected);
}

#[test]
fn test_batch_form_helpers_empty() {
    let names: Vec<String> = vec![];
    assert!(batch_to_storage_form(&names).is_empty());
    assert!(batch_to_match_form(&names).is_empty());
    assert!(batch_to_ascii_form(&names).is_empty());
}

#[test]
fn test_batch_filter_matches() {
    let filter = ArtistFilter::from_text("Stereolab\nNilüfer Yanya\n");
    let names = vec![
        "Stereolab".into(),
        "Unknown".into(),
        "Nilüfer Yanya".into(),
        "Cat Power".into(),
    ];
    assert_eq!(
        batch_filter(&names, &filter),
        vec![true, false, true, false]
    );
}

#[test]
fn test_batch_filter_empty() {
    let filter = ArtistFilter::from_text("Stereolab\n");
    let names: Vec<String> = vec![];
    assert_eq!(batch_filter(&names, &filter), Vec::<bool>::new());
}
