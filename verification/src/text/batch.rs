//! Array-in/array-out forms of the text functions, one call per batch.

use vstd::prelude::*;

use super::filter::ArtistFilter;
use super::forms;
use super::normalize;

verus! {

/// Apply [`forms::to_storage_form`] to each input in one call.
pub fn batch_to_storage_form(inputs: &[String]) -> (r: Vec<String>)
    ensures
        r@.len() == inputs@.len(),
        forall|i: int|
            0 <= i < inputs@.len() ==> (#[trigger] r@[i])@ == forms::to_storage_form_spec(
                inputs@[i]@,
            ),
{
    let mut out: Vec<String> = Vec::new();
    let mut i: usize = 0;
    while i < inputs.len()
        invariant
            i <= inputs@.len(),
            out@.len() == i,
            forall|j: int|
                0 <= j < i ==> (#[trigger] out@[j])@ == forms::to_storage_form_spec(inputs@[j]@),
        decreases inputs.len() - i,
    {
        out.push(forms::to_storage_form(inputs[i].as_str()));
        i += 1;
    }
    out
}

/// Apply [`forms::to_match_form`] to each input in one call.
pub fn batch_to_match_form(inputs: &[String]) -> (r: Vec<String>)
    ensures
        r@.len() == inputs@.len(),
        forall|i: int|
            0 <= i < inputs@.len() ==> (#[trigger] r@[i])@ == forms::to_match_form_spec(
                inputs@[i]@,
            ),
{
    let mut out: Vec<String> = Vec::new();
    let mut i: usize = 0;
    while i < inputs.len()
        invariant
            i <= inputs@.len(),
            out@.len() == i,
            forall|j: int|
                0 <= j < i ==> (#[trigger] out@[j])@ == forms::to_match_form_spec(inputs@[j]@),
        decreases inputs.len() - i,
    {
        out.push(forms::to_match_form(inputs[i].as_str()));
        i += 1;
    }
    out
}

/// Apply [`forms::to_ascii_form`] to each input in one call.
pub fn batch_to_ascii_form(inputs: &[String]) -> (r: Vec<String>)
    ensures
        r@.len() == inputs@.len(),
        forall|i: int|
            0 <= i < inputs@.len() ==> (#[trigger] r@[i])@ == forms::to_ascii_form_spec(
                inputs@[i]@,
            ),
{
    let mut out: Vec<String> = Vec::new();
    let mut i: usize = 0;
    while i < inputs.len()
        invariant
            i <= inputs@.len(),
            out@.len() == i,
            forall|j: int|
                0 <= j < i ==> (#[trigger] out@[j])@ == forms::to_ascii_form_spec(inputs@[j]@),
        decreases inputs.len() - i,
    {
        out.push(forms::to_ascii_form(inputs[i].as_str()));
        i += 1;
    }
    out
}

/// Normalize and check membership for a batch of names: entry `i` is
/// whether the normalized `names[i]` is in the filter's artist set.
pub fn batch_filter(names: &[String], filter: &ArtistFilter) -> (r: Vec<bool>)
    ensures
        r@.len() == names@.len(),
        forall|i: int|
            0 <= i < names@.len() ==> #[trigger] r@[i] == filter.artists_view().contains(
                normalize::normalize_name_spec(names@[i]@),
            ),
{
    let mut out: Vec<bool> = Vec::new();
    let mut i: usize = 0;
    while i < names.len()
        invariant
            i <= names@.len(),
            out@.len() == i,
            forall|j: int|
                0 <= j < i ==> #[trigger] out@[j] == filter.artists_view().contains(
                    normalize::normalize_name_spec(names@[j]@),
                ),
        decreases names.len() - i,
    {
        let one = [names[i].as_str()];
        let m = filter.matches_any(&one);
        proof {
            let ns = one@.map_values(|s: &str| s@);
            assert(ns.len() == 1 && ns[0] == names@[i as int]@);
        }
        out.push(m);
        i += 1;
    }
    out
}

} // verus!
