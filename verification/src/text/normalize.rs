//! Artist and title name normalization: NFKD decomposition with combining
//! marks removed, lowercasing, final-sigma fold, whitespace trim.

use vstd::prelude::*;

use super::chars;
use super::unicode;

verus! {

/// Greek final sigma ς (U+03C2) folds to medial σ (U+03C3).
pub open spec fn fold_sigma_spec(c: char) -> char {
    if c == '\u{03C2}' {
        '\u{03C3}'
    } else {
        c
    }
}

/// Image of one NFKD character when diacritics are stripped.
pub open spec fn strip_mark_char(c: char) -> Seq<char> {
    if unicode::is_mark_of(c) {
        Seq::<char>::empty()
    } else {
        seq![fold_sigma_spec(c)]
    }
}

/// Image of one NFKD character when diacritics are stripped and the rest
/// lowercased.
pub open spec fn strip_mark_lower_char(c: char) -> Seq<char> {
    if unicode::is_mark_of(c) {
        Seq::<char>::empty()
    } else {
        unicode::lowercase_of(c).map_values(|x: char| fold_sigma_spec(x))
    }
}

/// NFKD, combining marks removed, final sigma folded; case and
/// whitespace preserved.
pub open spec fn strip_diacritics_spec(s: Seq<char>) -> Seq<char> {
    chars::flat_map(unicode::nfkd_of(s), |c: char| strip_mark_char(c))
}

/// NFKD, combining marks removed, lowercased, final sigma folded.
pub open spec fn strip_diacritics_and_lowercase_spec(s: Seq<char>) -> Seq<char> {
    chars::flat_map(unicode::nfkd_of(s), |c: char| strip_mark_lower_char(c))
}

/// The normalized name: as above, then whitespace trimmed at both ends as
/// Python's `str.strip()` trims it.
pub open spec fn normalize_name_spec(s: Seq<char>) -> Seq<char> {
    chars::trim_python(strip_diacritics_and_lowercase_spec(s))
}

pub fn fold_sigma(c: char) -> (r: char)
    ensures
        r == fold_sigma_spec(c),
{
    if c == '\u{03C2}' {
        '\u{03C3}'
    } else {
        c
    }
}

/// Strip diacritics via NFKD decomposition without lowercasing or
/// trimming; folds the final sigma.
pub fn strip_diacritics(s: &str) -> (r: String)
    ensures
        r@ == strip_diacritics_spec(s@),
{
    let d = unicode::nfkd(s);
    let mut out: Vec<char> = Vec::new();
    let mut i: usize = 0;
    while i < d.len()
        invariant
            i <= d.len(),
            out@ == chars::flat_map(d@.take(i as int), |c: char| strip_mark_char(c)),
        decreases d.len() - i,
    {
        proof {
            chars::lemma_flat_map_take_step(d@, i as int, |c: char| strip_mark_char(c));
        }
        let c = d[i];
        if !unicode::is_mark(c) {
            out.push(fold_sigma(c));
        } else {
            assert(out@ + Seq::<char>::empty() == out@);
        }
        i += 1;
    }
    assert(d@.take(d.len() as int) == d@);
    chars::string_of(&out)
}

/// NFKD decompose, remove combining marks, lowercase and fold the final
/// sigma, in one pass.
pub fn strip_diacritics_and_lowercase(s: &str) -> (r: Vec<char>)
    ensures
        r@ == strip_diacritics_and_lowercase_spec(s@),
{
    let d = unicode::nfkd(s);
    let mut out: Vec<char> = Vec::new();
    let mut i: usize = 0;
    while i < d.len()
        invariant
            i <= d.len(),
            out@ == chars::flat_map(d@.take(i as int), |c: char| strip_mark_lower_char(c)),
        decreases d.len() - i,
    {
        proof {
            chars::lemma_flat_map_take_step(d@, i as int, |c: char| strip_mark_lower_char(c));
        }
        let c = d[i];
        if !unicode::is_mark(c) {
            let low = unicode::lowercase_char(c);
            let ghost base = out@;
            let mut k: usize = 0;
            while k < low.len()
                invariant
                    k <= low.len(),
                    out@ == base + low@.take(k as int).map_values(|x: char| fold_sigma_spec(x)),
                decreases low.len() - k,
            {
                out.push(fold_sigma(low[k]));
                k += 1;
                assert(low@.take(k as int).map_values(|x: char| fold_sigma_spec(x))
                    == low@.take((k - 1) as int).map_values(|x: char| fold_sigma_spec(x)).push(
                    fold_sigma_spec(low@[k - 1])));
            }
            assert(low@.take(low.len() as int) == low@);
        } else {
            assert(out@ + Seq::<char>::empty() == out@);
        }
        i += 1;
    }
    assert(d@.take(d.len() as int) == d@);
    out
}

/// Normalized name as a character vector.
pub fn normalize_name_vec(name: &str) -> (r: Vec<char>)
    ensures
        r@ == normalize_name_spec(name@),
{
    let lowered = strip_diacritics_and_lowercase(name);
    chars::trim_python_vec(&lowered)
}

/// Normalize an artist name for matching: NFKD, combining marks removed,
/// lowercased, final sigma folded, whitespace trimmed (Python `strip()`).
pub fn normalize_artist_name(name: &str) -> (r: String)
    ensures
        r@ == normalize_name_spec(name@),
{
    let v = normalize_name_vec(name);
    chars::string_of(&v)
}

/// Normalize a title for matching: the same normalization as
/// [`normalize_artist_name`].
pub fn normalize_title(title: &str) -> (r: String)
    ensures
        r@ == normalize_name_spec(title@),
{
    normalize_artist_name(title)
}

/// Final and medial sigma land in the same bucket: no diacritic-stripped
/// text and no normalized name holds the final sigma ς (U+03C2).
pub proof fn lemma_no_final_sigma(s: Seq<char>)
    ensures
        !strip_diacritics_spec(s).contains('\u{03C2}'),
        !strip_diacritics_and_lowercase_spec(s).contains('\u{03C2}'),
        !normalize_name_spec(s).contains('\u{03C2}'),
{
    let p = |c: char| c != '\u{03C2}';
    let f = |c: char| strip_mark_char(c);
    let g = |c: char| strip_mark_lower_char(c);
    assert forall|c: char, j: int| 0 <= j < f(c).len() implies p(#[trigger] f(c)[j]) by {}
    assert forall|c: char, j: int| 0 <= j < g(c).len() implies p(#[trigger] g(c)[j]) by {
        if !unicode::is_mark_of(c) {
            let low = unicode::lowercase_of(c);
            assert(g(c)[j] == fold_sigma_spec(low[j]));
        }
    }
    chars::lemma_flat_map_all(unicode::nfkd_of(s), f, p);
    chars::lemma_flat_map_all(unicode::nfkd_of(s), g, p);
    let t = strip_diacritics_and_lowercase_spec(s);
    let sp = |c: char| chars::is_python_space(c);
    chars::lemma_leading_count_bound(t, sp);
    let a = chars::trim_start_by(t, sp);
    chars::lemma_trailing_count_bound(a, sp);
    let n = normalize_name_spec(s);
    assert forall|i: int| 0 <= i < n.len() implies n[i] != '\u{03C2}' by {
        assert(n[i] == t[i + chars::leading_count(t, sp)]);
    }
}

} // verus!
