//! The WXYC fold registry: script-aware folds beyond default case mapping.
//!
//! - U+03C2 ς (final sigma) becomes U+03C3 σ;
//! - U+00E6 æ becomes "ae";
//! - U+0153 œ becomes "oe".
//!
//! Letters such as ł, ø and ı are deliberately left alone.

use vstd::prelude::*;

use super::chars;

verus! {

/// Whether `c` is one of the characters the registry rewrites.
pub open spec fn is_fold_trigger_spec(c: char) -> bool {
    c == '\u{03C2}' || c == '\u{00E6}' || c == '\u{0153}'
}

/// The replacement text for one character.
pub open spec fn fold_char(c: char) -> Seq<char> {
    if c == '\u{03C2}' {
        seq!['\u{03C3}']
    } else if c == '\u{00E6}' {
        seq!['a', 'e']
    } else if c == '\u{0153}' {
        seq!['o', 'e']
    } else {
        seq![c]
    }
}

/// The fold registry applied to every character of `s`.
pub open spec fn apply_folds_spec(s: Seq<char>) -> Seq<char> {
    chars::flat_map(s, |c: char| fold_char(c))
}

pub fn is_fold_trigger(c: char) -> (r: bool)
    ensures
        r == is_fold_trigger_spec(c),
{
    c == '\u{03C2}' || c == '\u{00E6}' || c == '\u{0153}'
}

/// The fold registry applied to a character vector.
pub fn apply_folds_vec(v: &[char]) -> (r: Vec<char>)
    ensures
        r@ == apply_folds_spec(v@),
{
    let mut out: Vec<char> = Vec::new();
    let mut i: usize = 0;
    while i < v.len()
        invariant
            i <= v.len(),
            out@ == apply_folds_spec(v@.take(i as int)),
        decreases v.len() - i,
    {
        let c = v[i];
        proof {
            chars::lemma_flat_map_take_step(v@, i as int, |c: char| fold_char(c));
        }
        if c == '\u{03C2}' {
            out.push('\u{03C3}');
        } else if c == '\u{00E6}' {
            out.push('a');
            out.push('e');
        } else if c == '\u{0153}' {
            out.push('o');
            out.push('e');
        } else {
            out.push(c);
        }
        i += 1;
    }
    assert(v@.take(v.len() as int) == v@);
    out
}

/// Apply the WXYC fold registry to `s`.
pub fn apply_folds(s: &str) -> (r: String)
    ensures
        r@ == apply_folds_spec(s@),
{
    let v = chars::chars_of(s);
    let folded = apply_folds_vec(&v);
    chars::string_of(&folded)
}

/// No character produced by the registry is itself a trigger.
pub proof fn lemma_fold_output_has_no_trigger(s: Seq<char>)
    ensures
        forall|i: int|
            0 <= i < apply_folds_spec(s).len() ==> !is_fold_trigger_spec(
                #[trigger] apply_folds_spec(s)[i],
            ),
{
    chars::lemma_flat_map_all(s, |c: char| fold_char(c), |c: char| !is_fold_trigger_spec(c));
}

/// Text without trigger characters is left unchanged by the registry.
pub proof fn lemma_folds_identity_without_triggers(s: Seq<char>)
    requires
        forall|i: int| 0 <= i < s.len() ==> !is_fold_trigger_spec(#[trigger] s[i]),
    ensures
        apply_folds_spec(s) == s,
{
    chars::lemma_flat_map_identity(s, |c: char| fold_char(c));
}

/// Folding is idempotent: folding folded text changes nothing.
pub proof fn lemma_apply_folds_idempotent(s: Seq<char>)
    ensures
        apply_folds_spec(apply_folds_spec(s)) == apply_folds_spec(s),
{
    lemma_fold_output_has_no_trigger(s);
    lemma_folds_identity_without_triggers(apply_folds_spec(s));
}

} // verus!
