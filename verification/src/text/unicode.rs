//! Unicode services the normalizers take from outside crates and from std:
//! normalization forms (unicode-normalization), general categories
//! (unicode_categories), ASCII transliteration (deunicode), and default
//! case mapping (std).
//!
//! Each of these is table-driven; the names below stand for their results,
//! which depend only on the arguments.

use vstd::prelude::*;

use deunicode::deunicode;
use unicode_categories::UnicodeCategories;
use unicode_normalization::UnicodeNormalization;

verus! {

/// Canonical composition (NFC) of a character sequence.
pub uninterp spec fn nfc_of(s: Seq<char>) -> Seq<char>;

/// Canonical decomposition (NFD) of a character sequence.
pub uninterp spec fn nfd_of(s: Seq<char>) -> Seq<char>;

/// Compatibility composition (NFKC) of a character sequence.
pub uninterp spec fn nfkc_of(s: Seq<char>) -> Seq<char>;

/// Compatibility decomposition (NFKD) of a character sequence.
pub uninterp spec fn nfkd_of(s: Seq<char>) -> Seq<char>;

/// General category M (Mn, Mc or Me).
pub uninterp spec fn is_mark_of(c: char) -> bool;

/// General category Cf (Other, Format).
pub uninterp spec fn is_other_format_of(c: char) -> bool;

/// General category So (Symbol, Other).
pub uninterp spec fn is_symbol_other_of(c: char) -> bool;

/// General category L (Lu, Ll, Lt, Lm or Lo).
pub uninterp spec fn is_letter_of(c: char) -> bool;

/// General category N (Nd, Nl or No).
pub uninterp spec fn is_number_of(c: char) -> bool;

/// ASCII transliteration of a character sequence.
pub uninterp spec fn deunicode_of(s: Seq<char>) -> Seq<char>;

/// Default Unicode lowercase mapping of one character (one or more chars).
pub uninterp spec fn lowercase_of(c: char) -> Seq<char>;

/// Default Unicode lowercasing of a whole string, including the
/// context-dependent final-sigma rule.
pub uninterp spec fn str_lowercase_of(s: Seq<char>) -> Seq<char>;

/// Unicode `Alphabetic` or `Numeric` property.
pub uninterp spec fn is_alphanumeric_of(c: char) -> bool;

/// `UnicodeNormalization::nfc` collected into a `String`.
/// Claims: the result is the NFC form of `s`, a function of `s` alone.
#[verifier::external_body]
pub(crate) fn nfc(s: &str) -> (r: String)
    ensures
        r@ == nfc_of(s@),
{
    s.nfc().collect()
}

/// `UnicodeNormalization::nfd` collected into a vector of characters.
/// Claims: the result is the NFD form of `s`, a function of `s` alone.
#[verifier::external_body]
pub(crate) fn nfd(s: &str) -> (r: Vec<char>)
    ensures
        r@ == nfd_of(s@),
{
    s.nfd().collect()
}

/// `UnicodeNormalization::nfkc` collected into a `String`.
/// Claims: the result is the NFKC form of `s`, a function of `s` alone.
#[verifier::external_body]
pub(crate) fn nfkc(s: &str) -> (r: String)
    ensures
        r@ == nfkc_of(s@),
{
    s.nfkc().collect()
}

/// `UnicodeNormalization::nfkd` collected into a vector of characters.
/// Claims: the result is the NFKD form of `s`, a function of `s` alone.
#[verifier::external_body]
pub(crate) fn nfkd(s: &str) -> (r: Vec<char>)
    ensures
        r@ == nfkd_of(s@),
{
    s.nfkd().collect()
}

/// `UnicodeCategories::is_mark`. Claims: a function of `c` alone.
#[verifier::external_body]
pub(crate) fn is_mark(c: char) -> (r: bool)
    ensures
        r == is_mark_of(c),
{
    c.is_mark()
}

/// `UnicodeCategories::is_other_format`. Claims: a function of `c` alone.
#[verifier::external_body]
pub(crate) fn is_other_format(c: char) -> (r: bool)
    ensures
        r == is_other_format_of(c),
{
    c.is_other_format()
}

/// `UnicodeCategories::is_symbol_other`. Claims: a function of `c` alone.
#[verifier::external_body]
pub(crate) fn is_symbol_other(c: char) -> (r: bool)
    ensures
        r == is_symbol_other_of(c),
{
    c.is_symbol_other()
}

/// `UnicodeCategories::is_letter`. Claims: a function of `c` alone.
#[verifier::external_body]
pub(crate) fn is_letter(c: char) -> (r: bool)
    ensures
        r == is_letter_of(c),
{
    c.is_letter()
}

/// `UnicodeCategories::is_number`. Claims: a function of `c` alone.
#[verifier::external_body]
pub(crate) fn is_number(c: char) -> (r: bool)
    ensures
        r == is_number_of(c),
{
    c.is_number()
}

/// `deunicode::deunicode`. Claims: the result is a function of `s` alone,
/// and (as the crate documents) every character of it is ASCII.
#[verifier::external_body]
pub(crate) fn transliterate(s: &str) -> (r: String)
    ensures
        r@ == deunicode_of(s@),
        forall|i: int| 0 <= i < r@.len() ==> (#[trigger] r@[i]) as u32 <= 0x7F,
{
    deunicode(s)
}

/// `char::to_lowercase` collected into a vector. Claims: a function of `c`
/// alone.
#[verifier::external_body]
pub(crate) fn lowercase_char(c: char) -> (r: Vec<char>)
    ensures
        r@ == lowercase_of(c),
{
    c.to_lowercase().collect()
}

/// `str::to_lowercase`. Claims: a function of `s` alone.
#[verifier::external_body]
pub(crate) fn lowercase_str(s: &str) -> (r: String)
    ensures
        r@ == str_lowercase_of(s@),
{
    s.to_lowercase()
}

/// `char::is_alphanumeric`. Claims: a function of `c` alone.
#[verifier::external_body]
pub(crate) fn is_alphanumeric(c: char) -> (r: bool)
    ensures
        r == is_alphanumeric_of(c),
{
    c.is_alphanumeric()
}

} // verus!
