//! Repair of Latin-1/Windows-1252-as-UTF-8 mis-decoding ("mojibake").
//!
//! Text whose UTF-8 bytes were once read as Latin-1 (or Windows-1252) and
//! re-encoded — `Ã©` for `é`, `Î£tella` for `Σtella`, `â€™` for `’` — is
//! mapped back to those single bytes and decoded again. A repair is
//! accepted only when the bytes form valid UTF-8, are fewer than the UTF-8
//! bytes of the input, and contain a non-ASCII byte. Repairs are repeated
//! until none applies, so text mis-decoded more than once is fully
//! restored and fixing is idempotent.

use vstd::prelude::*;

use super::chars;

verus! {

/// The byte a character stands for in the single-byte encoding that
/// produced the mojibake: Latin-1, with Windows-1252 punctuation in the
/// C1 slots. `None` for characters outside that repertoire.
pub open spec fn w1252_byte(c: char) -> Option<u8> {
    let cp = c as u32;
    if cp <= 0x7F || (0xA0 <= cp && cp <= 0xFF) {
        Some(cp as u8)
    } else if c == '\u{20AC}' {
        Some(0x80u8)
    } else if c == '\u{201A}' {
        Some(0x82u8)
    } else if c == '\u{0192}' {
        Some(0x83u8)
    } else if c == '\u{201E}' {
        Some(0x84u8)
    } else if c == '\u{2026}' {
        Some(0x85u8)
    } else if c == '\u{2020}' {
        Some(0x86u8)
    } else if c == '\u{2021}' {
        Some(0x87u8)
    } else if c == '\u{02C6}' {
        Some(0x88u8)
    } else if c == '\u{2030}' {
        Some(0x89u8)
    } else if c == '\u{0160}' {
        Some(0x8Au8)
    } else if c == '\u{2039}' {
        Some(0x8Bu8)
    } else if c == '\u{0152}' {
        Some(0x8Cu8)
    } else if c == '\u{017D}' {
        Some(0x8Eu8)
    } else if c == '\u{2018}' {
        Some(0x91u8)
    } else if c == '\u{2019}' {
        Some(0x92u8)
    } else if c == '\u{201C}' {
        Some(0x93u8)
    } else if c == '\u{201D}' {
        Some(0x94u8)
    } else if c == '\u{2022}' {
        Some(0x95u8)
    } else if c == '\u{2013}' {
        Some(0x96u8)
    } else if c == '\u{2014}' {
        Some(0x97u8)
    } else if c == '\u{02DC}' {
        Some(0x98u8)
    } else if c == '\u{2122}' {
        Some(0x99u8)
    } else if c == '\u{0161}' {
        Some(0x9Au8)
    } else if c == '\u{203A}' {
        Some(0x9Bu8)
    } else if c == '\u{0153}' {
        Some(0x9Cu8)
    } else if c == '\u{017E}' {
        Some(0x9Eu8)
    } else if c == '\u{0178}' {
        Some(0x9Fu8)
    } else {
        None
    }
}

/// Characters that can be the re-decoded lead byte of a mojibake'd UTF-8
/// sequence (Â Ã Ä Å Î Ï Ð Ñ Ø Ù Ú Û â).
pub open spec fn is_mojibake_trigger(c: char) -> bool {
    c == '\u{00C2}' || c == '\u{00C3}' || c == '\u{00C4}' || c == '\u{00C5}' || c == '\u{00CE}'
        || c == '\u{00CF}' || c == '\u{00D0}' || c == '\u{00D1}' || c == '\u{00D8}' || c
        == '\u{00D9}' || c == '\u{00DA}' || c == '\u{00DB}' || c == '\u{00E2}'
}

pub open spec fn has_mojibake_trigger_spec(s: Seq<char>) -> bool {
    exists|i: int| 0 <= i < s.len() && is_mojibake_trigger(#[trigger] s[i])
}

/// Every character of `s` has a single-byte counterpart.
pub open spec fn all_w1252(s: Seq<char>) -> bool {
    forall|i: int| 0 <= i < s.len() ==> (#[trigger] w1252_byte(s[i])) is Some
}

/// The single-byte image of `s` (meaningful when `all_w1252(s)`).
pub open spec fn w1252_bytes(s: Seq<char>) -> Seq<u8> {
    Seq::new(s.len(), |i: int| w1252_byte(s[i])->0)
}

pub open spec fn has_high_byte(b: Seq<u8>) -> bool {
    exists|i: int| 0 <= i < b.len() && #[trigger] b[i] >= 0x80
}

/// The repaired text, when `s` is repairable mojibake.
pub open spec fn mojibake_repair(s: Seq<char>) -> Option<Seq<char>> {
    let b = w1252_bytes(s);
    if has_mojibake_trigger_spec(s) && all_w1252(s) && vstd::utf8::valid_utf8(b) && b.len()
        < vstd::utf8::encode_utf8(s).len() && has_high_byte(b) {
        Some(vstd::utf8::decode_utf8(b))
    } else {
        None
    }
}

/// `s` repaired until no further repair applies (each repair undoes one
/// level of mis-decoding and strictly shortens the UTF-8 encoding).
pub open spec fn fix_mojibake_spec(s: Seq<char>) -> Seq<char>
    decreases vstd::utf8::encode_utf8(s).len(),
{
    match mojibake_repair(s) {
        Some(t) => {
            proof {
                lemma_repair_shrinks(s);
            }
            fix_mojibake_spec(t)
        },
        None => s,
    }
}

/// Decodes UTF-8 bytes (`std::str::from_utf8`). Claims: the result is
/// present exactly when the bytes are valid UTF-8, and then holds the
/// characters they encode.
#[verifier::external_body]
fn utf8_decode(bytes: &[u8]) -> (r: Option<String>)
    ensures
        r is Some <==> vstd::utf8::valid_utf8(bytes@),
        r matches Some(t) ==> t@ == vstd::utf8::decode_utf8(bytes@),
{
    match std::str::from_utf8(bytes) {
        Ok(t) => Some(t.to_string()),
        Err(_) => None,
    }
}

/// Executable form of [`w1252_byte`].
pub fn char_to_w1252_byte(c: char) -> (r: Option<u8>)
    ensures
        r == w1252_byte(c),
{
    let cp = c as u32;
    if cp <= 0x7F || (cp >= 0xA0 && cp <= 0xFF) {
        return Some(cp as u8);
    }
    match c {
        '\u{20AC}' => Some(0x80),
        '\u{201A}' => Some(0x82),
        '\u{0192}' => Some(0x83),
        '\u{201E}' => Some(0x84),
        '\u{2026}' => Some(0x85),
        '\u{2020}' => Some(0x86),
        '\u{2021}' => Some(0x87),
        '\u{02C6}' => Some(0x88),
        '\u{2030}' => Some(0x89),
        '\u{0160}' => Some(0x8A),
        '\u{2039}' => Some(0x8B),
        '\u{0152}' => Some(0x8C),
        '\u{017D}' => Some(0x8E),
        '\u{2018}' => Some(0x91),
        '\u{2019}' => Some(0x92),
        '\u{201C}' => Some(0x93),
        '\u{201D}' => Some(0x94),
        '\u{2022}' => Some(0x95),
        '\u{2013}' => Some(0x96),
        '\u{2014}' => Some(0x97),
        '\u{02DC}' => Some(0x98),
        '\u{2122}' => Some(0x99),
        '\u{0161}' => Some(0x9A),
        '\u{203A}' => Some(0x9B),
        '\u{0153}' => Some(0x9C),
        '\u{017E}' => Some(0x9E),
        '\u{0178}' => Some(0x9F),
        _ => None,
    }
}

fn is_trigger_char(c: char) -> (r: bool)
    ensures
        r == is_mojibake_trigger(c),
{
    c == '\u{00C2}' || c == '\u{00C3}' || c == '\u{00C4}' || c == '\u{00C5}' || c == '\u{00CE}'
        || c == '\u{00CF}' || c == '\u{00D0}' || c == '\u{00D1}' || c == '\u{00D8}' || c
        == '\u{00D9}' || c == '\u{00DA}' || c == '\u{00DB}' || c == '\u{00E2}'
}

/// Whether `v` holds any character that could start a mojibake sequence.
pub fn has_mojibake_trigger(v: &[char]) -> (r: bool)
    ensures
        r == has_mojibake_trigger_spec(v@),
{
    let mut i: usize = 0;
    while i < v.len()
        invariant
            i <= v.len(),
            forall|j: int| 0 <= j < i ==> !is_mojibake_trigger(#[trigger] v@[j]),
        decreases v.len() - i,
    {
        if is_trigger_char(v[i]) {
            return true;
        }
        i += 1;
    }
    false
}

/// Reverse Latin-1/CP1252-as-UTF-8 mis-decoding, one level at a time,
/// until no further repair applies; clean text is returned unchanged.
pub fn fix_mojibake(s: &str) -> (r: String)
    ensures
        r@ == fix_mojibake_spec(s@),
{
    let mut cur = s.to_owned();
    loop
        invariant
            fix_mojibake_spec(cur@) == fix_mojibake_spec(s@),
        decreases vstd::utf8::encode_utf8(cur@).len(),
    {
        match repair_once(cur.as_str()) {
            None => {
                return cur;
            },
            Some(t) => {
                proof {
                    lemma_repair_shrinks(cur@);
                }
                cur = t;
            },
        }
    }
}

/// One level of repair: the repaired text when `s` is repairable mojibake.
fn repair_once(s: &str) -> (r: Option<String>)
    ensures
        match mojibake_repair(s@) {
            Some(t) => r matches Some(x) && x@ == t,
            None => r is None,
        },
{
    let v = chars::chars_of(s);
    if !has_mojibake_trigger(&v) {
        return None;
    }
    let mut bytes: Vec<u8> = Vec::new();
    let mut i: usize = 0;
    while i < v.len()
        invariant
            i <= v.len(),
            v@ == s@,
            forall|j: int| 0 <= j < i ==> (#[trigger] w1252_byte(v@[j])) is Some,
            bytes@ == w1252_bytes(v@).take(i as int),
        decreases v.len() - i,
    {
        match char_to_w1252_byte(v[i]) {
            Some(b) => bytes.push(b),
            None => {
                return None;
            },
        }
        i += 1;
        assert(bytes@ == w1252_bytes(v@).take(i as int));
    }
    assert(bytes@ == w1252_bytes(s@));
    let candidate = match utf8_decode(&bytes) {
        Some(t) => t,
        None => {
            return None;
        },
    };
    let mut shorter = false;
    let mut m: usize = 0;
    while m < v.len()
        invariant
            m <= v.len(),
            shorter <==> exists|j: int| 0 <= j < m && (#[trigger] v@[j]) as u32 > 0x7F,
        decreases v.len() - m,
    {
        if v[m] as u32 > 0x7F {
            shorter = true;
        }
        m += 1;
    }
    proof {
        lemma_utf8_len(s@);
    }
    let mut has_high = false;
    let mut k: usize = 0;
    while k < bytes.len()
        invariant
            k <= bytes.len(),
            has_high <==> exists|j: int| 0 <= j < k && #[trigger] bytes@[j] >= 0x80,
        decreases bytes.len() - k,
    {
        if bytes[k] >= 0x80 {
            has_high = true;
        }
        k += 1;
    }
    assert(has_high == has_high_byte(bytes@));
    assert(shorter == (bytes@.len() < vstd::utf8::encode_utf8(s@).len()));
    assert(has_mojibake_trigger_spec(s@));
    assert(all_w1252(s@));
    if shorter && has_high {
        Some(candidate)
    } else {
        None
    }
}

/// UTF-8 takes at least one byte per character, and more exactly when some
/// character is outside ASCII.
pub proof fn lemma_utf8_len(s: Seq<char>)
    ensures
        vstd::utf8::encode_utf8(s).len() >= s.len(),
        vstd::utf8::encode_utf8(s).len() > s.len() <==> exists|j: int|
            0 <= j < s.len() && (#[trigger] s[j]) as u32 > 0x7F,
    decreases s.len(),
{
    if s.len() > 0 {
        lemma_utf8_len(s.drop_first());
        if exists|j: int| 0 <= j < s.len() && (#[trigger] s[j]) as u32 > 0x7F {
            let j = choose|j: int| 0 <= j < s.len() && (#[trigger] s[j]) as u32 > 0x7F;
            if j > 0 {
                assert(s.drop_first()[j - 1] == s[j]);
            }
        } else {
            assert forall|j: int| 0 <= j < s.drop_first().len() implies !((
            #[trigger] s.drop_first()[j]) as u32 > 0x7F) by {
                assert(s.drop_first()[j] == s[j + 1]);
            }
        }
    }
}

/// When `s` needs no repair, repairing returns it unchanged.
pub proof fn lemma_fix_mojibake_unrepairable(s: Seq<char>)
    requires
        mojibake_repair(s) is None,
    ensures
        fix_mojibake_spec(s) == s,
{
}

/// One repair strictly shortens the UTF-8 encoding.
pub proof fn lemma_repair_shrinks(s: Seq<char>)
    requires
        mojibake_repair(s) is Some,
    ensures
        vstd::utf8::encode_utf8(mojibake_repair(s)->0).len() < vstd::utf8::encode_utf8(s).len(),
{
    vstd::utf8::decode_utf8_encode_utf8(w1252_bytes(s));
}

/// The fixed text needs no further repair.
pub proof fn lemma_fixed_is_unrepairable(s: Seq<char>)
    ensures
        mojibake_repair(fix_mojibake_spec(s)) is None,
    decreases vstd::utf8::encode_utf8(s).len(),
{
    if mojibake_repair(s) is Some {
        lemma_repair_shrinks(s);
        lemma_fixed_is_unrepairable(mojibake_repair(s)->0);
    }
}

/// Repair is idempotent on every input: `fix(fix(s)) == fix(s)`.
pub proof fn lemma_fix_mojibake_idempotent(s: Seq<char>)
    ensures
        fix_mojibake_spec(fix_mojibake_spec(s)) == fix_mojibake_spec(s),
{
    lemma_fixed_is_unrepairable(s);
}

/// The character Windows-1252 decodes byte `b` to: the byte itself for
/// ASCII and for 0xA0..=0xFF, the Windows-1252 punctuation for the other
/// defined bytes of 0x80..=0x9F, and nothing for the five undefined bytes
/// 0x81, 0x8D, 0x8F, 0x90 and 0x9D.
pub open spec fn w1252_char(b: u8) -> Option<char> {
    if b < 0x80 || b >= 0xA0 {
        Some(b as char)
    } else if b == 0x80 {
        Some('\u{20AC}')
    } else if b == 0x82 {
        Some('\u{201A}')
    } else if b == 0x83 {
        Some('\u{0192}')
    } else if b == 0x84 {
        Some('\u{201E}')
    } else if b == 0x85 {
        Some('\u{2026}')
    } else if b == 0x86 {
        Some('\u{2020}')
    } else if b == 0x87 {
        Some('\u{2021}')
    } else if b == 0x88 {
        Some('\u{02C6}')
    } else if b == 0x89 {
        Some('\u{2030}')
    } else if b == 0x8A {
        Some('\u{0160}')
    } else if b == 0x8B {
        Some('\u{2039}')
    } else if b == 0x8C {
        Some('\u{0152}')
    } else if b == 0x8E {
        Some('\u{017D}')
    } else if b == 0x91 {
        Some('\u{2018}')
    } else if b == 0x92 {
        Some('\u{2019}')
    } else if b == 0x93 {
        Some('\u{201C}')
    } else if b == 0x94 {
        Some('\u{201D}')
    } else if b == 0x95 {
        Some('\u{2022}')
    } else if b == 0x96 {
        Some('\u{2013}')
    } else if b == 0x97 {
        Some('\u{2014}')
    } else if b == 0x98 {
        Some('\u{02DC}')
    } else if b == 0x99 {
        Some('\u{2122}')
    } else if b == 0x9A {
        Some('\u{0161}')
    } else if b == 0x9B {
        Some('\u{203A}')
    } else if b == 0x9C {
        Some('\u{0153}')
    } else if b == 0x9E {
        Some('\u{017E}')
    } else if b == 0x9F {
        Some('\u{0178}')
    } else {
        None
    }
}

/// Every byte of `b` is defined in Windows-1252.
pub open spec fn all_w1252_decodable(b: Seq<u8>) -> bool {
    forall|i: int| 0 <= i < b.len() ==> (#[trigger] w1252_char(b[i])) is Some
}

/// The mojibake of some UTF-8 bytes: each byte read as one Windows-1252
/// character.
pub open spec fn read_as_w1252(b: Seq<u8>) -> Seq<char> {
    Seq::new(b.len(), |i: int| w1252_char(b[i])->0)
}

/// A character from the blocks whose mis-decoded text the repair
/// recognises: Latin-1 Supplement and Latin Extended-A (U+0080..U+017F),
/// Greek (U+0380..U+03FF), Cyrillic (U+0400..U+047F), Arabic
/// (U+0600..U+06FF), and U+2000..U+2FFF (general punctuation and symbols).
pub open spec fn in_repaired_blocks(c: char) -> bool {
    let cp = c as u32;
    (0x80 <= cp && cp <= 0x17F) || (0x380 <= cp && cp <= 0x47F) || (0x600 <= cp && cp <= 0x6FF) || (
    0x2000 <= cp && cp <= 0x2FFF)
}

proof fn lemma_w1252_char_byte(b: u8)
    requires
        w1252_char(b) is Some,
    ensures
        w1252_byte(w1252_char(b)->0) == Some(b),
{
    if b < 0x80 || b >= 0xA0 {
        assert((b as char) as u32 == b as u32);
    }
}

proof fn lemma_encode_holds_lead(t: Seq<char>, j: int)
    requires
        0 <= j < t.len(),
    ensures
        exists|k: int|
            0 <= k < vstd::utf8::encode_utf8(t).len() && #[trigger] vstd::utf8::encode_utf8(t)[k]
                == vstd::utf8::encode_scalar(t[j] as u32)[0],
    decreases t.len(),
{
    let b = vstd::utf8::encode_utf8(t);
    let first = vstd::utf8::encode_scalar(t[0] as u32);
    assert(b == first + vstd::utf8::encode_utf8(t.drop_first()));
    assert(first.len() > 0);
    if j == 0 {
        assert(b[0] == first[0]);
    } else {
        lemma_encode_holds_lead(t.drop_first(), j - 1);
        assert(t.drop_first()[j - 1] == t[j]);
        let rest = vstd::utf8::encode_utf8(t.drop_first());
        let k = choose|k: int| 0 <= k < rest.len() && #[trigger] rest[k] == vstd::utf8::encode_scalar(
            t.drop_first()[j - 1] as u32,
        )[0];
        assert(b[first.len() + k] == rest[k]);
    }
}

/// The first UTF-8 byte of a character of the repaired blocks, read as
/// Windows-1252, is a character the repair looks for.
proof fn lemma_lead_is_trigger(c: char)
    requires
        in_repaired_blocks(c),
    ensures
        vstd::utf8::encode_scalar(c as u32)[0] >= 0xC2,
        w1252_char(vstd::utf8::encode_scalar(c as u32)[0]) is Some,
        is_mojibake_trigger(w1252_char(vstd::utf8::encode_scalar(c as u32)[0])->0),
{
    let v = c as u32;
    let lead = vstd::utf8::encode_scalar(v)[0];
    if v <= 0x7FF {
        assert(lead == vstd::utf8::leading_byte_width_2(v));
        assert((0x80 <= v && v <= 0x17F) ==> 0xC2 <= vstd::utf8::leading_byte_width_2(v) && vstd::utf8::leading_byte_width_2(v) <= 0xC5) by (bit_vector);
        assert((0x380 <= v && v <= 0x3FF) ==> 0xCE <= vstd::utf8::leading_byte_width_2(v) && vstd::utf8::leading_byte_width_2(v) <= 0xCF) by (bit_vector);
        assert((0x400 <= v && v <= 0x47F) ==> 0xD0 <= vstd::utf8::leading_byte_width_2(v) && vstd::utf8::leading_byte_width_2(v) <= 0xD1) by (bit_vector);
        assert((0x600 <= v && v <= 0x6FF) ==> 0xD8 <= vstd::utf8::leading_byte_width_2(v) && vstd::utf8::leading_byte_width_2(v) <= 0xDB) by (bit_vector);
    } else {
        assert(lead == vstd::utf8::leading_byte_width_3(v));
        assert((0x2000 <= v && v <= 0x2FFF) ==> vstd::utf8::leading_byte_width_3(v) == 0xE2) by (bit_vector);
    }
    let ch = w1252_char(lead)->0;
    assert(ch as u32 == lead as u32);
    assert(ch == '\u{00C2}' || ch == '\u{00C3}' || ch == '\u{00C4}' || ch == '\u{00C5}' || ch == '\u{00CE}'
        || ch == '\u{00CF}' || ch == '\u{00D0}' || ch == '\u{00D1}' || ch == '\u{00D8}' || ch
        == '\u{00D9}' || ch == '\u{00DA}' || ch == '\u{00DB}' || ch == '\u{00E2}');
}

/// Repair undoes mis-decoding: for text `t` that holds a character of the
/// repaired blocks (such as Cyrillic, Greek or Latin-1 text), is not
/// itself repairable, and whose UTF-8 bytes are all defined in
/// Windows-1252, fixing the Windows-1252 reading of those bytes gives `t`
/// back ("ÐœÐ¾Ð»Ñ‡Ð°Ñ‚" gives "Молчат", "Ã©" gives "é").
pub proof fn lemma_fix_undoes_misreading(t: Seq<char>)
    requires
        exists|j: int| 0 <= j < t.len() && in_repaired_blocks(#[trigger] t[j]),
        mojibake_repair(t) is None,
        all_w1252_decodable(vstd::utf8::encode_utf8(t)),
    ensures
        fix_mojibake_spec(read_as_w1252(vstd::utf8::encode_utf8(t))) == t,
{
    let b = vstd::utf8::encode_utf8(t);
    let m = read_as_w1252(b);
    let j = choose|j: int| 0 <= j < t.len() && in_repaired_blocks(#[trigger] t[j]);
    lemma_encode_holds_lead(t, j);
    let k = choose|k: int| 0 <= k < b.len() && #[trigger] b[k] == vstd::utf8::encode_scalar(t[j] as u32)[0];
    lemma_lead_is_trigger(t[j]);
    assert(m[k] == w1252_char(b[k])->0);
    assert(has_mojibake_trigger_spec(m));
    assert forall|i: int| 0 <= i < m.len() implies (#[trigger] w1252_byte(m[i])) is Some by {
        lemma_w1252_char_byte(b[i]);
    }
    assert(w1252_bytes(m) =~= b) by {
        assert forall|i: int| 0 <= i < b.len() implies w1252_bytes(m)[i] == b[i] by {
            lemma_w1252_char_byte(b[i]);
        }
    }
    assert(has_high_byte(b));
    vstd::utf8::encode_utf8_valid_utf8(t);
    vstd::utf8::encode_utf8_decode_utf8(t);
    assert((m[k] as u32) > 0x7F);
    lemma_utf8_len(m);
    assert(mojibake_repair(m) == Some(t));
    lemma_fix_mojibake_unrepairable(t);
    assert(fix_mojibake_spec(m) == fix_mojibake_spec(t));
}

/// Text holding none of the characters a mis-decoded UTF-8 lead byte of
/// the repaired blocks turns into (Â Ã Ä Å Î Ï Ð Ñ Ø Ù Ú Û â) is left as
/// it is: Swedish "Ö", or the Hebrew lead bytes Ö and ×, start no repair.
pub proof fn lemma_fix_leaves_text_without_leads(s: Seq<char>)
    requires
        forall|i: int|
            0 <= i < s.len() ==> !(#[trigger] s[i] == '\u{00C2}' || s[i] == '\u{00C3}' || s[i] == '\u{00C4}'
                || s[i] == '\u{00C5}' || s[i] == '\u{00CE}' || s[i] == '\u{00CF}' || s[i] == '\u{00D0}'
                || s[i] == '\u{00D1}' || s[i] == '\u{00D8}' || s[i] == '\u{00D9}' || s[i] == '\u{00DA}'
                || s[i] == '\u{00DB}' || s[i] == '\u{00E2}'),
    ensures
        fix_mojibake_spec(s) == s,
{
    assert(!has_mojibake_trigger_spec(s));
    lemma_fix_mojibake_unrepairable(s);
}

} // verus!
