//! The three canonical text forms.
//!
//! - [`to_storage_form`]: bytes to store (mojibake repair, NFC, trim).
//! - [`to_match_form`]: equivalence-class form for comparison.
//! - [`to_ascii_form`]: last-resort ASCII reduction.

use vstd::prelude::*;

use super::chars;
use super::folds;
use super::mojibake;
use super::unicode;

verus! {

/// Canonical bytes to store: mojibake repair, NFC, then ASCII spaces
/// trimmed at both ends.
pub open spec fn to_storage_form_spec(s: Seq<char>) -> Seq<char> {
    chars::trim_spaces(unicode::nfc_of(mojibake::fix_mojibake_spec(s)))
}

/// Default lowercase mapping applied to each character.
pub open spec fn lower_all(s: Seq<char>) -> Seq<char> {
    chars::flat_map(s, |c: char| unicode::lowercase_of(c))
}

/// Latin (Basic Latin through Latin Extended-B, Extended Additional,
/// Extended-C/D/E) and Greek (incl. Greek Extended): scripts in which a
/// combining diacritic is decoration rather than a distinct letter.
pub open spec fn is_decoration_script(c: char) -> bool {
    let cp = c as u32;
    cp <= 0x024F || (0x1E00 <= cp && cp <= 0x1EFF) || (0x2C60 <= cp && cp <= 0x2C7F) || (0xA720
        <= cp && cp <= 0xA7FF) || (0xAB30 <= cp && cp <= 0xAB6F) || (0x0370 <= cp && cp <= 0x03FF)
        || (0x1F00 <= cp && cp <= 0x1FFF)
}

/// Walk a decomposed sequence, dropping each combining mark whose most
/// recent base character is in a decoration script. `prev` is that base.
pub open spec fn select_marks(s: Seq<char>, prev: Option<char>) -> Seq<char>
    decreases s.len(),
{
    if s.len() == 0 {
        seq![]
    } else {
        let c = s[0];
        if unicode::is_mark_of(c) {
            if prev matches Some(b) && is_decoration_script(b) {
                select_marks(s.drop_first(), prev)
            } else {
                seq![c] + select_marks(s.drop_first(), prev)
            }
        } else {
            seq![c] + select_marks(s.drop_first(), Some(c))
        }
    }
}

/// NFD, drop Latin/Greek decoration marks, NFC.
pub open spec fn strip_combining_selective_spec(s: Seq<char>) -> Seq<char> {
    unicode::nfc_of(select_marks(unicode::nfd_of(s), None))
}

pub open spec fn keeps_format_char(c: char) -> bool {
    c == '\u{200D}' || !unicode::is_other_format_of(c)
}

/// Cf format characters removed, except U+200D ZWJ.
pub open spec fn strip_cf_spec(s: Seq<char>) -> Seq<char> {
    chars::keep(s, |c: char| keeps_format_char(c))
}

/// Runs of ASCII space collapsed to one space; a space right after
/// `prev_space` (or at the start, when `prev_space`) is dropped.
pub open spec fn collapse_runs(s: Seq<char>, prev_space: bool) -> Seq<char>
    decreases s.len(),
{
    if s.len() == 0 {
        seq![]
    } else if s[0] == ' ' {
        if prev_space {
            collapse_runs(s.drop_first(), true)
        } else {
            seq![' '] + collapse_runs(s.drop_first(), true)
        }
    } else {
        seq![s[0]] + collapse_runs(s.drop_first(), false)
    }
}

/// Runs of ASCII space collapsed to one, leading and trailing ASCII space
/// removed. Other whitespace (TAB etc.) is kept.
pub open spec fn collapse_and_trim_spec(s: Seq<char>) -> Seq<char> {
    let r = collapse_runs(s, true);
    if r.len() > 0 && r.last() == ' ' {
        r.drop_last()
    } else {
        r
    }
}

/// The match form: storage form, NFKC, lowercase, selective mark strip,
/// fold registry, Cf strip (keeping ZWJ), ASCII-space collapse and trim.
pub open spec fn to_match_form_spec(s: Seq<char>) -> Seq<char> {
    collapse_and_trim_spec(
        strip_cf_spec(
            folds::apply_folds_spec(
                strip_combining_selective_spec(lower_all(unicode::nfkc_of(to_storage_form_spec(s)))),
            ),
        ),
    )
}

pub open spec fn keeps_non_symbol(c: char) -> bool {
    !unicode::is_symbol_other_of(c)
}

/// Cyrillic Ё/ё transliterate as "Yo"/"yo".
pub open spec fn yo_char(c: char) -> Seq<char> {
    if c == '\u{0401}' {
        seq!['Y', 'o']
    } else if c == '\u{0451}' {
        seq!['y', 'o']
    } else {
        seq![c]
    }
}

pub open spec fn is_ascii_char(c: char) -> bool {
    c as u32 <= 0x7F
}

/// The ASCII form: match form, So symbols dropped, Ё/ё pre-substituted,
/// transliterated, lowercased, non-ASCII residue dropped, spaces collapsed.
pub open spec fn to_ascii_form_spec(s: Seq<char>) -> Seq<char> {
    let pre = chars::flat_map(
        chars::keep(to_match_form_spec(s), |c: char| keeps_non_symbol(c)),
        |c: char| yo_char(c),
    );
    collapse_and_trim_spec(
        chars::keep(lower_all(unicode::deunicode_of(pre)), |c: char| is_ascii_char(c)),
    )
}

pub open spec fn no_double_space(t: Seq<char>) -> bool {
    forall|i: int| 0 <= i < t.len() - 1 ==> !(#[trigger] t[i] == ' ' && t[i + 1] == ' ')
}

/// No leading, trailing or doubled ASCII space.
pub open spec fn is_collapsed(t: Seq<char>) -> bool {
    &&& (t.len() > 0 ==> t[0] != ' ' && t.last() != ' ')
    &&& no_double_space(t)
}

proof fn lemma_collapse_runs_shape(s: Seq<char>, prev: bool)
    ensures
        no_double_space(collapse_runs(s, prev)),
        prev ==> collapse_runs(s, prev).len() == 0 || collapse_runs(s, prev)[0] != ' ',
    decreases s.len(),
{
    if s.len() > 0 {
        let rest_prev = s[0] == ' ';
        lemma_collapse_runs_shape(s.drop_first(), rest_prev);
        let tail = collapse_runs(s.drop_first(), rest_prev);
        let r = collapse_runs(s, prev);
        if s[0] == ' ' && prev {
        } else {
            let head = if s[0] == ' ' { ' ' } else { s[0] };
            assert(r == seq![head] + tail);
            assert forall|i: int| 0 <= i < r.len() - 1 implies !(#[trigger] r[i] == ' ' && r[i
                + 1] == ' ') by {
                if i > 0 {
                    assert(r[i] == tail[i - 1]);
                    assert(r[i + 1] == tail[i]);
                } else {
                    assert(r[1] == tail[0]);
                }
            }
        }
    }
}

proof fn lemma_collapse_runs_identity(t: Seq<char>, prev: bool)
    requires
        no_double_space(t),
        prev ==> t.len() == 0 || t[0] != ' ',
    ensures
        collapse_runs(t, prev) == t,
    decreases t.len(),
{
    if t.len() > 0 {
        let u = t.drop_first();
        assert forall|i: int| 0 <= i < u.len() - 1 implies !(#[trigger] u[i] == ' ' && u[i + 1]
            == ' ') by {
            assert(u[i] == t[i + 1]);
            assert(u[i + 1] == t[i + 2]);
        }
        if t[0] == ' ' {
            if u.len() > 0 {
                assert(t[1] == u[0]);
            }
            lemma_collapse_runs_identity(u, true);
        } else {
            lemma_collapse_runs_identity(u, false);
        }
        assert(seq![t[0]] + u == t);
    }
}

/// The collapse-and-trim result never has a leading, trailing or doubled
/// ASCII space.
pub proof fn lemma_collapse_and_trim_is_collapsed(s: Seq<char>)
    ensures
        is_collapsed(collapse_and_trim_spec(s)),
{
    lemma_collapse_runs_shape(s, true);
    let r = collapse_runs(s, true);
    let t = collapse_and_trim_spec(s);
    if r.len() > 0 && r.last() == ' ' {
        assert forall|i: int| 0 <= i < t.len() - 1 implies !(#[trigger] t[i] == ' ' && t[i + 1]
            == ' ') by {
            assert(t[i] == r[i]);
            assert(t[i + 1] == r[i + 1]);
        }
        if t.len() > 0 {
            assert(t[0] == r[0]);
            assert(t.last() == r[r.len() - 2]);
            assert(r[r.len() - 1] == ' ');
        }
    }
}

/// Text that is already collapsed is left unchanged.
pub proof fn lemma_collapse_and_trim_fixes_collapsed(t: Seq<char>)
    requires
        is_collapsed(t),
    ensures
        collapse_and_trim_spec(t) == t,
{
    lemma_collapse_runs_identity(t, true);
}

/// Collapsing and trimming ASCII space is idempotent.
pub proof fn lemma_collapse_and_trim_idempotent(s: Seq<char>)
    ensures
        collapse_and_trim_spec(collapse_and_trim_spec(s)) == collapse_and_trim_spec(s),
{
    lemma_collapse_and_trim_is_collapsed(s);
    lemma_collapse_and_trim_fixes_collapsed(collapse_and_trim_spec(s));
}

/// Every match form is collapsed: no leading, trailing or doubled ASCII
/// space (TAB and other whitespace are kept as they are).
pub proof fn lemma_match_form_is_collapsed(s: Seq<char>)
    ensures
        is_collapsed(to_match_form_spec(s)),
{
    lemma_collapse_and_trim_is_collapsed(
        strip_cf_spec(
            folds::apply_folds_spec(
                strip_combining_selective_spec(lower_all(unicode::nfkc_of(to_storage_form_spec(s)))),
            ),
        ),
    );
}

proof fn lemma_collapse_runs_keeps_chars(s: Seq<char>, prev: bool, p: spec_fn(char) -> bool)
    requires
        forall|i: int| 0 <= i < s.len() ==> p(#[trigger] s[i]),
    ensures
        forall|i: int| 0 <= i < collapse_runs(s, prev).len() ==> p(#[trigger] collapse_runs(s, prev)[i]),
    decreases s.len(),
{
    if s.len() > 0 {
        let u = s.drop_first();
        assert forall|i: int| 0 <= i < u.len() implies p(#[trigger] u[i]) by {
            assert(u[i] == s[i + 1]);
        }
        lemma_collapse_runs_keeps_chars(u, s[0] == ' ', p);
        let tail = collapse_runs(u, s[0] == ' ');
        let r = collapse_runs(s, prev);
        assert forall|i: int| 0 <= i < r.len() implies p(#[trigger] r[i]) by {
            if !(s[0] == ' ' && prev) {
                if i > 0 {
                    assert(r[i] == tail[i - 1]);
                } else {
                    assert(r[0] == s[0]);
                }
            }
        }
    }
}

/// No match form holds a character the fold registry rewrites (final
/// sigma, æ, œ), nor a format (Cf) character other than ZWJ.
pub proof fn lemma_match_form_chars(s: Seq<char>)
    ensures
        forall|i: int|
            0 <= i < to_match_form_spec(s).len() ==> !folds::is_fold_trigger_spec(
                #[trigger] to_match_form_spec(s)[i],
            ) && keeps_format_char(to_match_form_spec(s)[i]),
{
    let m = strip_combining_selective_spec(lower_all(unicode::nfkc_of(to_storage_form_spec(s))));
    let f = folds::apply_folds_spec(m);
    let k = strip_cf_spec(f);
    let q = |c: char| !folds::is_fold_trigger_spec(c) && keeps_format_char(c);
    folds::lemma_fold_output_has_no_trigger(m);
    chars::lemma_keep_all(f, |c: char| keeps_format_char(c));
    chars::lemma_keep_preserves(f, |c: char| keeps_format_char(c), |c: char| !folds::is_fold_trigger_spec(c));
    assert forall|i: int| 0 <= i < k.len() implies q(#[trigger] k[i]) by {}
    lemma_collapse_runs_keeps_chars(k, true, q);
    let r = collapse_runs(k, true);
    let t = to_match_form_spec(s);
    assert forall|i: int| 0 <= i < t.len() implies q(#[trigger] t[i]) by {
        assert(t[i] == r[i]);
    }
}

/// Every ASCII form is pure ASCII and collapsed.
pub proof fn lemma_ascii_form_shape(s: Seq<char>)
    ensures
        is_collapsed(to_ascii_form_spec(s)),
        forall|i: int|
            0 <= i < to_ascii_form_spec(s).len() ==> is_ascii_char(
                #[trigger] to_ascii_form_spec(s)[i],
            ),
{
    let pre = chars::flat_map(
        chars::keep(to_match_form_spec(s), |c: char| keeps_non_symbol(c)),
        |c: char| yo_char(c),
    );
    let a = chars::keep(lower_all(unicode::deunicode_of(pre)), |c: char| is_ascii_char(c));
    lemma_collapse_and_trim_is_collapsed(a);
    chars::lemma_keep_all(lower_all(unicode::deunicode_of(pre)), |c: char| is_ascii_char(c));
    lemma_collapse_runs_keeps_chars(a, true, |c: char| is_ascii_char(c));
    let r = collapse_runs(a, true);
    let t = to_ascii_form_spec(s);
    assert forall|i: int| 0 <= i < t.len() implies is_ascii_char(#[trigger] t[i]) by {
        assert(t[i] == r[i]);
    }
}

/// The storage form is stable under a second pass whenever the stored
/// text needs no mojibake repair and is its own NFC form.
pub proof fn lemma_storage_form_idempotent(s: Seq<char>)
    requires
        mojibake::mojibake_repair(to_storage_form_spec(s)) is None,
        unicode::nfc_of(to_storage_form_spec(s)) == to_storage_form_spec(s),
    ensures
        to_storage_form_spec(to_storage_form_spec(s)) == to_storage_form_spec(s),
{
    let t = to_storage_form_spec(s);
    mojibake::lemma_fix_mojibake_unrepairable(t);
    chars::lemma_trim_by_idempotent(
        unicode::nfc_of(mojibake::fix_mojibake_spec(s)),
        |c: char| chars::is_ascii_space(c),
    );
}

/// The match form is stable under a second pass whenever the outside
/// normalization steps leave the match form `t` as it is: its storage
/// form, NFKC form, lowercase form and mark-stripped form are `t` itself.
/// The fold, format-strip and space-collapse steps then leave it unchanged
/// too.
pub proof fn lemma_match_form_idempotent(s: Seq<char>)
    requires
        to_storage_form_spec(to_match_form_spec(s)) == to_match_form_spec(s),
        unicode::nfkc_of(to_match_form_spec(s)) == to_match_form_spec(s),
        lower_all(to_match_form_spec(s)) == to_match_form_spec(s),
        strip_combining_selective_spec(to_match_form_spec(s)) == to_match_form_spec(s),
    ensures
        to_match_form_spec(to_match_form_spec(s)) == to_match_form_spec(s),
{
    let t = to_match_form_spec(s);
    lemma_match_form_chars(s);
    lemma_match_form_is_collapsed(s);
    folds::lemma_folds_identity_without_triggers(t);
    chars::lemma_keep_identity(t, |c: char| keeps_format_char(c));
    lemma_collapse_and_trim_fixes_collapsed(t);
}

/// Each form refines the next: texts with the same storage form have the
/// same match form, and texts with the same match form have the same
/// ASCII form.
pub proof fn lemma_forms_coarsen(a: Seq<char>, b: Seq<char>)
    ensures
        to_storage_form_spec(a) == to_storage_form_spec(b) ==> to_match_form_spec(a)
            == to_match_form_spec(b),
        to_match_form_spec(a) == to_match_form_spec(b) ==> to_ascii_form_spec(a)
            == to_ascii_form_spec(b),
{
}

/// Stripping format characters is idempotent.
pub proof fn lemma_strip_cf_idempotent(s: Seq<char>)
    ensures
        strip_cf_spec(strip_cf_spec(s)) == strip_cf_spec(s),
{
    chars::lemma_keep_all(s, |c: char| keeps_format_char(c));
    chars::lemma_keep_identity(strip_cf_spec(s), |c: char| keeps_format_char(c));
}

/// Canonical bytes to store: mojibake repair, NFC, trim ASCII spaces.
pub fn to_storage_form(s: &str) -> (r: String)
    ensures
        r@ == to_storage_form_spec(s@),
{
    let fixed = mojibake::fix_mojibake(s);
    let composed = unicode::nfc(fixed.as_str());
    let v = chars::chars_of(composed.as_str());
    let t = chars::trim_spaces_vec(&v);
    chars::string_of(&t)
}

/// Lowercase every character (`char::to_lowercase`).
pub fn lower_all_vec(v: &[char]) -> (r: Vec<char>)
    ensures
        r@ == lower_all(v@),
{
    let mut out: Vec<char> = Vec::new();
    let mut i: usize = 0;
    while i < v.len()
        invariant
            i <= v.len(),
            out@ == lower_all(v@.take(i as int)),
        decreases v.len() - i,
    {
        proof {
            chars::lemma_flat_map_take_step(v@, i as int, |c: char| unicode::lowercase_of(c));
        }
        let low = unicode::lowercase_char(v[i]);
        chars::extend_chars(&mut out, &low);
        i += 1;
    }
    assert(v@.take(v.len() as int) == v@);
    out
}

/// Executable form of [`is_decoration_script`].
pub fn is_diacritic_decoration_script(c: char) -> (r: bool)
    ensures
        r == is_decoration_script(c),
{
    let cp = c as u32;
    cp <= 0x024F || (0x1E00 <= cp && cp <= 0x1EFF) || (0x2C60 <= cp && cp <= 0x2C7F) || (0xA720
        <= cp && cp <= 0xA7FF) || (0xAB30 <= cp && cp <= 0xAB6F) || (0x0370 <= cp && cp <= 0x03FF)
        || (0x1F00 <= cp && cp <= 0x1FFF)
}

/// NFD-decompose, drop combining marks whose base is Latin or Greek, then
/// re-NFC.
pub fn strip_combining_selective(s: &str) -> (r: String)
    ensures
        r@ == strip_combining_selective_spec(s@),
{
    let d = unicode::nfd(s);
    let mut buf: Vec<char> = Vec::new();
    let mut prev: Option<char> = None;
    let mut i: usize = 0;
    assert(d@.skip(0) == d@);
    while i < d.len()
        invariant
            i <= d.len(),
            buf@ + select_marks(d@.skip(i as int), prev) == select_marks(d@, None),
        decreases d.len() - i,
    {
        let c = d[i];
        assert(d@.skip(i as int)[0] == c);
        assert(d@.skip(i as int).drop_first() == d@.skip(i + 1));
        if unicode::is_mark(c) {
            let drop = match prev {
                Some(b) => is_diacritic_decoration_script(b),
                None => false,
            };
            if !drop {
                assert(buf@.push(c) + select_marks(d@.skip(i + 1), prev) == buf@ + (seq![c]
                    + select_marks(d@.skip(i + 1), prev)));
                buf.push(c);
            }
        } else {
            assert(buf@.push(c) + select_marks(d@.skip(i + 1), Some(c)) == buf@ + (seq![c]
                + select_marks(d@.skip(i + 1), Some(c))));
            buf.push(c);
            prev = Some(c);
        }
        i += 1;
    }
    assert(d@.skip(d.len() as int) == Seq::<char>::empty());
    assert(buf@ + Seq::<char>::empty() == buf@);
    let joined = chars::string_of(&buf);
    unicode::nfc(joined.as_str())
}

/// Drop Unicode Cf (format) characters, except U+200D ZWJ.
pub fn strip_cf_except_zwj(v: &[char]) -> (r: Vec<char>)
    ensures
        r@ == strip_cf_spec(v@),
{
    let mut out: Vec<char> = Vec::new();
    let mut i: usize = 0;
    while i < v.len()
        invariant
            i <= v.len(),
            out@ == strip_cf_spec(v@.take(i as int)),
        decreases v.len() - i,
    {
        let c = v[i];
        proof {
            chars::lemma_keep_take_step(v@, i as int, |c: char| keeps_format_char(c));
        }
        if c == '\u{200D}' || !unicode::is_other_format(c) {
            out.push(c);
        }
        i += 1;
    }
    assert(v@.take(v.len() as int) == v@);
    out
}

/// Collapse runs of ASCII space to a single space; trim leading and
/// trailing ASCII space. Other whitespace is left alone.
pub fn collapse_and_trim_ascii_space(v: &[char]) -> (r: Vec<char>)
    ensures
        r@ == collapse_and_trim_spec(v@),
{
    let mut out: Vec<char> = Vec::new();
    let mut prev_space = true;
    let mut i: usize = 0;
    assert(v@.skip(0) == v@);
    while i < v.len()
        invariant
            i <= v.len(),
            out@ + collapse_runs(v@.skip(i as int), prev_space) == collapse_runs(v@, true),
        decreases v.len() - i,
    {
        let c = v[i];
        assert(v@.skip(i as int)[0] == c);
        assert(v@.skip(i as int).drop_first() == v@.skip(i + 1));
        if c == ' ' {
            if !prev_space {
                assert(out@.push(' ') + collapse_runs(v@.skip(i + 1), true) == out@ + (seq![' ']
                    + collapse_runs(v@.skip(i + 1), true)));
                out.push(' ');
                prev_space = true;
            }
        } else {
            assert(out@.push(c) + collapse_runs(v@.skip(i + 1), false) == out@ + (seq![c]
                + collapse_runs(v@.skip(i + 1), false)));
            out.push(c);
            prev_space = false;
        }
        i += 1;
    }
    assert(v@.skip(v.len() as int) == Seq::<char>::empty());
    assert(out@ + Seq::<char>::empty() == out@);
    if out.len() > 0 && out[out.len() - 1] == ' ' {
        out.pop();
    }
    out
}

/// Equivalence-class form for comparison; never stored.
pub fn to_match_form(s: &str) -> (r: String)
    ensures
        r@ == to_match_form_spec(s@),
{
    let storage = to_storage_form(s);
    let compat = unicode::nfkc(storage.as_str());
    let cv = chars::chars_of(compat.as_str());
    let lower = lower_all_vec(&cv);
    let lower_s = chars::string_of(&lower);
    let stripped = strip_combining_selective(lower_s.as_str());
    let sv = chars::chars_of(stripped.as_str());
    let folded = folds::apply_folds_vec(&sv);
    let cf = strip_cf_except_zwj(&folded);
    let collapsed = collapse_and_trim_ascii_space(&cf);
    chars::string_of(&collapsed)
}

/// Last-resort ASCII reduction for lenient cross-script search.
pub fn to_ascii_form(s: &str) -> (r: String)
    ensures
        r@ == to_ascii_form_spec(s@),
{
    let matched = to_match_form(s);
    let mv = chars::chars_of(matched.as_str());
    let mut pre: Vec<char> = Vec::new();
    let mut i: usize = 0;
    while i < mv.len()
        invariant
            i <= mv.len(),
            pre@ == chars::flat_map(
                chars::keep(mv@.take(i as int), |c: char| keeps_non_symbol(c)),
                |c: char| yo_char(c),
            ),
        decreases mv.len() - i,
    {
        let c = mv[i];
        let ghost prefix_kept = chars::keep(mv@.take(i as int), |c: char| keeps_non_symbol(c));
        proof {
            chars::lemma_keep_take_step(mv@, i as int, |c: char| keeps_non_symbol(c));
        }
        if !unicode::is_symbol_other(c) {
            proof {
                chars::lemma_flat_map_push(prefix_kept, c, |c: char| yo_char(c));
            }
            if c == '\u{0401}' {
                pre.push('Y');
                pre.push('o');
            } else if c == '\u{0451}' {
                pre.push('y');
                pre.push('o');
            } else {
                pre.push(c);
            }
        }
        i += 1;
    }
    assert(mv@.take(mv.len() as int) == mv@);
    let pre_s = chars::string_of(&pre);
    let translit = unicode::transliterate(pre_s.as_str());
    let tv = chars::chars_of(translit.as_str());
    let lowered = lower_all_vec(&tv);
    let mut ascii: Vec<char> = Vec::new();
    let mut k: usize = 0;
    while k < lowered.len()
        invariant
            k <= lowered.len(),
            ascii@ == chars::keep(lowered@.take(k as int), |c: char| is_ascii_char(c)),
        decreases lowered.len() - k,
    {
        let c = lowered[k];
        proof {
            chars::lemma_keep_take_step(lowered@, k as int, |c: char| is_ascii_char(c));
        }
        if (c as u32) <= 0x7F {
            ascii.push(c);
        }
        k += 1;
    }
    assert(lowered@.take(lowered.len() as int) == lowered@);
    let collapsed = collapse_and_trim_ascii_space(&ascii);
    chars::string_of(&collapsed)
}

} // verus!
