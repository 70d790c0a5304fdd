//! Cross-cache identity match form, the layered normalizer used for
//! identity joins across the library and the external caches.
//!
//! Strictly more aggressive than the match form: a trailing parenthetical
//! or bracketed group and a leading (or Discogs comma-form) English article
//! are dropped. Opt-in variants add punctuation collapse and the trailing
//! ` /N` artist-disambiguator strip.

use vstd::prelude::*;

use super::chars;
use super::forms;
use super::unicode;

verus! {

/// Scanning `t` leftwards from index `j` with `depth` unmatched closers,
/// the index of the `open` that balances the final `close`.
pub open spec fn matching_open(t: Seq<char>, open: char, close: char, j: int, depth: nat) -> Option<
    int,
>
    decreases j + 1,
{
    if j < 0 || j >= t.len() {
        None
    } else if t[j] == close {
        matching_open(t, open, close, j - 1, depth + 1)
    } else if t[j] == open {
        if depth <= 1 {
            Some(j)
        } else {
            matching_open(t, open, close, j - 1, (depth - 1) as nat)
        }
    } else {
        matching_open(t, open, close, j - 1, depth)
    }
}

/// Strip one trailing `(...)` or `[...]` group and the ASCII space before
/// it; unchanged when there is no trailing closer, the group is unbalanced,
/// or the group starts the text.
pub open spec fn strip_trailing_parens_spec(s: Seq<char>) -> Seq<char> {
    let t = chars::trim_end_spaces(s);
    if t.len() == 0 {
        s
    } else if t.last() == ')' || t.last() == ']' {
        let open = if t.last() == ')' {
            '('
        } else {
            '['
        };
        match matching_open(t, open, t.last(), t.len() - 1, 0) {
            None => s,
            Some(idx) => if idx == 0 {
                s
            } else {
                chars::trim_end_spaces(t.take(idx))
            },
        }
    } else {
        s
    }
}

pub open spec fn the_sp() -> Seq<char> {
    seq!['t', 'h', 'e', ' ']
}

pub open spec fn a_sp() -> Seq<char> {
    seq!['a', ' ']
}

pub open spec fn an_sp() -> Seq<char> {
    seq!['a', 'n', ' ']
}

pub open spec fn comma_the() -> Seq<char> {
    seq![',', ' ', 't', 'h', 'e']
}

pub open spec fn comma_a() -> Seq<char> {
    seq![',', ' ', 'a']
}

pub open spec fn comma_an() -> Seq<char> {
    seq![',', ' ', 'a', 'n']
}

/// `suffix` ends `s` and leaves a non-empty stem.
pub open spec fn strippable_suffix(s: Seq<char>, suffix: Seq<char>) -> bool {
    suffix.is_suffix_of(s) && s.len() > suffix.len()
}

/// The text after a leading `the `, `a ` or `an `, if there is one.
pub open spec fn leading_space_article_spec(s: Seq<char>) -> Option<Seq<char>> {
    if the_sp().is_prefix_of(s) {
        Some(s.skip(4))
    } else if a_sp().is_prefix_of(s) {
        Some(s.skip(2))
    } else if an_sp().is_prefix_of(s) {
        Some(s.skip(3))
    } else {
        None
    }
}

/// The stem before a trailing `, the`, `, a` or `, an`, if there is one and
/// it is not empty.
pub open spec fn trailing_comma_article_spec(s: Seq<char>) -> Option<Seq<char>> {
    if strippable_suffix(s, comma_the()) {
        Some(s.take(s.len() - 5))
    } else if strippable_suffix(s, comma_a()) {
        Some(s.take(s.len() - 3))
    } else if strippable_suffix(s, comma_an()) {
        Some(s.take(s.len() - 4))
    } else {
        None
    }
}

/// Drop one leading `the `/`a `/`an `, or else one trailing `, the`/`, a`/
/// `, an` that leaves a non-empty stem.
pub open spec fn drop_articles_spec(s: Seq<char>) -> Seq<char> {
    match leading_space_article_spec(s) {
        Some(rest) => rest,
        None => match trailing_comma_article_spec(s) {
            Some(stem) => stem,
            None => s,
        },
    }
}

/// Every character of `s` is whitespace (true of the empty text).
pub open spec fn is_blank(s: Seq<char>) -> bool {
    forall|i: int| 0 <= i < s.len() ==> chars::is_white_space(#[trigger] s[i])
}

/// The empty text for a blank text, else the text itself.
pub open spec fn blank_to_empty(s: Seq<char>) -> Seq<char> {
    if is_blank(s) {
        seq![]
    } else {
        s
    }
}

/// Match form, trailing group stripped, article dropped, spaces collapsed;
/// a result with no non-whitespace character is empty.
pub open spec fn identity_baseline_spec(s: Seq<char>) -> Seq<char> {
    blank_to_empty(
        forms::collapse_and_trim_spec(
            drop_articles_spec(strip_trailing_parens_spec(forms::to_match_form_spec(s))),
        ),
    )
}

pub open spec fn is_word_char(c: char) -> bool {
    unicode::is_letter_of(c) || unicode::is_number_of(c) || chars::is_white_space(c)
}

/// Each run of characters that are not letters, numbers or whitespace
/// becomes one ASCII space; `prev` says the previous character was such a
/// replacement.
pub open spec fn collapse_punct_runs(s: Seq<char>, prev: bool) -> Seq<char>
    decreases s.len(),
{
    if s.len() == 0 {
        seq![]
    } else if is_word_char(s[0]) {
        seq![s[0]] + collapse_punct_runs(s.drop_first(), false)
    } else if !prev {
        seq![' '] + collapse_punct_runs(s.drop_first(), true)
    } else {
        collapse_punct_runs(s.drop_first(), true)
    }
}

/// Identity form with punctuation runs collapsed to single spaces.
pub open spec fn with_punctuation_spec(s: Seq<char>) -> Seq<char> {
    blank_to_empty(
        forms::collapse_and_trim_spec(
            collapse_punct_runs(
                drop_articles_spec(strip_trailing_parens_spec(forms::to_match_form_spec(s))),
                false,
            ),
        ),
    )
}

pub open spec fn is_ascii_digit(c: char) -> bool {
    '0' <= c && c <= '9'
}

/// Strip a trailing `\s+/\d+` (whitespace, slash, ASCII digits); at least
/// one whitespace character must precede the slash.
pub open spec fn strip_trailing_disambiguator_spec(s: Seq<char>) -> Seq<char> {
    if s.len() == 0 || !is_ascii_digit(s.last()) {
        s
    } else {
        let end = s.len() - chars::trailing_count(s, |c: char| is_ascii_digit(c));
        if end == 0 || s[end - 1] != '/' {
            s
        } else {
            let slash = end - 1;
            let after_spaces = slash - chars::trailing_count(
                s.take(slash),
                |c: char| chars::is_white_space(c),
            );
            if after_spaces == slash {
                s
            } else {
                s.take(after_spaces)
            }
        }
    }
}

/// Identity form with a trailing ` /N` disambiguator stripped.
pub open spec fn with_disambiguator_strip_spec(s: Seq<char>) -> Seq<char> {
    strip_trailing_disambiguator_spec(identity_baseline_spec(s))
}

/// CPython's `\s` for `str` patterns: `White_Space` and U+001C..=U+001F.
pub open spec fn is_python_whitespace_spec(c: char) -> bool {
    chars::is_white_space(c) || ('\u{1C}' <= c && c <= '\u{1F}')
}

/// Result of stripping `article` from the front of `s`: followed by the
/// end of text or by whitespace (which is consumed).
pub open spec fn try_strip_article(s: Seq<char>, article: Seq<char>) -> Option<Seq<char>> {
    if article.is_prefix_of(s) {
        let rest = s.skip(article.len() as int);
        if rest.len() == 0 {
            Some(rest)
        } else if is_python_whitespace_spec(rest[0]) {
            Some(chars::trim_start_by(rest, |c: char| is_python_whitespace_spec(c)))
        } else {
            None
        }
    } else {
        None
    }
}

pub open spec fn the_word() -> Seq<char> {
    seq!['t', 'h', 'e']
}

pub open spec fn a_word() -> Seq<char> {
    seq!['a']
}

pub open spec fn an_word() -> Seq<char> {
    seq!['a', 'n']
}

/// Leading `the`, `a` or `an` (tried in that order) stripped together
/// with the whitespace after it; unchanged when none applies.
pub open spec fn strip_leading_article_spec(s: Seq<char>) -> Seq<char> {
    match try_strip_article(s, the_word()) {
        Some(r) => r,
        None => match try_strip_article(s, a_word()) {
            Some(r) => r,
            None => match try_strip_article(s, an_word()) {
                Some(r) => r,
                None => s,
            },
        },
    }
}

/// Identity-match form; the canonical entry point for cross-cache identity
/// matching. An input that reduces to nothing but whitespace gives the
/// empty string.
pub fn to_identity_match_form(s: &str) -> (r: String)
    ensures
        r@ == identity_baseline_spec(s@),
{
    identity_baseline(s)
}

/// Title counterpart to [`to_identity_match_form`]; identical today.
pub fn to_identity_match_form_title(s: &str) -> (r: String)
    ensures
        r@ == identity_baseline_spec(s@),
{
    identity_baseline(s)
}

/// Identity form plus punctuation collapse: each run of characters that
/// are not letters, numbers or whitespace becomes one ASCII space.
pub fn to_identity_match_form_with_punctuation(s: &str) -> (r: String)
    ensures
        r@ == with_punctuation_spec(s@),
{
    let m = forms::to_match_form(s);
    let mv = chars::chars_of(m.as_str());
    let p = strip_trailing_parens(&mv);
    let d = drop_articles(&p);
    let c = collapse_punctuation_to_space(&d);
    let out = forms::collapse_and_trim_ascii_space(&c);
    let out = empty_if_blank(out);
    chars::string_of(&out)
}

/// Identity form plus the trailing ` /N` artist-disambiguator strip.
pub fn to_identity_match_form_with_disambiguator_strip(s: &str) -> (r: String)
    ensures
        r@ == with_disambiguator_strip_spec(s@),
{
    let baseline = identity_baseline(s);
    let bv = chars::chars_of(baseline.as_str());
    let out = strip_trailing_disambiguator(&bv);
    chars::string_of(&out)
}

fn identity_baseline(s: &str) -> (r: String)
    ensures
        r@ == identity_baseline_spec(s@),
{
    let m = forms::to_match_form(s);
    let mv = chars::chars_of(m.as_str());
    let p = strip_trailing_parens(&mv);
    let d = drop_articles(&p);
    let out = forms::collapse_and_trim_ascii_space(&d);
    let out = empty_if_blank(out);
    chars::string_of(&out)
}

/// The empty vector when every character of `v` is whitespace.
fn empty_if_blank(v: Vec<char>) -> (r: Vec<char>)
    ensures
        r@ == blank_to_empty(v@),
{
    let mut i: usize = 0;
    while i < v.len()
        invariant
            i <= v@.len(),
            forall|j: int| 0 <= j < i ==> chars::is_white_space(#[trigger] v@[j]),
        decreases v.len() - i,
    {
        if !chars::is_white_space_char(v[i]) {
            return v;
        }
        i += 1;
    }
    Vec::new()
}

fn is_word_character(c: char) -> (r: bool)
    ensures
        r == is_word_char(c),
{
    unicode::is_letter(c) || unicode::is_number(c) || chars::is_white_space_char(c)
}

/// Replace each run of non-letter, non-number, non-whitespace characters
/// with a single ASCII space.
pub fn collapse_punctuation_to_space(v: &[char]) -> (r: Vec<char>)
    ensures
        r@ == collapse_punct_runs(v@, false),
{
    let mut out: Vec<char> = Vec::new();
    let mut prev = false;
    let mut i: usize = 0;
    assert(v@.skip(0) == v@);
    while i < v.len()
        invariant
            i <= v.len(),
            out@ + collapse_punct_runs(v@.skip(i as int), prev) == collapse_punct_runs(v@, false),
        decreases v.len() - i,
    {
        let c = v[i];
        assert(v@.skip(i as int)[0] == c);
        assert(v@.skip(i as int).drop_first() == v@.skip(i + 1));
        if is_word_character(c) {
            assert(out@.push(c) + collapse_punct_runs(v@.skip(i + 1), false) == out@ + (seq![c]
                + collapse_punct_runs(v@.skip(i + 1), false)));
            out.push(c);
            prev = false;
        } else if !prev {
            assert(out@.push(' ') + collapse_punct_runs(v@.skip(i + 1), true) == out@ + (seq![' ']
                + collapse_punct_runs(v@.skip(i + 1), true)));
            out.push(' ');
            prev = true;
        }
        i += 1;
    }
    assert(v@.skip(v.len() as int) == Seq::<char>::empty());
    assert(out@ + Seq::<char>::empty() == out@);
    out
}

/// Strip a trailing `\s+/\d+` group; the whitespace before the slash is
/// required.
pub fn strip_trailing_disambiguator(v: &[char]) -> (r: Vec<char>)
    ensures
        r@ == strip_trailing_disambiguator_spec(v@),
{
    let n = v.len();
    if n == 0 || !(v[n - 1] >= '0' && v[n - 1] <= '9') {
        return slice_all(v);
    }
    let mut end = n;
    while end > 0 && v[end - 1] >= '0' && v[end - 1] <= '9'
        invariant
            end <= n == v@.len(),
            forall|i: int| end <= i < n ==> is_ascii_digit(#[trigger] v@[i]),
        decreases end,
    {
        end -= 1;
    }
    proof {
        chars::lemma_trailing_count_is(v@, |c: char| is_ascii_digit(c), n - end);
    }
    if end == 0 || v[end - 1] != '/' {
        return slice_all(v);
    }
    let slash = end - 1;
    let mut after_spaces = slash;
    while after_spaces > 0 && chars::is_white_space_char(v[after_spaces - 1])
        invariant
            after_spaces <= slash < n == v@.len(),
            forall|i: int| after_spaces <= i < slash ==> chars::is_white_space(#[trigger] v@[i]),
        decreases after_spaces,
    {
        after_spaces -= 1;
    }
    proof {
        let pre = v@.take(slash as int);
        assert forall|i: int| pre.len() - (slash - after_spaces) <= i < pre.len() implies chars::is_white_space(
            #[trigger] pre[i],
        ) by {
            assert(pre[i] == v@[i]);
        }
        if slash - after_spaces < pre.len() {
            assert(pre[pre.len() - (slash - after_spaces) - 1] == v@[after_spaces - 1]);
        }
        chars::lemma_trailing_count_is(pre, |c: char| chars::is_white_space(c), slash - after_spaces);
    }
    if after_spaces == slash {
        return slice_all(v);
    }
    chars::slice_to_vec(v, 0, after_spaces)
}

fn slice_all(v: &[char]) -> (r: Vec<char>)
    ensures
        r@ == v@,
{
    let r = chars::slice_to_vec(v, 0, v.len());
    assert(v@.subrange(0, v@.len() as int) == v@);
    r
}

/// Strip a single trailing `(...)` or `[...]` group plus any preceding
/// ASCII space; the input is returned unchanged when there is no trailing
/// closer, the opener would be the first character, or the brackets are
/// unbalanced.
pub fn strip_trailing_parens(v: &[char]) -> (r: Vec<char>)
    ensures
        r@ == strip_trailing_parens_spec(v@),
{
    let t = chars::trim_end_spaces_vec(v);
    if t.len() == 0 {
        return slice_all(v);
    }
    let last = t[t.len() - 1];
    let open = if last == ')' {
        '('
    } else if last == ']' {
        '['
    } else {
        return slice_all(v);
    };
    let close = last;
    let mut depth: usize = 0;
    let mut j: usize = t.len();
    while j > 0
        invariant
            t@ == chars::trim_end_spaces(v@),
            t@.len() > 0,
            close == t@.last(),
            close == ')' || close == ']',
            open == if close == ')' {
                '('
            } else {
                '['
            },
            j <= t@.len(),
            depth <= t@.len() - j,
            matching_open(t@, open, close, t@.len() - 1, 0) == matching_open(
                t@,
                open,
                close,
                j - 1,
                depth as nat,
            ),
        decreases j,
    {
        let c = t[j - 1];
        if c == close {
            assert(depth < t.len());
            depth += 1;
        } else if c == open {
            if depth <= 1 {
                let idx = j - 1;
                if idx == 0 {
                    return slice_all(v);
                }
                let stem = chars::slice_to_vec(&t, 0, idx);
                assert(stem@ == t@.take(idx as int));
                return chars::trim_end_spaces_vec(&stem);
            }
            depth -= 1;
        }
        j -= 1;
    }
    slice_all(v)
}

/// The text after a leading `the `, `a ` or `an `. A bare article with
/// nothing after it does not match.
fn strip_leading_article_with_space_suffix(v: &[char]) -> (r: Option<Vec<char>>)
    ensures
        match leading_space_article_spec(v@) {
            Some(rest) => r matches Some(x) && x@ == rest,
            None => r is None,
        },
{
    let the_sp_v = vec!['t', 'h', 'e', ' '];
    let a_sp_v = vec!['a', ' '];
    let an_sp_v = vec!['a', 'n', ' '];
    assert(the_sp_v@ == the_sp());
    assert(a_sp_v@ == a_sp());
    assert(an_sp_v@ == an_sp());
    if chars::starts_with_chars(v, &the_sp_v) {
        return Some(chars::slice_to_vec(v, 4, v.len()));
    }
    if chars::starts_with_chars(v, &a_sp_v) {
        return Some(chars::slice_to_vec(v, 2, v.len()));
    }
    if chars::starts_with_chars(v, &an_sp_v) {
        return Some(chars::slice_to_vec(v, 3, v.len()));
    }
    None
}

/// The stem before a trailing `, the`, `, a` or `, an` (the Discogs comma
/// form), when that stem is not empty.
fn strip_trailing_comma_article(v: &[char]) -> (r: Option<Vec<char>>)
    ensures
        match trailing_comma_article_spec(v@) {
            Some(stem) => r matches Some(x) && x@ == stem,
            None => r is None,
        },
{
    let c_the = vec![',', ' ', 't', 'h', 'e'];
    let c_a = vec![',', ' ', 'a'];
    let c_an = vec![',', ' ', 'a', 'n'];
    assert(c_the@ == comma_the());
    assert(c_a@ == comma_a());
    assert(c_an@ == comma_an());
    if chars::ends_with_chars(v, &c_the) && v.len() > 5 {
        return Some(chars::slice_to_vec(v, 0, v.len() - 5));
    }
    if chars::ends_with_chars(v, &c_a) && v.len() > 3 {
        return Some(chars::slice_to_vec(v, 0, v.len() - 3));
    }
    if chars::ends_with_chars(v, &c_an) && v.len() > 4 {
        return Some(chars::slice_to_vec(v, 0, v.len() - 4));
    }
    None
}

/// Drop a leading `the `/`a `/`an ` or a trailing `, the`/`, a`/`, an`
/// (non-empty stem). At most one match is consumed.
pub fn drop_articles(v: &[char]) -> (r: Vec<char>)
    ensures
        r@ == drop_articles_spec(v@),
{
    if let Some(rest) = strip_leading_article_with_space_suffix(v) {
        return rest;
    }
    if let Some(stem) = strip_trailing_comma_article(v) {
        return stem;
    }
    slice_all(v)
}

/// CPython's `\s`: Unicode `White_Space` plus U+001C..=U+001F.
pub fn is_python_whitespace(c: char) -> (r: bool)
    ensures
        r == is_python_whitespace_spec(c),
{
    chars::is_white_space_char(c) || ('\u{1C}' <= c && c <= '\u{1F}')
}

/// Characters of `v` before position `k` is reached by an article strip.
fn try_strip_article_at(v: &[char], article: &[char]) -> (r: Option<usize>)
    ensures
        match try_strip_article(v@, article@) {
            None => r is None,
            Some(rest) => r matches Some(k) && k <= v@.len() && rest == v@.skip(k as int),
        },
{
    if !chars::starts_with_chars(v, article) {
        return None;
    }
    let start = article.len();
    if start == v.len() {
        return Some(start);
    }
    if !is_python_whitespace(v[start]) {
        return None;
    }
    let mut k = start;
    while k < v.len() && is_python_whitespace(v[k])
        invariant
            start <= k <= v@.len(),
            forall|i: int| start <= i < k ==> is_python_whitespace_spec(#[trigger] v@[i]),
        decreases v.len() - k,
    {
        k += 1;
    }
    proof {
        let rest = v@.skip(start as int);
        assert forall|i: int| 0 <= i < k - start implies is_python_whitespace_spec(#[trigger] rest[i]) by {
            assert(rest[i] == v@[start + i]);
        }
        if k - start < rest.len() {
            assert(rest[k - start] == v@[k as int]);
        }
        chars::lemma_leading_count_is(rest, |c: char| is_python_whitespace_spec(c), k - start);
        assert(rest.skip(k - start) == v@.skip(k as int));
    }
    Some(k)
}

/// Strip a leading article (`the`, `a`, `an`) followed by whitespace or the
/// end of the text, together with that whitespace; the input is returned
/// unchanged when there is no leading article.
pub fn strip_leading_article(s: &str) -> (r: &str)
    ensures
        r@ == strip_leading_article_spec(s@),
{
    let v = chars::chars_of(s);
    let the_w = vec!['t', 'h', 'e'];
    let a_w = vec!['a'];
    let an_w = vec!['a', 'n'];
    assert(the_w@ == the_word());
    assert(a_w@ == a_word());
    assert(an_w@ == an_word());
    let k = match try_strip_article_at(&v, &the_w) {
        Some(k) => k,
        None => match try_strip_article_at(&v, &a_w) {
            Some(k) => k,
            None => match try_strip_article_at(&v, &an_w) {
                Some(k) => k,
                None => 0,
            },
        },
    };
    assert(s@.skip(0) == s@);
    s.substring_char(k, v.len())
}

/// The identity forms are coarser than the match form: two texts with the
/// same match form have the same identity form, in every variant.
pub proof fn lemma_identity_coarser_than_match(a: Seq<char>, b: Seq<char>)
    requires
        forms::to_match_form_spec(a) == forms::to_match_form_spec(b),
    ensures
        identity_baseline_spec(a) == identity_baseline_spec(b),
        with_punctuation_spec(a) == with_punctuation_spec(b),
        with_disambiguator_strip_spec(a) == with_disambiguator_strip_spec(b),
{
}

proof fn lemma_matching_open_bounds(t: Seq<char>, open: char, close: char, j: int, depth: nat)
    ensures
        matching_open(t, open, close, j, depth) matches Some(k) ==> 0 <= k <= j && k < t.len()
            && t[k] == open,
    decreases j + 1,
{
    if 0 <= j < t.len() {
        if t[j] == close {
            lemma_matching_open_bounds(t, open, close, j - 1, depth + 1);
        } else if t[j] == open {
            if depth > 1 {
                lemma_matching_open_bounds(t, open, close, j - 1, (depth - 1) as nat);
            }
        } else {
            lemma_matching_open_bounds(t, open, close, j - 1, depth);
        }
    }
}

/// Stripping a trailing group keeps a prefix of the text: the text itself
/// when it does not end (before trailing spaces) in `)` or `]`, and
/// otherwise either the text or a shorter prefix with no trailing space,
/// which is not empty when the text does not start with a space.
pub proof fn lemma_strip_trailing_parens_prefix(s: Seq<char>)
    ensures
        ({
            let r = strip_trailing_parens_spec(s);
            let t = chars::trim_end_spaces(s);
            &&& r.len() <= s.len()
            &&& r == s.take(r.len() as int)
            &&& (t.len() == 0 || (t.last() != ')' && t.last() != ']')) ==> r == s
            &&& r != s ==> {
                &&& r.len() < t.len()
                &&& (r.len() > 0 ==> r.last() != ' ')
                &&& (s.len() > 0 && s[0] != ' ' ==> r.len() > 0)
            }
        }),
{
    let sp = |c: char| chars::is_ascii_space(c);
    let t = chars::trim_end_spaces(s);
    chars::lemma_trailing_count_bound(s, sp);
    assert(t == s.take(t.len() as int));
    if t.len() > 0 && (t.last() == ')' || t.last() == ']') {
        let open = if t.last() == ')' {
            '('
        } else {
            '['
        };
        lemma_matching_open_bounds(t, open, t.last(), t.len() - 1, 0);
        match matching_open(t, open, t.last(), t.len() - 1, 0) {
            None => {},
            Some(idx) => {
                if idx > 0 {
                    let u = t.take(idx);
                    chars::lemma_trailing_count_bound(u, sp);
                    let r = chars::trim_end_spaces(u);
                    assert(r == s.take(r.len() as int));
                    if s.len() > 0 && s[0] != ' ' {
                        assert(u[0] == s[0]);
                        if r.len() == 0 {
                            assert(chars::is_ascii_space(u[0]));
                        }
                    }
                    if r.len() > 0 {
                        assert(r.last() == u[r.len() - 1]);
                    }
                }
            },
        }
    }
}

/// When a group is stripped, the text (before its trailing spaces) is the
/// result, then only spaces, then one group that opens with `(` or `[` at
/// a position after the start and closes with the matching `)` or `]`, the
/// opener being the one that balances the final closer by depth count.
pub proof fn lemma_strip_trailing_parens_group(s: Seq<char>)
    ensures
        ({
            let r = strip_trailing_parens_spec(s);
            let t = chars::trim_end_spaces(s);
            r != s ==> exists|k: int|
                #![trigger t[k]]
                {
                    &&& 0 < k < t.len()
                    &&& r.len() <= k
                    &&& r == t.take(r.len() as int)
                    &&& (forall|i: int| r.len() <= i < k ==> t[i] == ' ')
                    &&& ((t[k] == '(' && t.last() == ')') || (t[k] == '[' && t.last() == ']'))
                    &&& matching_open(t, t[k], t.last(), t.len() - 1, 0) == Some(k)
                }
        }),
{
    let sp = |c: char| chars::is_ascii_space(c);
    let t = chars::trim_end_spaces(s);
    let r = strip_trailing_parens_spec(s);
    chars::lemma_trailing_count_bound(s, sp);
    if t.len() > 0 && (t.last() == ')' || t.last() == ']') {
        let open = if t.last() == ')' {
            '('
        } else {
            '['
        };
        lemma_matching_open_bounds(t, open, t.last(), t.len() - 1, 0);
        match matching_open(t, open, t.last(), t.len() - 1, 0) {
            None => {},
            Some(k) => {
                if k > 0 {
                    let u = t.take(k);
                    chars::lemma_trailing_count_bound(u, sp);
                    assert(r == u.take(u.len() - chars::trailing_count(u, sp)));
                    assert forall|i: int| r.len() <= i < k implies t[i] == ' ' by {
                        assert(u[i] == t[i]);
                    }
                    assert(r == t.take(r.len() as int));
                    assert(t[k] == open);
                }
            },
        }
    }
}

} // verus!
