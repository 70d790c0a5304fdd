//! Conversions between `str`/`String` and character sequences, and the few
//! std character operations the normalizers rely on.

use vstd::prelude::*;

verus! {

/// Appends one character to a `String` (`String::push`).
/// Claims: the new contents are the old contents followed by `c`.
#[verifier::external_body]
pub(crate) fn push_char(s: &mut String, c: char)
    ensures
        final(s)@ == old(s)@.push(c),
{
    s.push(c);
}

/// The characters of `s`, in order.
pub fn chars_of(s: &str) -> (v: Vec<char>)
    ensures
        v@ == s@,
{
    let mut v: Vec<char> = Vec::new();
    for c in it: s.chars()
        invariant
            v@ == it.seq().take(it.index() as int),
    {
        v.push(c);
    }
    v
}

/// A `String` holding exactly the characters of `v`.
pub fn string_of(v: &[char]) -> (s: String)
    ensures
        s@ == v@,
{
    let mut s = String::new();
    let mut i: usize = 0;
    while i < v.len()
        invariant
            i <= v.len(),
            s@ == v@.take(i as int),
        decreases v.len() - i,
    {
        push_char(&mut s, v[i]);
        i += 1;
        assert(v@.take(i as int) == v@.take((i - 1) as int).push(v@[i - 1]));
    }
    assert(v@.take(v.len() as int) == v@);
    s
}


/// Unicode `White_Space` property: the characters for which
/// `char::is_whitespace` holds.
pub open spec fn is_white_space(c: char) -> bool {
    ||| ('\u{9}' <= c && c <= '\u{d}')
    ||| c == ' '
    ||| c == '\u{85}'
    ||| c == '\u{a0}'
    ||| c == '\u{1680}'
    ||| ('\u{2000}' <= c && c <= '\u{200a}')
    ||| c == '\u{2028}'
    ||| c == '\u{2029}'
    ||| c == '\u{202f}'
    ||| c == '\u{205f}'
    ||| c == '\u{3000}'
}

/// Executable `White_Space` test.
pub fn is_white_space_char(c: char) -> (r: bool)
    ensures
        r == is_white_space(c),
{
    ('\u{9}' <= c && c <= '\u{d}') || c == ' ' || c == '\u{85}' || c == '\u{a0}' || c
        == '\u{1680}' || ('\u{2000}' <= c && c <= '\u{200a}') || c == '\u{2028}' || c
        == '\u{2029}' || c == '\u{202f}' || c == '\u{205f}' || c == '\u{3000}'
}

/// Number of leading characters of `s` that satisfy `p`.
pub open spec fn leading_count(s: Seq<char>, p: spec_fn(char) -> bool) -> nat
    decreases s.len(),
{
    if s.len() > 0 && p(s[0]) {
        1 + leading_count(s.drop_first(), p)
    } else {
        0
    }
}

/// Number of trailing characters of `s` that satisfy `p`.
pub open spec fn trailing_count(s: Seq<char>, p: spec_fn(char) -> bool) -> nat
    decreases s.len(),
{
    if s.len() > 0 && p(s.last()) {
        1 + trailing_count(s.drop_last(), p)
    } else {
        0
    }
}

/// `s` without its leading characters that satisfy `p`.
pub open spec fn trim_start_by(s: Seq<char>, p: spec_fn(char) -> bool) -> Seq<char> {
    s.skip(leading_count(s, p) as int)
}

/// `s` without its trailing characters that satisfy `p`.
pub open spec fn trim_end_by(s: Seq<char>, p: spec_fn(char) -> bool) -> Seq<char> {
    s.take(s.len() - trailing_count(s, p))
}

/// `s` without leading and trailing characters that satisfy `p`.
pub open spec fn trim_by(s: Seq<char>, p: spec_fn(char) -> bool) -> Seq<char> {
    trim_end_by(trim_start_by(s, p), p)
}

pub open spec fn is_ascii_space(c: char) -> bool {
    c == ' '
}

/// `str::trim_matches(' ')`: drop ASCII spaces at both ends.
pub open spec fn trim_spaces(s: Seq<char>) -> Seq<char> {
    trim_by(s, |c: char| is_ascii_space(c))
}

/// `str::trim_end_matches(' ')`.
pub open spec fn trim_end_spaces(s: Seq<char>) -> Seq<char> {
    trim_end_by(s, |c: char| is_ascii_space(c))
}

/// `str::trim`: drop `White_Space` characters at both ends.
pub open spec fn trim_ws(s: Seq<char>) -> Seq<char> {
    trim_by(s, |c: char| is_white_space(c))
}

/// `str::trim_end`: drop `White_Space` characters at the end.
pub open spec fn trim_end_ws(s: Seq<char>) -> Seq<char> {
    trim_end_by(s, |c: char| is_white_space(c))
}

pub proof fn lemma_leading_count_bound(s: Seq<char>, p: spec_fn(char) -> bool)
    ensures
        leading_count(s, p) <= s.len(),
        forall|i: int| 0 <= i < leading_count(s, p) ==> p(#[trigger] s[i]),
        leading_count(s, p) < s.len() ==> !p(s[leading_count(s, p) as int]),
    decreases s.len(),
{
    if s.len() > 0 && p(s[0]) {
        lemma_leading_count_bound(s.drop_first(), p);
        assert forall|i: int| 0 <= i < leading_count(s, p) implies p(#[trigger] s[i]) by {
            if i > 0 {
                assert(s[i] == s.drop_first()[i - 1]);
            }
        }
    }
}

pub proof fn lemma_trailing_count_bound(s: Seq<char>, p: spec_fn(char) -> bool)
    ensures
        trailing_count(s, p) <= s.len(),
        forall|i: int| s.len() - trailing_count(s, p) <= i < s.len() ==> p(#[trigger] s[i]),
        trailing_count(s, p) < s.len() ==> !p(s[s.len() - trailing_count(s, p) - 1]),
    decreases s.len(),
{
    if s.len() > 0 && p(s.last()) {
        lemma_trailing_count_bound(s.drop_last(), p);
        assert forall|i: int| s.len() - trailing_count(s, p) <= i < s.len() implies p(
            #[trigger] s[i],
        ) by {
            if i < s.len() - 1 {
                assert(s[i] == s.drop_last()[i]);
            }
        }
    }
}

/// Characterizes `leading_count` by the first position where `p` fails.
pub proof fn lemma_leading_count_is(s: Seq<char>, p: spec_fn(char) -> bool, k: int)
    requires
        0 <= k <= s.len(),
        forall|i: int| 0 <= i < k ==> p(#[trigger] s[i]),
        k < s.len() ==> !p(s[k]),
    ensures
        leading_count(s, p) == k,
    decreases s.len(),
{
    if k > 0 {
        assert forall|i: int| 0 <= i < k - 1 implies p(#[trigger] s.drop_first()[i]) by {
            assert(s.drop_first()[i] == s[i + 1]);
        }
        if k - 1 < s.drop_first().len() {
            assert(s.drop_first()[k - 1] == s[k]);
        }
        lemma_leading_count_is(s.drop_first(), p, k - 1);
    }
}

/// Characterizes `trailing_count` by the last position where `p` fails.
pub proof fn lemma_trailing_count_is(s: Seq<char>, p: spec_fn(char) -> bool, k: int)
    requires
        0 <= k <= s.len(),
        forall|i: int| s.len() - k <= i < s.len() ==> p(#[trigger] s[i]),
        k < s.len() ==> !p(s[s.len() - k - 1]),
    ensures
        trailing_count(s, p) == k,
    decreases s.len(),
{
    if k > 0 {
        let t = s.drop_last();
        assert forall|i: int| t.len() - (k - 1) <= i < t.len() implies p(#[trigger] t[i]) by {
            assert(t[i] == s[i]);
        }
        if k - 1 < t.len() {
            assert(t[t.len() - (k - 1) - 1] == s[s.len() - k - 1]);
        }
        lemma_trailing_count_is(t, p, k - 1);
    }
}

/// Trimming by a predicate twice is the same as once.
pub proof fn lemma_trim_by_idempotent(s: Seq<char>, p: spec_fn(char) -> bool)
    ensures
        trim_by(trim_by(s, p), p) == trim_by(s, p),
{
    lemma_leading_count_bound(s, p);
    let a = trim_start_by(s, p);
    lemma_trailing_count_bound(a, p);
    let t = trim_end_by(a, p);
    lemma_leading_count_bound(a, p);
    if t.len() > 0 {
        assert(t[0] == a[0]);
        lemma_leading_count_is(t, p, 0);
        lemma_trailing_count_is(t, p, 0);
        assert(trim_start_by(t, p) == t);
        assert(trim_end_by(t, p) == t);
    } else {
        lemma_leading_count_is(t, p, 0);
        assert(trim_start_by(t, p) == t);
        lemma_trailing_count_is(t, p, 0);
    }
}

/// Index just past the leading run of ASCII spaces in `v`.
pub fn skip_leading_spaces(v: &[char]) -> (k: usize)
    ensures
        k == leading_count(v@, |c: char| is_ascii_space(c)),
{
    let mut k: usize = 0;
    while k < v.len() && v[k] == ' '
        invariant
            k <= v.len(),
            forall|i: int| 0 <= i < k ==> v@[i] == ' ',
        decreases v.len() - k,
    {
        k += 1;
    }
    proof {
        lemma_leading_count_is(v@, |c: char| is_ascii_space(c), k as int);
    }
    k
}

/// Length of `v` without its trailing run of ASCII spaces.
pub fn end_before_trailing_spaces(v: &[char]) -> (k: usize)
    ensures
        k == v@.len() - trailing_count(v@, |c: char| is_ascii_space(c)),
{
    let mut k: usize = v.len();
    while k > 0 && v[k - 1] == ' '
        invariant
            k <= v.len(),
            forall|i: int| k <= i < v.len() ==> v@[i] == ' ',
        decreases k,
    {
        k -= 1;
    }
    proof {
        lemma_trailing_count_is(v@, |c: char| is_ascii_space(c), v.len() - k);
    }
    k
}

/// Index just past the leading run of `White_Space` characters in `v`.
pub fn skip_leading_ws(v: &[char]) -> (k: usize)
    ensures
        k == leading_count(v@, |c: char| is_white_space(c)),
{
    let mut k: usize = 0;
    while k < v.len() && is_white_space_char(v[k])
        invariant
            k <= v.len(),
            forall|i: int| 0 <= i < k ==> is_white_space(v@[i]),
        decreases v.len() - k,
    {
        k += 1;
    }
    proof {
        lemma_leading_count_is(v@, |c: char| is_white_space(c), k as int);
    }
    k
}

/// Length of `v` without its trailing run of `White_Space` characters.
pub fn end_before_trailing_ws(v: &[char]) -> (k: usize)
    ensures
        k == v@.len() - trailing_count(v@, |c: char| is_white_space(c)),
{
    let mut k: usize = v.len();
    while k > 0 && is_white_space_char(v[k - 1])
        invariant
            k <= v.len(),
            forall|i: int| k <= i < v.len() ==> is_white_space(v@[i]),
        decreases k,
    {
        k -= 1;
    }
    proof {
        lemma_trailing_count_is(v@, |c: char| is_white_space(c), v.len() - k);
    }
    k
}

/// The characters `v[from..to]` as a new vector.
pub fn slice_to_vec(v: &[char], from: usize, to: usize) -> (r: Vec<char>)
    requires
        from <= to <= v@.len(),
    ensures
        r@ == v@.subrange(from as int, to as int),
{
    let mut r: Vec<char> = Vec::new();
    let mut i = from;
    while i < to
        invariant
            from <= i <= to,
            to <= v@.len(),
            r@ == v@.subrange(from as int, i as int),
        decreases to - i,
    {
        r.push(v[i]);
        i += 1;
    }
    r
}

/// `v` with ASCII spaces trimmed from both ends.
pub fn trim_spaces_vec(v: &[char]) -> (r: Vec<char>)
    ensures
        r@ == trim_spaces(v@),
{
    let a = skip_leading_spaces(v);
    proof {
        lemma_leading_count_bound(v@, |c: char| is_ascii_space(c));
    }
    let t = slice_to_vec(v, a, v.len());
    let b = end_before_trailing_spaces(&t);
    proof {
        lemma_trailing_count_bound(t@, |c: char| is_ascii_space(c));
    }
    slice_to_vec(&t, 0, b)
}

/// `v` with ASCII spaces trimmed from its end.
pub fn trim_end_spaces_vec(v: &[char]) -> (r: Vec<char>)
    ensures
        r@ == trim_end_spaces(v@),
{
    let b = end_before_trailing_spaces(v);
    proof {
        lemma_trailing_count_bound(v@, |c: char| is_ascii_space(c));
    }
    slice_to_vec(v, 0, b)
}

/// `v` with `White_Space` trimmed from both ends (`str::trim`).
pub fn trim_ws_vec(v: &[char]) -> (r: Vec<char>)
    ensures
        r@ == trim_ws(v@),
{
    let a = skip_leading_ws(v);
    proof {
        lemma_leading_count_bound(v@, |c: char| is_white_space(c));
    }
    let t = slice_to_vec(v, a, v.len());
    let b = end_before_trailing_ws(&t);
    proof {
        lemma_trailing_count_bound(t@, |c: char| is_white_space(c));
    }
    slice_to_vec(&t, 0, b)
}

/// Python's `str.isspace` for one character: Unicode `White_Space` plus
/// the information separators U+001C..=U+001F.
pub open spec fn is_python_space(c: char) -> bool {
    is_white_space(c) || ('\u{1C}' <= c && c <= '\u{1F}')
}

/// Python's `str.strip()`: drop `is_python_space` characters at both ends.
pub open spec fn trim_python(s: Seq<char>) -> Seq<char> {
    trim_by(s, |c: char| is_python_space(c))
}

/// Executable form of [`is_python_space`].
pub fn is_python_space_char(c: char) -> (r: bool)
    ensures
        r == is_python_space(c),
{
    is_white_space_char(c) || ('\u{1C}' <= c && c <= '\u{1F}')
}

/// `v` trimmed as Python's `str.strip()` trims.
pub fn trim_python_vec(v: &[char]) -> (r: Vec<char>)
    ensures
        r@ == trim_python(v@),
{
    let mut a: usize = 0;
    while a < v.len() && is_python_space_char(v[a])
        invariant
            a <= v.len(),
            forall|i: int| 0 <= i < a ==> is_python_space(v@[i]),
        decreases v.len() - a,
    {
        a += 1;
    }
    proof {
        lemma_leading_count_is(v@, |c: char| is_python_space(c), a as int);
    }
    let t = slice_to_vec(v, a, v.len());
    let mut b: usize = t.len();
    while b > 0 && is_python_space_char(t[b - 1])
        invariant
            b <= t.len(),
            forall|i: int| b <= i < t.len() ==> is_python_space(t@[i]),
        decreases b,
    {
        b -= 1;
    }
    proof {
        lemma_trailing_count_is(t@, |c: char| is_python_space(c), t.len() - b);
    }
    slice_to_vec(&t, 0, b)
}

/// `v` with `White_Space` trimmed from its end (`str::trim_end`).
pub fn trim_end_ws_vec(v: &[char]) -> (r: Vec<char>)
    ensures
        r@ == trim_end_ws(v@),
{
    let b = end_before_trailing_ws(v);
    proof {
        lemma_trailing_count_bound(v@, |c: char| is_white_space(c));
    }
    slice_to_vec(v, 0, b)
}

/// Concatenation of `f(c)` over the characters `c` of `s`, in order.
pub open spec fn flat_map(s: Seq<char>, f: spec_fn(char) -> Seq<char>) -> Seq<char>
    decreases s.len(),
{
    if s.len() == 0 {
        seq![]
    } else {
        flat_map(s.drop_last(), f) + f(s.last())
    }
}

/// The characters of `s` that satisfy `p`, in order.
pub open spec fn keep(s: Seq<char>, p: spec_fn(char) -> bool) -> Seq<char>
    decreases s.len(),
{
    if s.len() == 0 {
        seq![]
    } else if p(s.last()) {
        keep(s.drop_last(), p).push(s.last())
    } else {
        keep(s.drop_last(), p)
    }
}

/// Every character kept satisfies `p`.
pub proof fn lemma_keep_all(s: Seq<char>, p: spec_fn(char) -> bool)
    ensures
        forall|i: int| 0 <= i < keep(s, p).len() ==> p(#[trigger] keep(s, p)[i]),
    decreases s.len(),
{
    if s.len() > 0 {
        lemma_keep_all(s.drop_last(), p);
        let k = keep(s.drop_last(), p);
        if p(s.last()) {
            assert forall|i: int| 0 <= i < k.push(s.last()).len() implies p(
                #[trigger] k.push(s.last())[i],
            ) by {
                if i < k.len() {
                    assert(k.push(s.last())[i] == k[i]);
                }
            }
        }
    }
}

/// Keeping characters keeps only characters of the input: a property of
/// every input character holds of every kept one.
pub proof fn lemma_keep_preserves(s: Seq<char>, p: spec_fn(char) -> bool, q: spec_fn(char) -> bool)
    requires
        forall|i: int| 0 <= i < s.len() ==> q(#[trigger] s[i]),
    ensures
        forall|i: int| 0 <= i < keep(s, p).len() ==> q(#[trigger] keep(s, p)[i]),
    decreases s.len(),
{
    if s.len() > 0 {
        let d = s.drop_last();
        assert forall|i: int| 0 <= i < d.len() implies q(#[trigger] d[i]) by {
            assert(d[i] == s[i]);
        }
        lemma_keep_preserves(d, p, q);
        let k = keep(d, p);
        if p(s.last()) {
            assert forall|i: int| 0 <= i < k.push(s.last()).len() implies q(
                #[trigger] k.push(s.last())[i],
            ) by {
                if i < k.len() {
                    assert(k.push(s.last())[i] == k[i]);
                }
            }
        }
    }
}

/// Keeping is the identity when every character satisfies `p`.
pub proof fn lemma_keep_identity(s: Seq<char>, p: spec_fn(char) -> bool)
    requires
        forall|i: int| 0 <= i < s.len() ==> p(#[trigger] s[i]),
    ensures
        keep(s, p) == s,
    decreases s.len(),
{
    if s.len() > 0 {
        assert forall|i: int| 0 <= i < s.drop_last().len() implies p(#[trigger] s.drop_last()[i]) by {
            assert(s.drop_last()[i] == s[i]);
        }
        lemma_keep_identity(s.drop_last(), p);
        assert(s.drop_last().push(s.last()) == s);
    }
}

pub proof fn lemma_keep_take_step(s: Seq<char>, i: int, p: spec_fn(char) -> bool)
    requires
        0 <= i < s.len(),
    ensures
        keep(s.take(i + 1), p) == if p(s[i]) {
            keep(s.take(i), p).push(s[i])
        } else {
            keep(s.take(i), p)
        },
{
    assert(s.take(i + 1).drop_last() == s.take(i));
}

pub proof fn lemma_flat_map_push(s: Seq<char>, c: char, f: spec_fn(char) -> Seq<char>)
    ensures
        flat_map(s.push(c), f) == flat_map(s, f) + f(c),
{
    assert(s.push(c).drop_last() == s);
}

pub proof fn lemma_flat_map_take_step(s: Seq<char>, i: int, f: spec_fn(char) -> Seq<char>)
    requires
        0 <= i < s.len(),
    ensures
        flat_map(s.take(i + 1), f) == flat_map(s.take(i), f) + f(s[i]),
{
    assert(s.take(i + 1).drop_last() == s.take(i));
}

pub proof fn lemma_flat_map_append(a: Seq<char>, b: Seq<char>, f: spec_fn(char) -> Seq<char>)
    ensures
        flat_map(a + b, f) == flat_map(a, f) + flat_map(b, f),
    decreases b.len(),
{
    if b.len() == 0 {
        assert(a + b == a);
    } else {
        lemma_flat_map_append(a, b.drop_last(), f);
        assert((a + b).drop_last() == a + b.drop_last());
        assert((a + b).last() == b.last());
    }
}

/// `flat_map` is the identity when every character maps to itself.
pub proof fn lemma_flat_map_identity(s: Seq<char>, f: spec_fn(char) -> Seq<char>)
    requires
        forall|i: int| 0 <= i < s.len() ==> f(#[trigger] s[i]) == seq![s[i]],
    ensures
        flat_map(s, f) == s,
    decreases s.len(),
{
    if s.len() > 0 {
        assert forall|i: int| 0 <= i < s.drop_last().len() implies f(
            #[trigger] s.drop_last()[i],
        ) == seq![s.drop_last()[i]] by {
            assert(s.drop_last()[i] == s[i]);
        }
        lemma_flat_map_identity(s.drop_last(), f);
        assert(s.drop_last().push(s.last()) == s);
    }
}

/// Every character of `flat_map(s, f)` satisfies `p` when every image does.
pub proof fn lemma_flat_map_all(s: Seq<char>, f: spec_fn(char) -> Seq<char>, p: spec_fn(char) -> bool)
    requires
        forall|c: char, j: int| 0 <= j < f(c).len() ==> p(#[trigger] f(c)[j]),
    ensures
        forall|i: int| 0 <= i < flat_map(s, f).len() ==> p(#[trigger] flat_map(s, f)[i]),
    decreases s.len(),
{
    if s.len() > 0 {
        lemma_flat_map_all(s.drop_last(), f, p);
        let a = flat_map(s.drop_last(), f);
        let b = f(s.last());
        assert forall|i: int| 0 <= i < (a + b).len() implies p(#[trigger] (a + b)[i]) by {
            if i < a.len() {
                assert((a + b)[i] == a[i]);
            } else {
                assert((a + b)[i] == b[i - a.len()]);
            }
        }
    }
}

/// Appends `w` to `out`.
pub fn extend_chars(out: &mut Vec<char>, w: &[char])
    ensures
        final(out)@ == old(out)@ + w@,
{
    let mut i: usize = 0;
    while i < w.len()
        invariant
            i <= w.len(),
            out@ == old(out)@ + w@.take(i as int),
        decreases w.len() - i,
    {
        out.push(w[i]);
        i += 1;
        assert(w@.take(i as int) == w@.take((i - 1) as int).push(w@[i - 1]));
    }
    assert(w@.take(w.len() as int) == w@);
}


/// Whether `p` is a prefix of `v`.
pub fn starts_with_chars(v: &[char], p: &[char]) -> (r: bool)
    ensures
        r == p@.is_prefix_of(v@),
{
    if p.len() > v.len() {
        return false;
    }
    let mut i: usize = 0;
    while i < p.len()
        invariant
            i <= p.len() <= v.len(),
            forall|j: int| 0 <= j < i ==> p@[j] == v@[j],
        decreases p.len() - i,
    {
        if p[i] != v[i] {
            assert(p@[i as int] != v@.subrange(0, p@.len() as int)[i as int]);
            return false;
        }
        i += 1;
    }
    assert(p@ =~= v@.subrange(0, p@.len() as int));
    true
}

/// Whether `p` is a suffix of `v`.
pub fn ends_with_chars(v: &[char], p: &[char]) -> (r: bool)
    ensures
        r == p@.is_suffix_of(v@),
{
    if p.len() > v.len() {
        return false;
    }
    let off = v.len() - p.len();
    let mut i: usize = 0;
    while i < p.len()
        invariant
            i <= p.len() <= v.len(),
            off == v.len() - p.len(),
            forall|j: int| 0 <= j < i ==> p@[j] == v@[off + j],
        decreases p.len() - i,
    {
        if p[i] != v[off + i] {
            assert(p@[i as int] != v@.subrange(off as int, v@.len() as int)[i as int]);
            return false;
        }
        i += 1;
    }
    assert(p@ =~= v@.subrange(off as int, v@.len() as int));
    true
}

/// Whether `a` and `b` hold the same characters.
pub fn chars_eq(a: &[char], b: &[char]) -> (r: bool)
    ensures
        r == (a@ == b@),
{
    if a.len() != b.len() {
        return false;
    }
    let r = starts_with_chars(a, b);
    assert(r ==> a@ =~= b@);
    r
}

} // verus!
