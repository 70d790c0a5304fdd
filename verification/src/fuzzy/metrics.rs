//! The integer and string parts of the fuzzy similarity measures:
//! whitespace tokenization, token sorting and set operations, joining, the
//! longest common subsequence behind the indel ratio, and edit distance.
//! The ratios themselves are floating-point quotients of these counts.

use vstd::prelude::*;
use vstd::string::StringExecFns;

use crate::text::chars;
use crate::text::unicode;
use super::order;

verus! {

/// Not a `White_Space` character.
pub open spec fn is_word_char(c: char) -> bool {
    !chars::is_white_space(c)
}

/// The leading run of non-whitespace characters of `s`.
pub open spec fn first_word(s: Seq<char>) -> Seq<char> {
    s.take(chars::leading_count(s, |c: char| is_word_char(c)) as int)
}

/// `str::split_whitespace`: the maximal runs of non-`White_Space`
/// characters, in order.
pub open spec fn ws_tokens(s: Seq<char>) -> Seq<Seq<char>>
    decreases s.len(),
{
    if s.len() == 0 {
        seq![]
    } else if chars::is_white_space(s[0]) {
        ws_tokens(s.drop_first())
    } else {
        let n = chars::leading_count(s, |c: char| is_word_char(c));
        if 0 < n <= s.len() {
            seq![s.take(n as int)] + ws_tokens(s.skip(n as int))
        } else {
            seq![]
        }
    }
}

/// Tokens split on whitespace, each lowercased as a whole string.
pub open spec fn tokenize_spec(s: Seq<char>) -> Seq<Seq<char>> {
    ws_tokens(s).map_values(|t: Seq<char>| unicode::str_lowercase_of(t))
}

/// The tokens joined with single spaces.
pub open spec fn join_spaces(t: Seq<Seq<char>>) -> Seq<char>
    decreases t.len(),
{
    if t.len() == 0 {
        seq![]
    } else if t.len() == 1 {
        t[0]
    } else {
        join_spaces(t.drop_last()) + seq![' '] + t.last()
    }
}

/// The non-empty parts, in order.
pub open spec fn nonempty_parts(t: Seq<Seq<char>>) -> Seq<Seq<char>>
    decreases t.len(),
{
    if t.len() == 0 {
        seq![]
    } else if t.last().len() == 0 {
        nonempty_parts(t.drop_last())
    } else {
        nonempty_parts(t.drop_last()).push(t.last())
    }
}

/// Length of a longest common subsequence of `a` and `b`.
pub open spec fn lcs(a: Seq<char>, b: Seq<char>) -> nat
    decreases a.len() + b.len(),
{
    if a.len() == 0 || b.len() == 0 {
        0
    } else if a.last() == b.last() {
        lcs(a.drop_last(), b.drop_last()) + 1
    } else {
        let x = lcs(a.drop_last(), b);
        let y = lcs(a, b.drop_last());
        if x >= y {
            x
        } else {
            y
        }
    }
}

/// The whitespace-separated words of `s`, in order.
pub fn split_whitespace(s: &str) -> (r: Vec<Vec<char>>)
    ensures
        order::views(r@) == ws_tokens(s@),
{
    let v = chars::chars_of(s);
    let mut out: Vec<Vec<char>> = Vec::new();
    let mut i: usize = 0;
    assert(v@.skip(0) == v@);
    while i < v.len()
        invariant
            i <= v@.len(),
            v@ == s@,
            order::views(out@) + ws_tokens(v@.skip(i as int)) == ws_tokens(v@),
        decreases v.len() - i,
    {
        if chars::is_white_space_char(v[i]) {
            assert(v@.skip(i as int).drop_first() == v@.skip(i + 1));
            i += 1;
        } else {
            let mut j = i;
            while j < v.len() && !chars::is_white_space_char(v[j])
                invariant
                    i <= j <= v@.len(),
                    forall|k: int| i <= k < j ==> is_word_char(#[trigger] v@[k]),
                decreases v.len() - j,
            {
                j += 1;
            }
            let word = chars::slice_to_vec(&v, i, j);
            proof {
                let rest = v@.skip(i as int);
                assert forall|k: int| 0 <= k < j - i implies is_word_char(#[trigger] rest[k]) by {
                    assert(rest[k] == v@[i + k]);
                }
                if j < v.len() {
                    assert(rest[j - i] == v@[j as int]);
                }
                chars::lemma_leading_count_is(rest, |c: char| is_word_char(c), j - i);
                assert(rest.take(j - i) == v@.subrange(i as int, j as int));
                assert(rest.skip(j - i) == v@.skip(j as int));
                assert(order::views(out@.push(word)) == order::views(out@).push(word@));
                assert(ws_tokens(rest) == seq![word@] + ws_tokens(v@.skip(j as int)));
                assert(order::views(out@) + ws_tokens(rest) == order::views(out@).push(word@)
                    + ws_tokens(v@.skip(j as int)));
            }
            out.push(word);
            i = j;
        }
    }
    assert(v@.skip(v@.len() as int) == Seq::<char>::empty());
    assert(order::views(out@) + Seq::<Seq<char>>::empty() == order::views(out@));
    out
}

/// Tokenize a string: split on whitespace and lowercase each token.
pub fn tokenize(s: &str) -> (r: Vec<String>)
    ensures
        r@.map_values(|t: String| t@) == tokenize_spec(s@),
{
    let words = split_whitespace(s);
    let mut out: Vec<String> = Vec::new();
    let mut i: usize = 0;
    while i < words.len()
        invariant
            i <= words@.len(),
            order::views(words@) == ws_tokens(s@),
            out@.map_values(|t: String| t@) == tokenize_spec(s@).take(i as int),
        decreases words.len() - i,
    {
        let w = chars::string_of(&words[i]);
        let lw = unicode::lowercase_str(w.as_str());
        proof {
            assert(order::views(words@)[i as int] == words@[i as int]@);
            assert(ws_tokens(s@)[i as int] == w@);
            assert(tokenize_spec(s@)[i as int] == lw@);
        }
        let ghost before = out@;
        out.push(lw);
        assert(out@.map_values(|t: String| t@) =~= before.map_values(|t: String| t@).push(lw@));
        assert(out@.map_values(|t: String| t@) =~= tokenize_spec(s@).take(i + 1));
        i += 1;
    }
    assert(tokenize_spec(s@).take(words@.len() as int) =~= tokenize_spec(s@));
    out
}

/// The character vectors joined with single spaces.
pub fn join_with_spaces(parts: &Vec<Vec<char>>) -> (r: Vec<char>)
    ensures
        r@ == join_spaces(order::views(parts@)),
{
    let mut out: Vec<char> = Vec::new();
    let mut i: usize = 0;
    while i < parts.len()
        invariant
            i <= parts@.len(),
            out@ == join_spaces(order::views(parts@).take(i as int)),
        decreases parts.len() - i,
    {
        let ghost ps = order::views(parts@);
        assert(ps.take(i + 1).drop_last() == ps.take(i as int));
        assert(ps.take(i + 1).last() == parts@[i as int]@);
        if i > 0 {
            out.push(' ');
        } else {
            assert(out@ == Seq::<char>::empty());
        }
        chars::extend_chars(&mut out, &parts[i]);
        i += 1;
    }
    assert(order::views(parts@).take(parts@.len() as int) == order::views(parts@));
    out
}

/// Join token parts with single spaces, skipping empty parts.
pub fn join_nonempty(parts: &[&str]) -> (r: String)
    ensures
        r@ == join_spaces(nonempty_parts(parts@.map_values(|p: &str| p@))),
{
    let ghost ps = parts@.map_values(|p: &str| p@);
    let mut kept: Vec<Vec<char>> = Vec::new();
    let mut i: usize = 0;
    while i < parts.len()
        invariant
            i <= parts@.len(),
            ps == parts@.map_values(|p: &str| p@),
            order::views(kept@) == nonempty_parts(ps.take(i as int)),
        decreases parts.len() - i,
    {
        assert(ps.take(i + 1).drop_last() == ps.take(i as int));
        assert(ps.take(i + 1).last() == parts@[i as int]@);
        let w = chars::chars_of(parts[i]);
        if w.len() > 0 {
            kept.push(w);
            assert(order::views(kept@) =~= nonempty_parts(ps.take(i as int)).push(parts@[i as int]@));
        }
        i += 1;
    }
    assert(ps.take(parts@.len() as int) == ps);
    let joined = join_with_spaces(&kept);
    chars::string_of(&joined)
}

/// A common subsequence is no longer than either sequence.
pub proof fn lemma_lcs_bound(a: Seq<char>, b: Seq<char>)
    ensures
        lcs(a, b) <= a.len(),
        lcs(a, b) <= b.len(),
    decreases a.len() + b.len(),
{
    if a.len() > 0 && b.len() > 0 {
        if a.last() == b.last() {
            lemma_lcs_bound(a.drop_last(), b.drop_last());
        } else {
            lemma_lcs_bound(a.drop_last(), b);
            lemma_lcs_bound(a, b.drop_last());
        }
    }
}

/// A sequence is its own longest common subsequence with itself, so
/// identical strings have indel similarity 1.
pub proof fn lemma_lcs_self(a: Seq<char>)
    ensures
        lcs(a, a) == a.len(),
    decreases a.len(),
{
    if a.len() > 0 {
        lemma_lcs_self(a.drop_last());
    }
}

/// The longest common subsequence does not depend on the order of its
/// arguments.
pub proof fn lemma_lcs_symmetric(a: Seq<char>, b: Seq<char>)
    ensures
        lcs(a, b) == lcs(b, a),
    decreases a.len() + b.len(),
{
    if a.len() > 0 && b.len() > 0 {
        if a.last() == b.last() {
            lemma_lcs_symmetric(a.drop_last(), b.drop_last());
        } else {
            lemma_lcs_symmetric(a.drop_last(), b);
            lemma_lcs_symmetric(a, b.drop_last());
        }
    }
}

/// Length of the longest common subsequence, by the row-at-a-time dynamic
/// program in O(|b|) space.
pub fn lcs_length(a: &[char], b: &[char]) -> (r: usize)
    requires
        b@.len() < usize::MAX,
    ensures
        r == lcs(a@, b@),
{
    let m = b.len();
    let mut prev: Vec<usize> = Vec::new();
    let mut k: usize = 0;
    while k <= m
        invariant
            k <= m + 1,
            m == b@.len(),
            m < usize::MAX,
            prev@.len() == k,
            forall|t: int| 0 <= t < k ==> #[trigger] prev@[t] == 0,
        decreases m + 1 - k,
    {
        prev.push(0);
        k += 1;
    }
    proof {
        assert forall|t: int| 0 <= t <= m implies #[trigger] prev@[t] == lcs(a@.take(0), b@.take(t)) by {
            assert(a@.take(0).len() == 0);
        }
    }
    let mut i: usize = 0;
    while i < a.len()
        invariant
            i <= a@.len(),
            m == b@.len(),
            m < usize::MAX,
            prev@.len() == m + 1,
            forall|t: int| 0 <= t <= m ==> #[trigger] prev@[t] == lcs(a@.take(i as int), b@.take(t)),
        decreases a.len() - i,
    {
        let ca = a[i];
        let ghost ai = a@.take(i as int);
        let ghost ai1 = a@.take(i + 1);
        assert(ai1.drop_last() == ai);
        assert(ai1.last() == ca);
        let mut diag: usize = 0;
        let mut j: usize = 0;
        assert(b@.take(0).len() == 0);
        while j < m
            invariant
                i < a@.len(),
                ai == a@.take(i as int),
                ai1 == a@.take(i + 1),
                ai1.drop_last() == ai,
                ai1.last() == ca,
                j <= m,
                m == b@.len(),
                m < usize::MAX,
                prev@.len() == m + 1,
                diag == lcs(ai, b@.take(j as int)),
                forall|t: int| 0 <= t <= j ==> #[trigger] prev@[t] == lcs(ai1, b@.take(t)),
                forall|t: int| j < t <= m ==> #[trigger] prev@[t] == lcs(ai, b@.take(t)),
            decreases m - j,
        {
            let ghost bj = b@.take(j as int);
            let ghost bj1 = b@.take(j + 1);
            assert(bj1.drop_last() == bj);
            assert(bj1.last() == b@[j as int]);
            let old = prev[j + 1];
            proof {
                lemma_lcs_bound(ai, bj);
                assert(ai1.len() > 0 && bj1.len() > 0);
            }
            if ca == b[j] {
                prev.set(j + 1, diag + 1);
            } else {
                let up = prev[j + 1];
                let left = prev[j];
                if up >= left {
                    prev.set(j + 1, up);
                } else {
                    prev.set(j + 1, left);
                }
            }
            diag = old;
            j += 1;
        }
        i += 1;
    }
    assert(a@.take(a@.len() as int) == a@);
    assert(b@.take(m as int) == b@);
    prev[m]
}

/// The counts behind the indel similarity ratio of two strings: the length
/// of their longest common subsequence and their total length, both in
/// characters. The ratio is `2 * lcs / total` (1 when `total` is 0).
pub fn fuzz_counts(s1: &str, s2: &str) -> (r: (usize, usize))
    requires
        s1@.len() + s2@.len() < usize::MAX,
    ensures
        r.0 == lcs(s1@, s2@),
        r.1 == s1@.len() + s2@.len(),
{
    let a = chars::chars_of(s1);
    let b = chars::chars_of(s2);
    let total = a.len() + b.len();
    let l = lcs_length(&a, &b);
    (l, total)
}

/// The elements of `u` that are in `other` (when `inside`) or not in it
/// (when `!inside`), in order.
pub open spec fn filter_by(u: Seq<Seq<char>>, other: Seq<Seq<char>>, inside: bool) -> Seq<Seq<char>>
    decreases u.len(),
{
    if u.len() == 0 {
        seq![]
    } else if other.contains(u.last()) == inside {
        filter_by(u.drop_last(), other, inside).push(u.last())
    } else {
        filter_by(u.drop_last(), other, inside)
    }
}

/// The tokens of `s`, sorted, joined with single spaces.
pub open spec fn sorted_tokens_spec(s: Seq<char>) -> Seq<char> {
    join_spaces(order::sort_spec(tokenize_spec(s)))
}

/// The strings the token-set ratio compares, with whether either token set
/// is empty: the sorted intersection, and the intersection followed by the
/// sorted tokens only in the first (resp. second) string.
pub struct TokenSetStrings {
    /// The first string has no tokens.
    pub first_empty: bool,
    /// The second string has no tokens.
    pub second_empty: bool,
    /// The shared tokens, sorted and space-joined.
    pub intersection: String,
    /// The shared tokens, then the tokens only in the first string.
    pub combined1: String,
    /// The shared tokens, then the tokens only in the second string.
    pub combined2: String,
}

/// The distinct tokens of `s`, in increasing order.
pub open spec fn token_set_spec(s: Seq<char>) -> Seq<Seq<char>> {
    order::sorted_set_spec(tokenize_spec(s))
}

proof fn lemma_filter_by(u: Seq<Seq<char>>, other: Seq<Seq<char>>, inside: bool)
    ensures
        forall|x: Seq<char>|
            #[trigger] filter_by(u, other, inside).contains(x) <==> (u.contains(x) && other.contains(x)
                == inside),
        order::strictly_sorted(u) ==> order::strictly_sorted(filter_by(u, other, inside)),
    decreases u.len(),
{
    if u.len() > 0 {
        let d = u.drop_last();
        lemma_filter_by(d, other, inside);
        let f = filter_by(d, other, inside);
        assert forall|x: Seq<char>| #[trigger] filter_by(u, other, inside).contains(x) <==> (u.contains(x)
            && other.contains(x) == inside) by {
            if u.contains(x) {
                let k = choose|k: int| 0 <= k < u.len() && u[k] == x;
                if k < u.len() - 1 {
                    assert(d[k] == x);
                }
            }
            if d.contains(x) {
                let k = choose|k: int| 0 <= k < d.len() && d[k] == x;
                assert(u[k] == x);
            }
            if other.contains(u.last()) == inside {
                if f.push(u.last()).contains(x) {
                    let k = choose|k: int| 0 <= k < f.push(u.last()).len() && f.push(u.last())[k] == x;
                    if k < f.len() {
                        assert(f[k] == x);
                    }
                }
                if f.contains(x) {
                    let k = choose|k: int| 0 <= k < f.len() && f[k] == x;
                    assert(f.push(u.last())[k] == x);
                }
                if x == u.last() {
                    assert(f.push(u.last())[f.len() as int] == x);
                }
            }
        }
        if order::strictly_sorted(u) {
            assert forall|i: int, j: int| 0 <= i < j < d.len() implies order::seq_lt(#[trigger] d[i], #[trigger] d[j]) by {
                assert(d[i] == u[i] && d[j] == u[j]);
            }
            if other.contains(u.last()) == inside {
                let g = f.push(u.last());
                assert forall|i: int, j: int| 0 <= i < j < g.len() implies order::seq_lt(#[trigger] g[i], #[trigger] g[j]) by {
                    if j == f.len() {
                        assert(f.contains(g[i])) by {
                            assert(f[i] == g[i]);
                        }
                        let k = choose|k: int| 0 <= k < d.len() && d[k] == g[i];
                        assert(u[k] == g[i]);
                    } else {
                        assert(g[i] == f[i] && g[j] == f[j]);
                    }
                }
            }
        }
    }
}

/// The shared tokens of two strings do not depend on their order: the
/// token-set comparison is symmetric (the intersection is the same, and
/// the two combined strings trade places).
pub proof fn lemma_token_set_symmetric(s1: Seq<char>, s2: Seq<char>)
    ensures
        filter_by(token_set_spec(s1), token_set_spec(s2), true) == filter_by(
            token_set_spec(s2),
            token_set_spec(s1),
            true,
        ),
{
    let t1 = token_set_spec(s1);
    let t2 = token_set_spec(s2);
    order::lemma_sorted_set(tokenize_spec(s1));
    order::lemma_sorted_set(tokenize_spec(s2));
    lemma_filter_by(t1, t2, true);
    lemma_filter_by(t2, t1, true);
    let a = filter_by(t1, t2, true);
    let b = filter_by(t2, t1, true);
    assert(a.to_set() =~= b.to_set()) by {
        assert forall|x: Seq<char>| a.to_set().contains(x) <==> b.to_set().contains(x) by {
            assert(a.contains(x) == a.to_set().contains(x));
            assert(b.contains(x) == b.to_set().contains(x));
        }
    }
    order::lemma_strictly_sorted_unique(a, b);
}

/// `a` and `b` joined by a space, or whichever is non-empty.
pub open spec fn join_two(a: Seq<char>, b: Seq<char>) -> Seq<char> {
    join_spaces(nonempty_parts(seq![a, b]))
}

/// The character vectors of a list of strings.
fn char_vecs(v: &Vec<String>) -> (r: Vec<Vec<char>>)
    ensures
        order::views(r@) == v@.map_values(|t: String| t@),
{
    let mut out: Vec<Vec<char>> = Vec::new();
    let mut i: usize = 0;
    while i < v.len()
        invariant
            i <= v@.len(),
            order::views(out@) == v@.map_values(|t: String| t@).take(i as int),
        decreases v.len() - i,
    {
        let c = chars::chars_of(v[i].as_str());
        let ghost before = order::views(out@);
        out.push(c);
        assert(order::views(out@) =~= before.push(c@));
        assert(v@.map_values(|t: String| t@).take(i + 1) =~= v@.map_values(|t: String| t@).take(i as int).push(v@[i as int]@));
        i += 1;
    }
    assert(v@.map_values(|t: String| t@).take(v@.len() as int) == v@.map_values(|t: String| t@));
    out
}

/// The tokens of `s` sorted and joined with single spaces.
pub fn sorted_tokens(s: &str) -> (r: String)
    ensures
        r@ == sorted_tokens_spec(s@),
{
    let toks = tokenize(s);
    let v = char_vecs(&toks);
    let sv = order::sort_strings(v);
    proof {
        let t = tokenize_spec(s@);
        let w = order::views(sv@);
        assert(order::sorted(w) && w.to_multiset() == t.to_multiset());
        order::lemma_sorted_unique(w, order::sort_spec(t));
    }
    let joined = join_with_spaces(&sv);
    chars::string_of(&joined)
}

/// The distinct tokens of `s`, in increasing order.
pub fn token_set(s: &str) -> (r: Vec<Vec<char>>)
    ensures
        order::views(r@) == token_set_spec(s@),
{
    let toks = tokenize(s);
    let v = char_vecs(&toks);
    let sv = order::sort_strings(v);
    let ghost t = tokenize_spec(s@);
    proof {
        order::views(sv@).to_multiset_ensures();
        t.to_multiset_ensures();
        assert forall|x: Seq<char>| order::views(sv@).contains(x) <==> t.contains(x) by {
            assert(order::views(sv@).to_multiset().count(x) == t.to_multiset().count(x));
        }
        assert(order::views(sv@).to_set() =~= t.to_set());
    }
    let d = order::dedup_sorted(sv);
    proof {
        let w = order::views(d@);
        assert(order::strictly_sorted(w) && w.to_set() == t.to_set());
        order::lemma_strictly_sorted_unique(w, order::sorted_set_spec(t));
    }
    d
}

/// The elements of `u` that are (or are not) in `other`, in order.
fn filter_members(u: &Vec<Vec<char>>, other: &Vec<Vec<char>>, inside: bool) -> (r: Vec<Vec<char>>)
    ensures
        order::views(r@) == filter_by(order::views(u@), order::views(other@), inside),
{
    let ghost us = order::views(u@);
    let mut out: Vec<Vec<char>> = Vec::new();
    let mut i: usize = 0;
    while i < u.len()
        invariant
            i <= u@.len(),
            us == order::views(u@),
            order::views(out@) == filter_by(us.take(i as int), order::views(other@), inside),
        decreases u.len() - i,
    {
        assert(us.take(i + 1).drop_last() == us.take(i as int));
        assert(us.take(i + 1).last() == u@[i as int]@);
        let present = order::contains_chars(other, u[i].as_slice());
        if present == inside {
            let x = u[i].clone();
            out.push(x);
            assert(order::views(out@) =~= filter_by(us.take(i as int), order::views(other@), inside).push(
                u@[i as int]@,
            ));
        }
        i += 1;
    }
    assert(us.take(u@.len() as int) == us);
    out
}

/// Join two strings with a space, skipping an empty one.
fn join_pair(a: &Vec<char>, b: &Vec<char>) -> (r: Vec<char>)
    ensures
        r@ == join_two(a@, b@),
{
    let mut kept: Vec<Vec<char>> = Vec::new();
    let ghost ps = seq![a@, b@];
    assert(ps.take(0) =~= Seq::<Seq<char>>::empty());
    assert(ps.take(1).drop_last() == ps.take(0));
    assert(ps.take(2).drop_last() == ps.take(1));
    assert(ps.take(2) == ps);
    assert(ps.take(1).last() == a@);
    assert(ps.drop_last() == ps.take(1));
    assert(ps.last() == b@);
    assert(nonempty_parts(ps.take(0)) == Seq::<Seq<char>>::empty());
    if a.len() > 0 {
        kept.push(a.clone());
    }
    assert(order::views(kept@) =~= nonempty_parts(ps.take(1)));
    if b.len() > 0 {
        let ghost before = order::views(kept@);
        kept.push(b.clone());
        assert(order::views(kept@) =~= before.push(b@));
    }
    assert(order::views(kept@) =~= nonempty_parts(ps));
    join_with_spaces(&kept)
}

/// The strings behind the token-set ratio of `s1` and `s2`.
pub fn token_set_strings(s1: &str, s2: &str) -> (r: TokenSetStrings)
    ensures
        r.first_empty == (token_set_spec(s1@).len() == 0),
        r.second_empty == (token_set_spec(s2@).len() == 0),
        r.intersection@ == join_spaces(filter_by(token_set_spec(s1@), token_set_spec(s2@), true)),
        r.combined1@ == join_two(
            join_spaces(filter_by(token_set_spec(s1@), token_set_spec(s2@), true)),
            join_spaces(filter_by(token_set_spec(s1@), token_set_spec(s2@), false)),
        ),
        r.combined2@ == join_two(
            join_spaces(filter_by(token_set_spec(s1@), token_set_spec(s2@), true)),
            join_spaces(filter_by(token_set_spec(s2@), token_set_spec(s1@), false)),
        ),
{
    let t1 = token_set(s1);
    let t2 = token_set(s2);
    let inter = filter_members(&t1, &t2, true);
    let diff1 = filter_members(&t1, &t2, false);
    let diff2 = filter_members(&t2, &t1, false);
    let inter_s = join_with_spaces(&inter);
    let diff1_s = join_with_spaces(&diff1);
    let diff2_s = join_with_spaces(&diff2);
    let c1 = join_pair(&inter_s, &diff1_s);
    let c2 = join_pair(&inter_s, &diff2_s);
    TokenSetStrings {
        first_empty: t1.len() == 0,
        second_empty: t2.len() == 0,
        intersection: chars::string_of(&inter_s),
        combined1: chars::string_of(&c1),
        combined2: chars::string_of(&c2),
    }
}

/// Minimum number of single-character insertions, deletions and
/// substitutions turning `a` into `b`.
pub open spec fn edit_distance(a: Seq<char>, b: Seq<char>) -> nat
    decreases a.len() + b.len(),
{
    if a.len() == 0 {
        b.len()
    } else if b.len() == 0 {
        a.len()
    } else {
        let del = edit_distance(a.drop_last(), b) + 1;
        let ins = edit_distance(a, b.drop_last()) + 1;
        let sub = edit_distance(a.drop_last(), b.drop_last()) + if a.last() == b.last() {
            0nat
        } else {
            1nat
        };
        if del <= ins && del <= sub {
            del
        } else if ins <= sub {
            ins
        } else {
            sub
        }
    }
}

/// `strsim::levenshtein`: the edit distance between the characters of `a`
/// and `b`. Claims what its documentation says: the minimum number of
/// insertions, deletions and substitutions turning one into the other.
#[verifier::external_body]
fn levenshtein(a: &str, b: &str) -> (r: usize)
    requires
        b@.len() < usize::MAX,
    ensures
        r == edit_distance(a@, b@),
{
    strsim::levenshtein(a, b)
}

/// The counts behind the normalized Levenshtein ratio: the edit distance
/// (in characters) and the longer of the two lengths in UTF-8 bytes. The
/// ratio is `1 - distance / longer` (1 when both are empty).
pub fn levenshtein_counts(s1: &str, s2: &str) -> (r: (usize, usize))
    requires
        s2@.len() < usize::MAX,
    ensures
        r.0 == edit_distance(s1@, s2@),
        r.1 == if s1.len() >= s2.len() {
            s1.len()
        } else {
            s2.len()
        },
{
    let l1 = s1.len();
    let l2 = s2.len();
    let longer = if l1 >= l2 {
        l1
    } else {
        l2
    };
    (levenshtein(s1, s2), longer)
}

} // verus!
