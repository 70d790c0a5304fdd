//! Multi-artist name decomposition: combined library credits such as
//! `"J Dilla / Jay Dee"` or `"Emerson, Lake, and Palmer"` split into their
//! individual artists.

use vstd::prelude::*;

use super::chars;
use super::mojibake;
use super::normalize;

verus! {

/// `d` occurs in `s` starting at index `i`.
pub open spec fn occurs_at(s: Seq<char>, d: Seq<char>, i: int) -> bool {
    0 <= i && i + d.len() <= s.len() && s.subrange(i, i + d.len()) == d
}

/// Leftmost occurrence of `d` in `s` at or after index `i`.
pub open spec fn find_from(s: Seq<char>, d: Seq<char>, i: int) -> Option<int>
    decreases s.len() + 1 - i,
{
    if i < 0 || i + d.len() > s.len() {
        None
    } else if occurs_at(s, d, i) {
        Some(i)
    } else {
        find_from(s, d, i + 1)
    }
}

pub open spec fn contains_seq(s: Seq<char>, d: Seq<char>) -> bool {
    find_from(s, d, 0) is Some
}

pub proof fn lemma_find_from_bounds(s: Seq<char>, d: Seq<char>, i: int)
    ensures
        find_from(s, d, i) matches Some(k) ==> i <= k && k + d.len() <= s.len() && occurs_at(
            s,
            d,
            k,
        ),
        find_from(s, d, i) matches Some(k) ==> forall|j: int| i <= j < k ==> !occurs_at(s, d, j),
        find_from(s, d, i) is None && i >= 0 ==> forall|j: int| i <= j ==> !occurs_at(s, d, j),
    decreases s.len() + 1 - i,
{
    if i < 0 || i + d.len() > s.len() {
    } else if occurs_at(s, d, i) {
    } else {
        lemma_find_from_bounds(s, d, i + 1);
    }
}

/// `str::split(d)` for a non-empty delimiter: the pieces between
/// successive leftmost non-overlapping occurrences of `d`.
pub open spec fn split_on(s: Seq<char>, d: Seq<char>) -> Seq<Seq<char>>
    decreases s.len(),
{
    if d.len() == 0 {
        seq![s]
    } else {
        match find_from(s, d, 0) {
            None => seq![s],
            Some(k) => {
                proof {
                    lemma_find_from_bounds(s, d, 0);
                }
                seq![s.take(k)] + split_on(s.skip(k + d.len()), d)
            },
        }
    }
}

/// Every piece trimmed of `White_Space` (`str::trim`).
pub open spec fn trim_all(ps: Seq<Seq<char>>) -> Seq<Seq<char>> {
    ps.map_values(|p: Seq<char>| chars::trim_ws(p))
}

pub open spec fn comma_sp() -> Seq<char> {
    seq![',', ' ']
}

pub open spec fn slash_delim() -> Seq<char> {
    seq![' ', '/', ' ']
}

pub open spec fn plus_delim() -> Seq<char> {
    seq![' ', '+', ' ']
}

pub open spec fn amp_delim() -> Seq<char> {
    seq![' ', '&', ' ']
}

/// Digits and commas only, and not empty.
pub open spec fn is_numeric_spec(p: Seq<char>) -> bool {
    p.len() > 0 && forall|i: int| 0 <= i < p.len() ==> (('0' <= #[trigger] p[i] && p[i] <= '9')
        || p[i] == ',')
}

/// The `and ` / `And ` / `AND ` prefix that opens `s`, if any.
pub open spec fn and_prefix_len(s: Seq<char>) -> Option<int> {
    if seq!['a', 'n', 'd', ' '].is_prefix_of(s) || seq!['A', 'n', 'd', ' '].is_prefix_of(s) || seq![
        'A',
        'N',
        'D',
        ' ',
    ].is_prefix_of(s) {
        Some(4)
    } else {
        None
    }
}

/// "Emerson, Lake, and Palmer": a trailing `and X` becomes `X`.
pub open spec fn split_trailing_and_spec(ps: Seq<Seq<char>>) -> Seq<Seq<char>> {
    if ps.len() < 2 {
        ps
    } else {
        let last = chars::trim_ws(ps.last());
        match and_prefix_len(last) {
            Some(k) => ps.update(ps.len() - 1, chars::trim_ws(last.skip(k))),
            None => ps,
        }
    }
}

/// Comma split with the numeric guard and trailing-`and` handling.
pub open spec fn try_comma_split_spec(name: Seq<char>) -> Option<Seq<Seq<char>>> {
    if !contains_seq(name, comma_sp()) {
        None
    } else {
        let parts = trim_all(split_on(name, comma_sp()));
        if parts.len() < 2 {
            None
        } else if exists|i: int| 0 <= i < parts.len() && is_numeric_spec(chars::trim_ws(#[trigger] parts[i])) {
            None
        } else {
            let p2 = split_trailing_and_spec(parts);
            if p2.len() >= 2 {
                Some(p2)
            } else {
                None
            }
        }
    }
}

/// Split on a plain delimiter (` / ` or ` + `).
pub open spec fn try_delimiter_split_spec(name: Seq<char>, d: Seq<char>) -> Option<Seq<Seq<char>>> {
    if !contains_seq(name, d) {
        None
    } else {
        let parts = trim_all(split_on(name, d));
        if parts.len() >= 2 {
            Some(parts)
        } else {
            None
        }
    }
}

/// A component is meaningful when its trimmed text is more than one byte
/// of UTF-8.
pub open spec fn valid_component_spec(s: Seq<char>) -> bool {
    vstd::utf8::encode_utf8(chars::trim_ws(s)).len() > 1
}

/// Trim, drop invalid components and duplicates, keeping first occurrences
/// in order.
pub open spec fn dedupe_valid_spec(cs: Seq<Seq<char>>) -> Seq<Seq<char>>
    decreases cs.len(),
{
    if cs.len() == 0 {
        seq![]
    } else {
        let prev = dedupe_valid_spec(cs.drop_last());
        let t = chars::trim_ws(cs.last());
        if valid_component_spec(t) && !prev.contains(t) {
            prev.push(t)
        } else {
            prev
        }
    }
}

/// Drop duplicates, keeping first occurrences in order.
pub open spec fn dedupe_spec(cs: Seq<Seq<char>>) -> Seq<Seq<char>>
    decreases cs.len(),
{
    if cs.len() == 0 {
        seq![]
    } else {
        let prev = dedupe_spec(cs.drop_last());
        if !prev.contains(cs.last()) {
            prev.push(cs.last())
        } else {
            prev
        }
    }
}

/// Context-free split: comma, else ` / `, else ` + `, then deduplicated;
/// `None` when no delimiter applies or nothing valid remains.
pub open spec fn split_artist_name_spec(name: Seq<char>) -> Option<Seq<Seq<char>>> {
    let n = chars::trim_ws(name);
    if n.len() == 0 {
        None
    } else {
        let comps = match try_comma_split_spec(n) {
            Some(c) => Some(c),
            None => match try_delimiter_split_spec(n, slash_delim()) {
                Some(c) => Some(c),
                None => try_delimiter_split_spec(n, plus_delim()),
            },
        };
        match comps {
            None => None,
            Some(c) => {
                let r = dedupe_valid_spec(c);
                if r.len() == 0 || (r.len() == 1 && !contains_seq(n, comma_sp()) && !contains_seq(
                    n,
                    slash_delim(),
                ) && !contains_seq(n, plus_delim())) {
                    None
                } else {
                    Some(r)
                }
            },
        }
    }
}

/// The components that are meaningful, in order.
pub open spec fn valid_only(ps: Seq<Seq<char>>) -> Seq<Seq<char>>
    decreases ps.len(),
{
    if ps.len() == 0 {
        seq![]
    } else if valid_component_spec(ps.last()) {
        valid_only(ps.drop_last()).push(ps.last())
    } else {
        valid_only(ps.drop_last())
    }
}

/// Split on ` & ` when at least one trimmed part, normalized, is a known
/// artist and at least two meaningful parts result.
pub open spec fn try_ampersand_split_spec(name: Seq<char>, known: Seq<Seq<char>>) -> Option<
    Seq<Seq<char>>,
> {
    if !contains_seq(name, amp_delim()) {
        None
    } else {
        let parts = trim_all(split_on(name, amp_delim()));
        if parts.len() < 2 {
            None
        } else if !(exists|i: int|
            0 <= i < parts.len() && known.contains(
                normalize::normalize_name_spec(#[trigger] parts[i]),
            )) {
            None
        } else {
            let valid = valid_only(parts);
            if valid.len() >= 2 {
                Some(valid)
            } else {
                None
            }
        }
    }
}

/// Each component replaced by its ampersand split when that applies.
pub open spec fn expand_ampersands(cs: Seq<Seq<char>>, known: Seq<Seq<char>>) -> Seq<Seq<char>>
    decreases cs.len(),
{
    if cs.len() == 0 {
        seq![]
    } else {
        expand_ampersands(cs.drop_last(), known) + match try_ampersand_split_spec(
            cs.last(),
            known,
        ) {
            Some(sub) => sub,
            None => seq![cs.last()],
        }
    }
}

/// Context-aware split: context-free splits, then ` & ` splits checked
/// against the known (normalized) artists.
pub open spec fn split_contextual_spec(name: Seq<char>, known: Seq<Seq<char>>) -> Option<
    Seq<Seq<char>>,
> {
    match split_artist_name_spec(name) {
        Some(cs) => Some(dedupe_spec(expand_ampersands(cs, known))),
        None => try_ampersand_split_spec(chars::trim_ws(name), known),
    }
}

/// The character sequences of a vector of strings.
pub open spec fn string_views(v: Seq<String>) -> Seq<Seq<char>> {
    v.map_values(|s: String| s@)
}

/// The character sequences of a vector of character vectors.
pub open spec fn vec_views(v: Seq<Vec<char>>) -> Seq<Seq<char>> {
    v.map_values(|s: Vec<char>| s@)
}

/// Whether `d` occurs at index `i` of `v`.
fn matches_at(v: &[char], d: &[char], i: usize) -> (r: bool)
    requires
        i <= v@.len(),
    ensures
        r == occurs_at(v@, d@, i as int),
{
    if d.len() > v.len() - i {
        return false;
    }
    let mut k: usize = 0;
    while k < d.len()
        invariant
            k <= d@.len(),
            i + d.len() <= v.len(),
            forall|j: int| 0 <= j < k ==> v@[i + j] == d@[j],
        decreases d.len() - k,
    {
        if v[i + k] != d[k] {
            assert(v@.subrange(i as int, i + d@.len())[k as int] != d@[k as int]);
            return false;
        }
        k += 1;
    }
    assert(v@.subrange(i as int, i + d@.len()) =~= d@);
    true
}

/// Leftmost occurrence of `d` in `v`.
pub fn find_first(v: &[char], d: &[char]) -> (r: Option<usize>)
    ensures
        match find_from(v@, d@, 0) {
            None => r is None,
            Some(k) => r == Some(k as usize),
        },
{
    let mut i: usize = 0;
    while d.len() <= v.len() && i <= v.len() - d.len()
        invariant
            i <= v@.len() + 1,
            find_from(v@, d@, 0) == find_from(v@, d@, i as int),
        decreases v.len() + 1 - i,
    {
        if matches_at(v, d, i) {
            return Some(i);
        }
        assert(d@.len() > 0) by {
            if d@.len() == 0 {
                assert(v@.subrange(i as int, i as int) =~= d@);
            }
        }
        i += 1;
    }
    None
}

/// Pieces of `v` between occurrences of the non-empty delimiter `d`.
pub fn split_chars(v: &[char], d: &[char]) -> (r: Vec<Vec<char>>)
    requires
        d@.len() > 0,
    ensures
        vec_views(r@) == split_on(v@, d@),
{
    let mut parts: Vec<Vec<char>> = Vec::new();
    let mut rest = chars::slice_to_vec(v, 0, v.len());
    assert(v@.subrange(0, v@.len() as int) == v@);
    loop
        invariant
            d@.len() > 0,
            vec_views(parts@) + split_on(rest@, d@) == split_on(v@, d@),
        decreases rest@.len(),
    {
        match find_first(&rest, d) {
            None => {
                proof {
                    assert(vec_views(parts@.push(rest)) =~= vec_views(parts@).push(rest@));
                    assert(split_on(rest@, d@) == seq![rest@]);
                    assert(vec_views(parts@) + seq![rest@] == vec_views(parts@).push(rest@));
                }
                parts.push(rest);
                return parts;
            },
            Some(k) => {
                proof {
                    lemma_find_from_bounds(rest@, d@, 0);
                }
                assert(k + d.len() <= rest.len());
                let piece = chars::slice_to_vec(&rest, 0, k);
                let next = chars::slice_to_vec(&rest, k + d.len(), rest.len());
                proof {
                    assert(piece@ == rest@.take(k as int));
                    assert(next@ == rest@.skip(k + d@.len()));
                    assert(vec_views(parts@.push(piece)) =~= vec_views(parts@).push(piece@));
                    assert(split_on(rest@, d@) == seq![piece@] + split_on(next@, d@));
                    assert(vec_views(parts@).push(piece@) + split_on(next@, d@) =~= vec_views(
                        parts@,
                    ) + (seq![piece@] + split_on(next@, d@)));
                }
                parts.push(piece);
                rest = next;
            },
        }
    }
}

/// Every piece trimmed of `White_Space`.
fn trim_pieces(ps: &Vec<Vec<char>>) -> (r: Vec<Vec<char>>)
    ensures
        vec_views(r@) == trim_all(vec_views(ps@)),
{
    let mut out: Vec<Vec<char>> = Vec::new();
    let mut i: usize = 0;
    while i < ps.len()
        invariant
            i <= ps@.len(),
            vec_views(out@) == trim_all(vec_views(ps@)).take(i as int),
        decreases ps.len() - i,
    {
        let t = chars::trim_ws_vec(&ps[i]);
        proof {
            assert(vec_views(out@.push(t)) =~= vec_views(out@).push(t@));
            assert(trim_all(vec_views(ps@)).take(i + 1) =~= trim_all(vec_views(ps@)).take(
                i as int,
            ).push(t@));
        }
        out.push(t);
        i += 1;
    }
    assert(trim_all(vec_views(ps@)).take(ps@.len() as int) =~= trim_all(vec_views(ps@)));
    out
}

/// Digits and commas only, and not empty.
fn is_numeric(p: &[char]) -> (r: bool)
    ensures
        r == is_numeric_spec(p@),
{
    if p.len() == 0 {
        return false;
    }
    let mut i: usize = 0;
    while i < p.len()
        invariant
            i <= p@.len(),
            forall|j: int| 0 <= j < i ==> (('0' <= #[trigger] p@[j] && p@[j] <= '9') || p@[j]
                == ','),
        decreases p.len() - i,
    {
        if !((p[i] >= '0' && p[i] <= '9') || p[i] == ',') {
            return false;
        }
        i += 1;
    }
    true
}

/// Whether the trimmed text is more than one byte of UTF-8.
pub fn valid_component(s: &[char]) -> (r: bool)
    ensures
        r == valid_component_spec(s@),
{
    let t = chars::trim_ws_vec(s);
    proof {
        mojibake::lemma_utf8_len(t@);
    }
    if t.len() >= 2 {
        true
    } else if t.len() == 0 {
        false
    } else {
        proof {
            if t@[0] as u32 > 0x7F {
                assert(exists|j: int| 0 <= j < t@.len() && (#[trigger] t@[j]) as u32 > 0x7F);
            }
        }
        t[0] as u32 > 0x7F
    }
}

/// Whether `cs` holds a vector with the same characters as `t`.
fn contains_chars(cs: &Vec<Vec<char>>, t: &[char]) -> (r: bool)
    ensures
        r == vec_views(cs@).contains(t@),
{
    let mut i: usize = 0;
    while i < cs.len()
        invariant
            i <= cs@.len(),
            forall|j: int| 0 <= j < i ==> cs@[j]@ != t@,
        decreases cs.len() - i,
    {
        if chars::chars_eq(&cs[i], t) {
            assert(vec_views(cs@)[i as int] == t@);
            return true;
        }
        i += 1;
    }
    assert(!vec_views(cs@).contains(t@)) by {
        if vec_views(cs@).contains(t@) {
            let j = choose|j: int| 0 <= j < vec_views(cs@).len() && vec_views(cs@)[j] == t@;
            assert(cs@[j]@ == t@);
        }
    }
    false
}

/// Trim, drop invalid components and duplicates, preserving order.
fn dedupe_valid(cs: &Vec<Vec<char>>) -> (r: Vec<Vec<char>>)
    ensures
        vec_views(r@) == dedupe_valid_spec(vec_views(cs@)),
{
    let mut out: Vec<Vec<char>> = Vec::new();
    let mut i: usize = 0;
    while i < cs.len()
        invariant
            i <= cs@.len(),
            vec_views(out@) == dedupe_valid_spec(vec_views(cs@).take(i as int)),
        decreases cs.len() - i,
    {
        let ghost pre = vec_views(cs@).take(i as int);
        assert(vec_views(cs@).take(i + 1).drop_last() == pre);
        assert(vec_views(cs@).take(i + 1).last() == cs@[i as int]@);
        let t = chars::trim_ws_vec(&cs[i]);
        if valid_component(&t) && !contains_chars(&out, &t) {
            proof {
                assert(chars::trim_ws(t@) == t@) by {
                    lemma_trim_ws_idempotent(cs@[i as int]@);
                }
                assert(vec_views(out@.push(t)) =~= vec_views(out@).push(t@));
            }
            out.push(t);
        } else {
            proof {
                lemma_trim_ws_idempotent(cs@[i as int]@);
            }
        }
        i += 1;
    }
    assert(vec_views(cs@).take(cs@.len() as int) =~= vec_views(cs@));
    out
}

/// Trimming `White_Space` twice is the same as once.
pub proof fn lemma_trim_ws_idempotent(s: Seq<char>)
    ensures
        chars::trim_ws(chars::trim_ws(s)) == chars::trim_ws(s),
{
    let p = |c: char| chars::is_white_space(c);
    chars::lemma_leading_count_bound(s, p);
    let a = chars::trim_start_by(s, p);
    chars::lemma_trailing_count_bound(a, p);
    let t = chars::trim_end_by(a, p);
    chars::lemma_leading_count_bound(a, p);
    if t.len() > 0 {
        assert(t[0] == a[0]);
        chars::lemma_leading_count_is(t, p, 0);
        chars::lemma_trailing_count_is(t, p, 0);
        assert(chars::trim_start_by(t, p) == t);
        assert(chars::trim_end_by(t, p) == t);
    } else {
        chars::lemma_leading_count_is(t, p, 0);
        assert(chars::trim_start_by(t, p) == t);
        chars::lemma_trailing_count_is(t, p, 0);
    }
}


/// Length of the `and `-style prefix of `s`, if any.
fn and_prefix(s: &[char]) -> (r: Option<usize>)
    ensures
        match and_prefix_len(s@) {
            None => r is None,
            Some(k) => r == Some(k as usize),
        },
{
    let p1 = vec!['a', 'n', 'd', ' '];
    let p2 = vec!['A', 'n', 'd', ' '];
    let p3 = vec!['A', 'N', 'D', ' '];
    assert(p1@ == seq!['a', 'n', 'd', ' ']);
    assert(p2@ == seq!['A', 'n', 'd', ' ']);
    assert(p3@ == seq!['A', 'N', 'D', ' ']);
    if chars::starts_with_chars(s, &p1) || chars::starts_with_chars(s, &p2)
        || chars::starts_with_chars(s, &p3) {
        Some(4)
    } else {
        None
    }
}

/// Handle a trailing `and X` in the last comma-split component.
fn split_trailing_and(mut components: Vec<Vec<char>>) -> (r: Vec<Vec<char>>)
    ensures
        vec_views(r@) == split_trailing_and_spec(vec_views(components@)),
{
    if components.len() < 2 {
        return components;
    }
    let n = components.len();
    let last = chars::trim_ws_vec(&components[n - 1]);
    match and_prefix(&last) {
        Some(k) => {
            let rest = chars::slice_to_vec(&last, k, last.len());
            let t = chars::trim_ws_vec(&rest);
            let ghost old_c = components@;
            components.set(n - 1, t);
            proof {
                assert(rest@ == last@.skip(k as int));
                assert(vec_views(components@) =~= vec_views(old_c).update(n - 1, t@));
            }
            components
        },
        None => components,
    }
}

/// Split on `d` and trim every piece.
fn split_trimmed(name: &[char], d: &[char]) -> (r: Vec<Vec<char>>)
    requires
        d@.len() > 0,
    ensures
        vec_views(r@) == trim_all(split_on(name@, d@)),
{
    let parts = split_chars(name, d);
    trim_pieces(&parts)
}

/// Comma split with the numeric guard and trailing-`and` handling.
fn try_comma_split(name: &[char]) -> (r: Option<Vec<Vec<char>>>)
    ensures
        match try_comma_split_spec(name@) {
            None => r is None,
            Some(ps) => r matches Some(v) && vec_views(v@) == ps,
        },
{
    let d = vec![',', ' '];
    assert(d@ == comma_sp());
    if find_first(name, &d).is_none() {
        return None;
    }
    let parts = split_trimmed(name, &d);
    if parts.len() < 2 {
        return None;
    }
    let mut i: usize = 0;
    while i < parts.len()
        invariant
            i <= parts@.len(),
            parts@.len() >= 2,
            contains_seq(name@, comma_sp()),
            vec_views(parts@) == trim_all(split_on(name@, comma_sp())),
            forall|j: int| 0 <= j < i ==> !is_numeric_spec(chars::trim_ws(#[trigger] vec_views(parts@)[j])),
        decreases parts.len() - i,
    {
        let t = chars::trim_ws_vec(&parts[i]);
        if is_numeric(&t) {
            assert(is_numeric_spec(chars::trim_ws(vec_views(parts@)[i as int])));
            assert(is_numeric_spec(chars::trim_ws(trim_all(split_on(name@, comma_sp()))[i as int])));
            return None;
        }
        i += 1;
    }
    let p2 = split_trailing_and(parts);
    if p2.len() >= 2 {
        Some(p2)
    } else {
        None
    }
}

/// Split on a simple delimiter (` / ` or ` + `).
fn try_delimiter_split(name: &[char], d: &[char]) -> (r: Option<Vec<Vec<char>>>)
    requires
        d@.len() > 0,
    ensures
        match try_delimiter_split_spec(name@, d@) {
            None => r is None,
            Some(ps) => r matches Some(v) && vec_views(v@) == ps,
        },
{
    if find_first(name, d).is_none() {
        return None;
    }
    let parts = split_trimmed(name, d);
    if parts.len() >= 2 {
        Some(parts)
    } else {
        None
    }
}

/// Strings holding the given character vectors.
fn to_strings(vs: &Vec<Vec<char>>) -> (r: Vec<String>)
    ensures
        string_views(r@) == vec_views(vs@),
{
    let mut out: Vec<String> = Vec::new();
    let mut i: usize = 0;
    while i < vs.len()
        invariant
            i <= vs@.len(),
            string_views(out@) == vec_views(vs@).take(i as int),
        decreases vs.len() - i,
    {
        let st = chars::string_of(&vs[i]);
        proof {
            assert(string_views(out@.push(st)) =~= string_views(out@).push(st@));
            assert(vec_views(vs@).take(i + 1) =~= vec_views(vs@).take(i as int).push(vs@[i as int]@));
        }
        out.push(st);
        i += 1;
    }
    assert(vec_views(vs@).take(vs@.len() as int) =~= vec_views(vs@));
    out
}

/// Context-free split as character vectors.
fn split_name_chars(name: &[char]) -> (r: Option<Vec<Vec<char>>>)
    ensures
        match split_artist_name_spec(name@) {
            None => r is None,
            Some(ps) => r matches Some(v) && vec_views(v@) == ps,
        },
{
    let n = chars::trim_ws_vec(name);
    if n.len() == 0 {
        return None;
    }
    let slash = vec![' ', '/', ' '];
    let plus = vec![' ', '+', ' '];
    let comma = vec![',', ' '];
    assert(slash@ == slash_delim());
    assert(plus@ == plus_delim());
    assert(comma@ == comma_sp());
    let comps = match try_comma_split(&n) {
        Some(c) => c,
        None => match try_delimiter_split(&n, &slash) {
            Some(c) => c,
            None => match try_delimiter_split(&n, &plus) {
                Some(c) => c,
                None => {
                    return None;
                },
            },
        },
    };
    let result = dedupe_valid(&comps);
    if result.len() == 0 || (result.len() == 1 && find_first(&n, &comma).is_none() && find_first(
        &n,
        &slash,
    ).is_none() && find_first(&n, &plus).is_none()) {
        None
    } else {
        Some(result)
    }
}

/// Split a combined artist name on `, `, ` / ` or ` + ` into individual
/// components; `None` when the name is not a multi-artist entry.
pub fn split_artist_name(name: &str) -> (r: Option<Vec<String>>)
    ensures
        match split_artist_name_spec(name@) {
            None => r is None,
            Some(ps) => r matches Some(v) && string_views(v@) == ps,
        },
{
    let v = chars::chars_of(name);
    match split_name_chars(&v) {
        None => None,
        Some(ps) => Some(to_strings(&ps)),
    }
}

/// Whether `known` holds a string with the characters of `t`.
fn known_contains(known: &Vec<String>, t: &[char]) -> (r: bool)
    ensures
        r == string_views(known@).contains(t@),
{
    let mut i: usize = 0;
    while i < known.len()
        invariant
            i <= known@.len(),
            forall|j: int| 0 <= j < i ==> known@[j]@ != t@,
        decreases known.len() - i,
    {
        let kv = chars::chars_of(known[i].as_str());
        if chars::chars_eq(&kv, t) {
            assert(string_views(known@)[i as int] == t@);
            return true;
        }
        i += 1;
    }
    assert(!string_views(known@).contains(t@)) by {
        if string_views(known@).contains(t@) {
            let j = choose|j: int| 0 <= j < string_views(known@).len() && string_views(known@)[j] == t@;
            assert(known@[j]@ == t@);
        }
    }
    false
}

/// Split on ` & ` when at least one component is a known artist.
fn try_ampersand_split(name: &[char], known: &Vec<String>) -> (r: Option<Vec<Vec<char>>>)
    ensures
        match try_ampersand_split_spec(name@, string_views(known@)) {
            None => r is None,
            Some(ps) => r matches Some(v) && vec_views(v@) == ps,
        },
{
    let amp = vec![' ', '&', ' '];
    assert(amp@ == amp_delim());
    if find_first(name, &amp).is_none() {
        return None;
    }
    let parts = split_trimmed(name, &amp);
    if parts.len() < 2 {
        return None;
    }
    let mut any_known = false;
    let mut i: usize = 0;
    while i < parts.len()
        invariant
            i <= parts@.len(),
            any_known <==> exists|j: int|
                0 <= j < i && string_views(known@).contains(
                    normalize::normalize_name_spec(#[trigger] vec_views(parts@)[j]),
                ),
        decreases parts.len() - i,
    {
        let ps = chars::string_of(&parts[i]);
        let normalized = normalize::normalize_name_vec(ps.as_str());
        if known_contains(known, &normalized) {
            assert(string_views(known@).contains(
                normalize::normalize_name_spec(vec_views(parts@)[i as int]),
            ));
            any_known = true;
        }
        i += 1;
    }
    if !any_known {
        return None;
    }
    let mut valid: Vec<Vec<char>> = Vec::new();
    let mut k: usize = 0;
    while k < parts.len()
        invariant
            k <= parts@.len(),
            vec_views(valid@) == valid_only(vec_views(parts@).take(k as int)),
        decreases parts.len() - k,
    {
        let ghost pre = vec_views(parts@).take(k as int);
        assert(vec_views(parts@).take(k + 1).drop_last() == pre);
        assert(vec_views(parts@).take(k + 1).last() == parts@[k as int]@);
        if valid_component(&parts[k]) {
            let c = chars::slice_to_vec(&parts[k], 0, parts[k].len());
            proof {
                assert(c@ == parts@[k as int]@);
                assert(vec_views(valid@.push(c)) =~= vec_views(valid@).push(c@));
            }
            valid.push(c);
        }
        k += 1;
    }
    assert(vec_views(parts@).take(parts@.len() as int) =~= vec_views(parts@));
    if valid.len() >= 2 {
        Some(valid)
    } else {
        None
    }
}

/// Deduplicate while preserving order.
fn dedupe(items: &Vec<Vec<char>>) -> (r: Vec<Vec<char>>)
    ensures
        vec_views(r@) == dedupe_spec(vec_views(items@)),
{
    let mut out: Vec<Vec<char>> = Vec::new();
    let mut i: usize = 0;
    while i < items.len()
        invariant
            i <= items@.len(),
            vec_views(out@) == dedupe_spec(vec_views(items@).take(i as int)),
        decreases items.len() - i,
    {
        let ghost pre = vec_views(items@).take(i as int);
        assert(vec_views(items@).take(i + 1).drop_last() == pre);
        assert(vec_views(items@).take(i + 1).last() == items@[i as int]@);
        if !contains_chars(&out, &items[i]) {
            let c = chars::slice_to_vec(&items[i], 0, items[i].len());
            proof {
                assert(c@ == items@[i as int]@);
                assert(vec_views(out@.push(c)) =~= vec_views(out@).push(c@));
            }
            out.push(c);
        }
        i += 1;
    }
    assert(vec_views(items@).take(items@.len() as int) =~= vec_views(items@));
    out
}

/// Context-aware artist name splitting: context-free splits first, then
/// ` & ` splits where at least one part, normalized, is in
/// `known_artists` (a list of normalized artist names).
pub fn split_artist_name_contextual(name: &str, known_artists: &Vec<String>) -> (r: Option<
    Vec<String>,
>)
    ensures
        match split_contextual_spec(name@, string_views(known_artists@)) {
            None => r is None,
            Some(ps) => r matches Some(v) && string_views(v@) == ps,
        },
{
    let v = chars::chars_of(name);
    match split_name_chars(&v) {
        Some(components) => {
            let mut expanded: Vec<Vec<char>> = Vec::new();
            let mut i: usize = 0;
            while i < components.len()
                invariant
                    i <= components@.len(),
                    vec_views(expanded@) == expand_ampersands(
                        vec_views(components@).take(i as int),
                        string_views(known_artists@),
                    ),
                decreases components.len() - i,
            {
                let ghost pre = vec_views(components@).take(i as int);
                assert(vec_views(components@).take(i + 1).drop_last() == pre);
                assert(vec_views(components@).take(i + 1).last() == components@[i as int]@);
                match try_ampersand_split(&components[i], known_artists) {
                    Some(sub) => {
                        let mut k: usize = 0;
                        let ghost base = vec_views(expanded@);
                        while k < sub.len()
                            invariant
                                k <= sub@.len(),
                                vec_views(expanded@) == base + vec_views(sub@).take(k as int),
                            decreases sub.len() - k,
                        {
                            let c = chars::slice_to_vec(&sub[k], 0, sub[k].len());
                            proof {
                                assert(c@ == sub@[k as int]@);
                                assert(vec_views(expanded@.push(c)) =~= vec_views(expanded@).push(
                                    c@,
                                ));
                                assert(vec_views(sub@).take(k + 1) =~= vec_views(sub@).take(
                                    k as int,
                                ).push(c@));
                            }
                            expanded.push(c);
                            k += 1;
                        }
                        assert(vec_views(sub@).take(sub@.len() as int) =~= vec_views(sub@));
                    },
                    None => {
                        let c = chars::slice_to_vec(&components[i], 0, components[i].len());
                        proof {
                            assert(c@ == components@[i as int]@);
                            assert(vec_views(expanded@.push(c)) =~= vec_views(expanded@) + seq![
                                c@,
                            ]);
                        }
                        expanded.push(c);
                    },
                }
                i += 1;
            }
            assert(vec_views(components@).take(components@.len() as int) =~= vec_views(
                components@,
            ));
            let deduped = dedupe(&expanded);
            Some(to_strings(&deduped))
        },
        None => {
            let n = chars::trim_ws_vec(&v);
            match try_ampersand_split(&n, known_artists) {
                Some(ps) => Some(to_strings(&ps)),
                None => None,
            }
        },
    }
}

/// A clean component is trimmed of `White_Space` and meaningful (more
/// than one byte of UTF-8).
pub open spec fn clean_component(c: Seq<char>) -> bool {
    chars::trim_ws(c) == c && valid_component_spec(c)
}

/// Every element of `cs` is clean.
pub open spec fn all_clean(cs: Seq<Seq<char>>) -> bool {
    forall|i: int| 0 <= i < cs.len() ==> clean_component(#[trigger] cs[i])
}

proof fn lemma_push_distinct(prev: Seq<Seq<char>>, t: Seq<char>)
    requires
        prev.no_duplicates(),
        !prev.contains(t),
    ensures
        prev.push(t).no_duplicates(),
{
    let q = prev.push(t);
    assert forall|i: int, j: int| 0 <= i < q.len() && 0 <= j < q.len() && i != j implies q[i] != q[j] by {
        if i == prev.len() {
            assert(q[j] == prev[j]);
        } else if j == prev.len() {
            assert(q[i] == prev[i]);
        } else {
            assert(q[i] == prev[i] && q[j] == prev[j]);
        }
    }
}

proof fn lemma_dedupe_valid_clean(cs: Seq<Seq<char>>)
    ensures
        dedupe_valid_spec(cs).no_duplicates(),
        all_clean(dedupe_valid_spec(cs)),
    decreases cs.len(),
{
    if cs.len() > 0 {
        lemma_dedupe_valid_clean(cs.drop_last());
        let prev = dedupe_valid_spec(cs.drop_last());
        let t = chars::trim_ws(cs.last());
        lemma_trim_ws_idempotent(cs.last());
        if valid_component_spec(t) && !prev.contains(t) {
            lemma_push_distinct(prev, t);
            assert forall|i: int| 0 <= i < prev.push(t).len() implies clean_component(
                #[trigger] prev.push(t)[i],
            ) by {
                if i < prev.len() {
                    assert(prev.push(t)[i] == prev[i]);
                }
            }
        }
    }
}

proof fn lemma_dedupe_distinct_subset(cs: Seq<Seq<char>>)
    ensures
        dedupe_spec(cs).no_duplicates(),
        forall|x: Seq<char>| #[trigger] dedupe_spec(cs).contains(x) ==> cs.contains(x),
    decreases cs.len(),
{
    if cs.len() > 0 {
        lemma_dedupe_distinct_subset(cs.drop_last());
        let prev = dedupe_spec(cs.drop_last());
        if !prev.contains(cs.last()) {
            lemma_push_distinct(prev, cs.last());
        }
        assert forall|x: Seq<char>| #[trigger] dedupe_spec(cs).contains(x) implies cs.contains(x) by {
            let k = choose|k: int| 0 <= k < dedupe_spec(cs).len() && dedupe_spec(cs)[k] == x;
            if k < prev.len() {
                assert(prev[k] == x);
                assert(prev.contains(x));
                let j = choose|j: int| 0 <= j < cs.drop_last().len() && cs.drop_last()[j] == x;
                assert(cs[j] == x);
            } else {
                assert(cs[cs.len() - 1] == x);
            }
        }
    }
}

proof fn lemma_valid_only_clean(ps: Seq<Seq<char>>)
    requires
        forall|i: int| 0 <= i < ps.len() ==> chars::trim_ws(#[trigger] ps[i]) == ps[i],
    ensures
        all_clean(valid_only(ps)),
    decreases ps.len(),
{
    if ps.len() > 0 {
        lemma_valid_only_clean(ps.drop_last());
        let prev = valid_only(ps.drop_last());
        assert(chars::trim_ws(ps[ps.len() - 1]) == ps[ps.len() - 1]);
        if valid_component_spec(ps.last()) {
            assert forall|i: int| 0 <= i < prev.push(ps.last()).len() implies clean_component(
                #[trigger] prev.push(ps.last())[i],
            ) by {
                if i < prev.len() {
                    assert(prev.push(ps.last())[i] == prev[i]);
                }
            }
        }
    }
}

proof fn lemma_ampersand_split_clean(name: Seq<char>, known: Seq<Seq<char>>)
    ensures
        try_ampersand_split_spec(name, known) matches Some(v) ==> all_clean(v),
{
    if contains_seq(name, amp_delim()) {
        let raw = split_on(name, amp_delim());
        let parts = trim_all(raw);
        assert forall|i: int| 0 <= i < parts.len() implies chars::trim_ws(#[trigger] parts[i])
            == parts[i] by {
            lemma_trim_ws_idempotent(raw[i]);
        }
        lemma_valid_only_clean(parts);
    }
}

proof fn lemma_expand_clean(cs: Seq<Seq<char>>, known: Seq<Seq<char>>)
    requires
        all_clean(cs),
    ensures
        all_clean(expand_ampersands(cs, known)),
    decreases cs.len(),
{
    if cs.len() > 0 {
        lemma_expand_clean(cs.drop_last(), known);
        lemma_ampersand_split_clean(cs.last(), known);
        let prev = expand_ampersands(cs.drop_last(), known);
        let tail = match try_ampersand_split_spec(cs.last(), known) {
            Some(sub) => sub,
            None => seq![cs.last()],
        };
        assert(clean_component(cs[cs.len() - 1]));
        assert forall|i: int| 0 <= i < (prev + tail).len() implies clean_component(
            #[trigger] (prev + tail)[i],
        ) by {
            if i < prev.len() {
                assert((prev + tail)[i] == prev[i]);
            } else {
                assert((prev + tail)[i] == tail[i - prev.len()]);
            }
        }
    }
}

/// Splitting filters and deduplicates: every component of a context-free
/// split is trimmed and meaningful, and none appears twice.
pub proof fn lemma_split_components_clean(name: Seq<char>)
    requires
        split_artist_name_spec(name) is Some,
    ensures
        split_artist_name_spec(name)->0.no_duplicates(),
        all_clean(split_artist_name_spec(name)->0),
{
    let n = chars::trim_ws(name);
    let comps = match try_comma_split_spec(n) {
        Some(c) => Some(c),
        None => match try_delimiter_split_spec(n, slash_delim()) {
            Some(c) => Some(c),
            None => try_delimiter_split_spec(n, plus_delim()),
        },
    };
    lemma_dedupe_valid_clean(comps->0);
}

/// Every component of a context-aware split is trimmed and meaningful;
/// when a context-free split applies, none appears twice.
pub proof fn lemma_contextual_components_clean(name: Seq<char>, known: Seq<Seq<char>>)
    requires
        split_contextual_spec(name, known) is Some,
    ensures
        all_clean(split_contextual_spec(name, known)->0),
        split_artist_name_spec(name) is Some ==> split_contextual_spec(name, known)->0.no_duplicates(),
{
    match split_artist_name_spec(name) {
        Some(cs) => {
            lemma_split_components_clean(name);
            lemma_expand_clean(cs, known);
            let e = expand_ampersands(cs, known);
            lemma_dedupe_distinct_subset(e);
            let d = dedupe_spec(e);
            assert forall|i: int| 0 <= i < d.len() implies clean_component(#[trigger] d[i]) by {
                assert(d.contains(d[i]));
                let j = choose|j: int| 0 <= j < e.len() && e[j] == d[i];
            }
        },
        None => {
            lemma_ampersand_split_clean(chars::trim_ws(name), known);
        },
    }
}

/// A context-free split is never empty, needs one of the delimiters
/// `, `, ` / `, ` + ` in the trimmed name, and a blank name gives `None`.
pub proof fn lemma_split_shape(name: Seq<char>)
    ensures
        chars::trim_ws(name).len() == 0 ==> split_artist_name_spec(name) is None,
        split_artist_name_spec(name) matches Some(v) ==> {
            &&& v.len() > 0
            &&& (contains_seq(chars::trim_ws(name), comma_sp()) || contains_seq(
                chars::trim_ws(name),
                slash_delim(),
            ) || contains_seq(chars::trim_ws(name), plus_delim()))
        },
{
}

proof fn lemma_dedupe_identity(cs: Seq<Seq<char>>)
    requires
        cs.no_duplicates(),
    ensures
        dedupe_spec(cs) == cs,
    decreases cs.len(),
{
    if cs.len() > 0 {
        let d = cs.drop_last();
        assert forall|a: int, b: int| 0 <= a < d.len() && 0 <= b < d.len() && a != b implies d[a] != d[b] by {
            assert(d[a] == cs[a] && d[b] == cs[b]);
        }
        lemma_dedupe_identity(d);
        if d.contains(cs.last()) {
            let j = choose|j: int| 0 <= j < d.len() && d[j] == cs.last();
            assert(cs[j] == cs[cs.len() - 1]);
        }
        assert(d.push(cs.last()) =~= cs);
    }
}

proof fn lemma_expand_without_known(cs: Seq<Seq<char>>)
    ensures
        expand_ampersands(cs, Seq::<Seq<char>>::empty()) == cs,
    decreases cs.len(),
{
    if cs.len() > 0 {
        lemma_expand_without_known(cs.drop_last());
        assert(try_ampersand_split_spec(cs.last(), Seq::<Seq<char>>::empty()) is None);
        assert(cs.drop_last() + seq![cs.last()] =~= cs);
    }
}

/// With no known artists the context-aware split is the context-free one,
/// and whenever the context-free split applies so does the context-aware
/// one.
pub proof fn lemma_contextual_extends_plain(name: Seq<char>, known: Seq<Seq<char>>)
    ensures
        split_contextual_spec(name, Seq::<Seq<char>>::empty()) == split_artist_name_spec(name),
        split_artist_name_spec(name) is Some ==> split_contextual_spec(name, known) is Some,
{
    match split_artist_name_spec(name) {
        Some(cs) => {
            lemma_split_components_clean(name);
            lemma_expand_without_known(cs);
            lemma_dedupe_identity(cs);
        },
        None => {
            assert(try_ampersand_split_spec(chars::trim_ws(name), Seq::<Seq<char>>::empty()) is None);
        },
    }
}

/// A meaningful trimmed component of the list survives deduplication.
proof fn lemma_dedupe_valid_keeps(cs: Seq<Seq<char>>, i: int)
    requires
        0 <= i < cs.len(),
        valid_component_spec(chars::trim_ws(cs[i])),
    ensures
        dedupe_valid_spec(cs).contains(chars::trim_ws(cs[i])),
    decreases cs.len(),
{
    let prev = dedupe_valid_spec(cs.drop_last());
    let t = chars::trim_ws(cs.last());
    if i == cs.len() - 1 {
        if valid_component_spec(t) && !prev.contains(t) {
            assert(prev.push(t)[prev.len() as int] == t);
        }
    } else {
        assert(cs.drop_last()[i] == cs[i]);
        lemma_dedupe_valid_keeps(cs.drop_last(), i);
        let x = chars::trim_ws(cs[i]);
        if valid_component_spec(t) && !prev.contains(t) {
            let j = choose|j: int| 0 <= j < prev.len() && prev[j] == x;
            assert(prev.push(t)[j] == x);
        }
    }
}

/// A trailing `and` in a comma-separated credit is dropped, and only
/// that: when the trimmed name splits on `, ` into at least two parts,
/// none of them numeric, the comma split is those parts, except that a
/// last part starting with `and `, `And ` or `AND ` is replaced by the rest
/// of it, trimmed. When that rest is meaningful the credit splits into a
/// list that holds it ("Emerson, Lake, And Palmer" gives "Palmer", not
/// "And Palmer").
pub proof fn lemma_trailing_and_dropped(name: Seq<char>)
    requires
        trim_all(split_on(chars::trim_ws(name), comma_sp())).len() >= 2,
        forall|i: int|
            0 <= i < trim_all(split_on(chars::trim_ws(name), comma_sp())).len() ==> !is_numeric_spec(
                chars::trim_ws(#[trigger] trim_all(split_on(chars::trim_ws(name), comma_sp()))[i]),
            ),
    ensures
        seq!['a', 'n', 'd', ' '].is_prefix_of(trim_all(split_on(chars::trim_ws(name), comma_sp())).last())
            || seq!['A', 'n', 'd', ' '].is_prefix_of(
            trim_all(split_on(chars::trim_ws(name), comma_sp())).last(),
        ) || seq!['A', 'N', 'D', ' '].is_prefix_of(
            trim_all(split_on(chars::trim_ws(name), comma_sp())).last(),
        ) ==> {
            &&& try_comma_split_spec(chars::trim_ws(name)) == Some(
                trim_all(split_on(chars::trim_ws(name), comma_sp())).update(
                    trim_all(split_on(chars::trim_ws(name), comma_sp())).len() - 1,
                    chars::trim_ws(trim_all(split_on(chars::trim_ws(name), comma_sp())).last().skip(4)),
                ),
            )
            &&& valid_component_spec(
                chars::trim_ws(trim_all(split_on(chars::trim_ws(name), comma_sp())).last().skip(4)),
            ) ==> (split_artist_name_spec(name) matches Some(r) && r.contains(
                chars::trim_ws(trim_all(split_on(chars::trim_ws(name), comma_sp())).last().skip(4)),
            ))
        },
        !(seq!['a', 'n', 'd', ' '].is_prefix_of(trim_all(split_on(chars::trim_ws(name), comma_sp())).last())
            || seq!['A', 'n', 'd', ' '].is_prefix_of(
            trim_all(split_on(chars::trim_ws(name), comma_sp())).last(),
        ) || seq!['A', 'N', 'D', ' '].is_prefix_of(
            trim_all(split_on(chars::trim_ws(name), comma_sp())).last(),
        )) ==> try_comma_split_spec(chars::trim_ws(name)) == Some(
            trim_all(split_on(chars::trim_ws(name), comma_sp())),
        ),
{
    let n = chars::trim_ws(name);
    let raw = split_on(n, comma_sp());
    let parts = trim_all(raw);
    let last = parts.last();
    let rest = chars::trim_ws(last.skip(4));
    assert(contains_seq(n, comma_sp())) by {
        if find_from(n, comma_sp(), 0) is None {
            assert(raw == seq![n]);
        }
    }
    lemma_trim_ws_idempotent(raw[raw.len() - 1]);
    assert(chars::trim_ws(last) == last);
    assert(!(exists|i: int| 0 <= i < parts.len() && is_numeric_spec(chars::trim_ws(#[trigger] parts[i]))));
    if seq!['a', 'n', 'd', ' '].is_prefix_of(last) || seq!['A', 'n', 'd', ' '].is_prefix_of(last)
        || seq!['A', 'N', 'D', ' '].is_prefix_of(last) {
        assert(and_prefix_len(last) == Some(4int));
        let c = parts.update(parts.len() - 1, rest);
        assert(split_trailing_and_spec(parts) == c);
        assert(try_comma_split_spec(n) == Some(c));
        if valid_component_spec(rest) {
            lemma_trim_ws_idempotent(last.skip(4));
            assert(c[c.len() - 1] == rest);
            lemma_dedupe_valid_keeps(c, c.len() - 1);
            assert(n.len() > 0) by {
                if n.len() == 0 {
                    assert(find_from(n, comma_sp(), 0) is None);
                }
            }
        }
    } else {
        assert(and_prefix_len(last) is None);
        assert(split_trailing_and_spec(parts) == parts);
    }
}

/// `x` occurs in `s` as a contiguous run of characters.
pub open spec fn is_substring(x: Seq<char>, s: Seq<char>) -> bool {
    exists|i: int, j: int| 0 <= i <= j <= s.len() && #[trigger] s.subrange(i, j) == x
}

/// Every element of `ps` occurs in `s`.
pub open spec fn all_substrings(ps: Seq<Seq<char>>, s: Seq<char>) -> bool {
    forall|k: int| 0 <= k < ps.len() ==> is_substring(#[trigger] ps[k], s)
}

proof fn lemma_substring_trans(x: Seq<char>, y: Seq<char>, z: Seq<char>)
    requires
        is_substring(x, y),
        is_substring(y, z),
    ensures
        is_substring(x, z),
{
    let (i, j) = choose|i: int, j: int| 0 <= i <= j <= y.len() && #[trigger] y.subrange(i, j) == x;
    let (a, b) = choose|a: int, b: int| 0 <= a <= b <= z.len() && #[trigger] z.subrange(a, b) == y;
    assert(z.subrange(a + i, a + j) =~= x);
}

proof fn lemma_substring_range(s: Seq<char>, i: int, j: int)
    requires
        0 <= i <= j <= s.len(),
    ensures
        is_substring(s.subrange(i, j), s),
{
}

proof fn lemma_trim_substring(s: Seq<char>)
    ensures
        is_substring(chars::trim_ws(s), s),
{
    let p = |c: char| chars::is_white_space(c);
    chars::lemma_leading_count_bound(s, p);
    let a = chars::trim_start_by(s, p);
    chars::lemma_trailing_count_bound(a, p);
    let l = chars::leading_count(s, p) as int;
    let m = a.len() - chars::trailing_count(a, p);
    assert(chars::trim_ws(s) =~= s.subrange(l, l + m));
    lemma_substring_range(s, l, l + m);
}

proof fn lemma_split_on_substrings(s: Seq<char>, d: Seq<char>)
    ensures
        all_substrings(split_on(s, d), s),
    decreases s.len(),
{
    if d.len() == 0 {
        assert(s.subrange(0, s.len() as int) =~= s);
        assert(split_on(s, d)[0] == s);
    } else {
        match find_from(s, d, 0) {
            None => {
                assert(s.subrange(0, s.len() as int) =~= s);
                assert(split_on(s, d)[0] == s);
            },
            Some(k) => {
                lemma_find_from_bounds(s, d, 0);
                let rest = s.skip(k + d.len());
                lemma_split_on_substrings(rest, d);
                let ps = split_on(s, d);
                assert(ps == seq![s.take(k)] + split_on(rest, d));
                assert forall|m: int| 0 <= m < ps.len() implies is_substring(#[trigger] ps[m], s) by {
                    if m == 0 {
                        assert(s.take(k) =~= s.subrange(0, k));
                        lemma_substring_range(s, 0, k);
                    } else {
                        assert(ps[m] == split_on(rest, d)[m - 1]);
                        assert(rest =~= s.subrange(k + d.len(), s.len() as int));
                        lemma_substring_range(s, k + d.len(), s.len() as int);
                        lemma_substring_trans(ps[m], rest, s);
                    }
                }
            },
        }
    }
}

proof fn lemma_trim_all_substrings(ps: Seq<Seq<char>>, s: Seq<char>)
    requires
        all_substrings(ps, s),
    ensures
        all_substrings(trim_all(ps), s),
{
    assert forall|k: int| 0 <= k < trim_all(ps).len() implies is_substring(#[trigger] trim_all(ps)[k], s) by {
        lemma_trim_substring(ps[k]);
        lemma_substring_trans(trim_all(ps)[k], ps[k], s);
    }
}

proof fn lemma_trailing_and_substrings(ps: Seq<Seq<char>>, s: Seq<char>)
    requires
        all_substrings(ps, s),
    ensures
        all_substrings(split_trailing_and_spec(ps), s),
{
    if ps.len() >= 2 {
        let last = chars::trim_ws(ps.last());
        match and_prefix_len(last) {
            Some(k) => {
                let q = split_trailing_and_spec(ps);
                lemma_trim_substring(ps.last());
                assert(is_substring(ps[ps.len() - 1], s));
                lemma_substring_trans(last, ps.last(), s);
                assert(last.len() >= 4) by {
                    assert(seq!['a', 'n', 'd', ' '].is_prefix_of(last) || seq!['A', 'n', 'd', ' '].is_prefix_of(last)
                        || seq!['A', 'N', 'D', ' '].is_prefix_of(last));
                }
                assert(last.skip(k) =~= last.subrange(k, last.len() as int));
                lemma_substring_range(last, k, last.len() as int);
                lemma_trim_substring(last.skip(k));
                lemma_substring_trans(chars::trim_ws(last.skip(k)), last.skip(k), last);
                lemma_substring_trans(chars::trim_ws(last.skip(k)), last, s);
                assert forall|m: int| 0 <= m < q.len() implies is_substring(#[trigger] q[m], s) by {
                    if m < ps.len() - 1 {
                        assert(q[m] == ps[m]);
                    }
                }
            },
            None => {},
        }
    }
}

proof fn lemma_dedupe_valid_substrings(cs: Seq<Seq<char>>, s: Seq<char>)
    requires
        all_substrings(cs, s),
    ensures
        all_substrings(dedupe_valid_spec(cs), s),
    decreases cs.len(),
{
    if cs.len() > 0 {
        let d = cs.drop_last();
        assert forall|k: int| 0 <= k < d.len() implies is_substring(#[trigger] d[k], s) by {
            assert(d[k] == cs[k]);
        }
        lemma_dedupe_valid_substrings(d, s);
        let prev = dedupe_valid_spec(d);
        let t = chars::trim_ws(cs.last());
        lemma_trim_substring(cs.last());
        assert(is_substring(cs[cs.len() - 1], s));
        lemma_substring_trans(t, cs.last(), s);
        if valid_component_spec(t) && !prev.contains(t) {
            assert forall|k: int| 0 <= k < prev.push(t).len() implies is_substring(
                #[trigger] prev.push(t)[k],
                s,
            ) by {
                if k < prev.len() {
                    assert(prev.push(t)[k] == prev[k]);
                }
            }
        }
    }
}

/// Every component of a context-free split occurs in the name as a
/// contiguous run of characters.
pub proof fn lemma_split_components_in_name(name: Seq<char>)
    ensures
        split_artist_name_spec(name) matches Some(v) ==> all_substrings(v, name),
{
    let n = chars::trim_ws(name);
    lemma_trim_substring(name);
    if n.len() > 0 {
        let comma = try_comma_split_spec(n);
        let slash = try_delimiter_split_spec(n, slash_delim());
        let plus = try_delimiter_split_spec(n, plus_delim());
        lemma_split_on_substrings(n, comma_sp());
        lemma_trim_all_substrings(split_on(n, comma_sp()), n);
        lemma_trailing_and_substrings(trim_all(split_on(n, comma_sp())), n);
        lemma_split_on_substrings(n, slash_delim());
        lemma_trim_all_substrings(split_on(n, slash_delim()), n);
        lemma_split_on_substrings(n, plus_delim());
        lemma_trim_all_substrings(split_on(n, plus_delim()), n);
        let comps = match comma {
            Some(c) => Some(c),
            None => match slash {
                Some(c) => Some(c),
                None => plus,
            },
        };
        if comps is Some {
            let c = comps->0;
            assert(all_substrings(c, n));
            lemma_dedupe_valid_substrings(c, n);
            let r = dedupe_valid_spec(c);
            assert forall|k: int| 0 <= k < r.len() implies is_substring(#[trigger] r[k], name) by {
                lemma_substring_trans(r[k], n, name);
            }
        }
    }
}

} // verus!
