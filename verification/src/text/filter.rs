//! Set-based artist and title filtering over normalized names.

use std::collections::HashMap;

use vstd::prelude::*;
use vstd::hash_set::StringHashSet;

use super::chars;
use super::normalize;
use super::split;

verus! {

broadcast use vstd::std_specs::hash::group_hash_axioms;

/// The decimal value of a sequence of ASCII digits.
pub open spec fn digits_value(d: Seq<char>) -> int
    decreases d.len(),
{
    if d.len() == 0 {
        0
    } else {
        digits_value(d.drop_last()) * 10 + (d.last() as int - '0' as int)
    }
}

/// Every character is an ASCII digit.
pub open spec fn all_digits(d: Seq<char>) -> bool {
    forall|i: int| 0 <= i < d.len() ==> '0' <= #[trigger] d[i] && d[i] <= '9'
}

/// What `str::parse::<u64>` gives: an optional leading `+`, then one or
/// more ASCII digits whose value fits in `u64`; anything else fails.
pub open spec fn parse_u64_spec(s: Seq<char>) -> Option<u64> {
    let d = if s.len() > 0 && s[0] == '+' {
        s.drop_first()
    } else {
        s
    };
    if d.len() > 0 && all_digits(d) && digits_value(d) <= u64::MAX {
        Some(digits_value(d) as u64)
    } else {
        None
    }
}

proof fn lemma_digits_value_monotone(d: Seq<char>, k: int)
    requires
        all_digits(d),
        0 <= k <= d.len(),
    ensures
        0 <= digits_value(d.take(k)) <= digits_value(d),
    decreases d.len() - k,
{
    if k < d.len() {
        lemma_digits_value_monotone(d, k + 1);
        assert(d.take(k + 1).drop_last() == d.take(k));
        assert(d.take(k + 1).last() == d[k]);
    } else {
        assert(d.take(k) == d);
        lemma_digits_value_nonneg(d);
    }
}

proof fn lemma_digits_value_nonneg(d: Seq<char>)
    requires
        all_digits(d),
    ensures
        digits_value(d) >= 0,
    decreases d.len(),
{
    if d.len() > 0 {
        assert(all_digits(d.drop_last())) by {
            assert forall|i: int| 0 <= i < d.drop_last().len() implies '0' <= #[trigger] d.drop_last()[i]
                && d.drop_last()[i] <= '9' by {
                assert(d.drop_last()[i] == d[i]);
            }
        }
        lemma_digits_value_nonneg(d.drop_last());
        assert('0' <= d[d.len() - 1]);
    }
}

/// Parse a field as `str::parse::<u64>` does (see [`parse_u64_spec`]).
pub fn parse_u64(s: &str) -> (r: Option<u64>)
    ensures
        r == parse_u64_spec(s@),
{
    let v = chars::chars_of(s);
    let start: usize = if v.len() > 0 && v[0] == '+' {
        1
    } else {
        0
    };
    let ghost d = if s@.len() > 0 && s@[0] == '+' {
        s@.drop_first()
    } else {
        s@
    };
    assert(d == v@.skip(start as int));
    if start == v.len() {
        return None;
    }
    let mut acc: u64 = 0;
    let mut i: usize = start;
    let mut overflow = false;
    while i < v.len()
        invariant
            start <= i <= v@.len(),
            start < v@.len(),
            d == v@.skip(start as int),
            d == (if s@.len() > 0 && s@[0] == '+' {
                s@.drop_first()
            } else {
                s@
            }),
            forall|j: int| start <= j < i ==> '0' <= #[trigger] v@[j] && v@[j] <= '9',
            !overflow ==> acc == digits_value(d.take(i - start)),
            overflow ==> all_digits(d.take(i - start)) ==> digits_value(d.take(i - start)) > u64::MAX,
        decreases v.len() - i,
    {
        let c = v[i];
        if !('0' <= c && c <= '9') {
            proof {
                assert(d[i - start] == c);
                assert(!('0' <= d[i - start] && d[i - start] <= '9'));
                assert(!all_digits(d));
            }
            return None;
        }
        let digit = (c as u32 - '0' as u32) as u64;
        proof {
            assert(d.take(i - start + 1).drop_last() == d.take(i - start));
            assert(d.take(i - start + 1).last() == c);
            assert(d[i - start] == v@[i as int]);
        }
        if !overflow {
            match acc.checked_mul(10) {
                None => {
                    overflow = true;
                },
                Some(m) => match m.checked_add(digit) {
                    None => {
                        overflow = true;
                    },
                    Some(n) => {
                        acc = n;
                    },
                },
            }
        } else {
            proof {
                let t = d.take(i - start + 1);
                if all_digits(t) {
                    assert(all_digits(t.drop_last())) by {
                        assert forall|j: int| 0 <= j < t.drop_last().len() implies '0'
                            <= #[trigger] t.drop_last()[j] && t.drop_last()[j] <= '9' by {
                            assert(t.drop_last()[j] == t[j]);
                        }
                    }
                }
            }
        }
        i += 1;
    }
    proof {
        assert(d.take(v@.len() - start) == d);
        assert(all_digits(d)) by {
            assert forall|j: int| 0 <= j < d.len() implies '0' <= #[trigger] d[j] && d[j] <= '9' by {
                assert(d[j] == v@[j + start]);
            }
        }
    }
    if overflow {
        None
    } else {
        Some(acc)
    }
}

/// Position of the last `[` in `s`.
pub open spec fn last_open_bracket(s: Seq<char>) -> Option<int>
    decreases s.len(),
{
    if s.len() == 0 {
        None
    } else if s.last() == '[' {
        Some(s.len() - 1)
    } else {
        last_open_bracket(s.drop_last())
    }
}

/// A title matches when its normalized form is in `titles`, or when the
/// normalized form with its last `[...]` suffix (and the whitespace before
/// it) removed is non-empty and in `titles`.
pub open spec fn title_matches_spec(titles: Set<Seq<char>>, title: Seq<char>) -> bool {
    let n = normalize::normalize_name_spec(title);
    titles.contains(n) || match last_open_bracket(n) {
        Some(p) => {
            let st = chars::trim_end_ws(n.take(p));
            st.len() > 0 && titles.contains(st)
        },
        None => false,
    }
}

/// Distinct normalized names built from lines: blank-after-trim lines are
/// skipped, the rest trimmed of `White_Space` and normalized.
pub open spec fn normalized_lines(lines: Seq<Seq<char>>) -> Seq<Seq<char>>
    decreases lines.len(),
{
    if lines.len() == 0 {
        seq![]
    } else {
        let prev = normalized_lines(lines.drop_last());
        let t = chars::trim_ws(lines.last());
        if t.len() == 0 {
            prev
        } else {
            let n = normalize::normalize_name_spec(t);
            if prev.contains(n) {
                prev
            } else {
                prev.push(n)
            }
        }
    }
}

/// A line without its trailing carriage return, if any.
pub open spec fn strip_cr(l: Seq<char>) -> Seq<char> {
    if l.len() > 0 && l.last() == '\r' {
        l.drop_last()
    } else {
        l
    }
}

/// `str::lines`: the pieces between newlines, without a final empty piece
/// (so a trailing newline ends the last line rather than starting one), each
/// stripped of a trailing carriage return.
pub open spec fn lines_spec(s: Seq<char>) -> Seq<Seq<char>> {
    let parts = split::split_on(s, seq!['\n']);
    let kept = if parts.len() > 0 && parts.last().len() == 0 {
        parts.drop_last()
    } else {
        parts
    };
    kept.map_values(|l: Seq<char>| strip_cr(l))
}

/// The lines of a text (`str::lines`).
pub fn text_lines(content: &str) -> (r: Vec<String>)
    ensures
        split::string_views(r@) == lines_spec(content@),
{
    let v = chars::chars_of(content);
    let nl: [char; 1] = ['\n'];
    assert(nl@ == seq!['\n']);
    let parts = split::split_chars(&v, &nl);
    let ghost ps = split::vec_views(parts@);
    let mut n = parts.len();
    if n > 0 && parts[n - 1].len() == 0 {
        n = n - 1;
    }
    let ghost kept = ps.take(n as int);
    assert(kept == if ps.len() > 0 && ps.last().len() == 0 {
        ps.drop_last()
    } else {
        ps
    });
    let mut out: Vec<String> = Vec::new();
    let mut i: usize = 0;
    while i < n
        invariant
            i <= n <= parts@.len(),
            ps == split::vec_views(parts@),
            kept == ps.take(n as int),
            split::string_views(out@) == kept.map_values(|l: Seq<char>| strip_cr(l)).take(i as int),
        decreases n - i,
    {
        let line = &parts[i];
        let len = line.len();
        let end = if len > 0 && line[len - 1] == '\r' {
            len - 1
        } else {
            len
        };
        let piece = chars::slice_to_vec(line, 0, end);
        proof {
            assert(ps[i as int] == line@);
            assert(piece@ == strip_cr(line@));
        }
        let ghost before = split::string_views(out@);
        out.push(chars::string_of(&piece));
        assert(split::string_views(out@) =~= before.push(strip_cr(kept[i as int])));
        assert(kept.map_values(|l: Seq<char>| strip_cr(l)).take(i + 1) =~= kept.map_values(
            |l: Seq<char>| strip_cr(l),
        ).take(i as int).push(strip_cr(kept[i as int])));
        i += 1;
    }
    assert(kept.map_values(|l: Seq<char>| strip_cr(l)).take(n as int) == kept.map_values(
        |l: Seq<char>| strip_cr(l),
    ));
    out
}

/// Title filter backed by the set of normalized titles.
pub struct TitleFilter {
    titles: StringHashSet,
}

impl TitleFilter {
    /// The normalized titles.
    pub closed spec fn titles_view(&self) -> Set<Seq<char>> {
        self.titles@
    }

    /// Build a filter from lines of text (one title per line).
    pub fn from_lines(lines: &[String]) -> (r: Self)
        ensures
            r.titles_view() == normalized_lines(split::string_views(lines@)).to_set(),
            r.titles_view().len() == normalized_lines(split::string_views(lines@)).len(),
    {
        let titles = string_set_of(normalized_distinct(lines));
        TitleFilter { titles }
    }

    /// Build a filter from the text of a title list (one title per line).
    pub fn from_text(content: &str) -> (r: Self)
        ensures
            r.titles_view() == normalized_lines(lines_spec(content@)).to_set(),
            r.titles_view().len() == normalized_lines(lines_spec(content@)).len(),
    {
        let lines = text_lines(content);
        Self::from_lines(&lines)
    }

    /// Check if a release title matches any title in the filter; a
    /// trailing `[...]` suffix is also tried stripped.
    pub fn matches(&self, title: &str) -> (r: bool)
        ensures
            r == title_matches_spec(self.titles_view(), title@),
    {
        let n = normalize::normalize_name_vec(title);
        if set_contains(&self.titles, &n) {
            return true;
        }
        match last_bracket(&n) {
            Some(p) => {
                let head = chars::slice_to_vec(&n, 0, p);
                assert(head@ == n@.take(p as int));
                let stripped = chars::trim_end_ws_vec(&head);
                stripped.len() > 0 && set_contains(&self.titles, &stripped)
            },
            None => false,
        }
    }

    /// Number of titles in the filter set.
    pub fn len(&self) -> (r: usize)
        ensures
            r == self.titles_view().len(),
    {
        self.titles.len()
    }

    /// Whether the filter set is empty.
    pub fn is_empty(&self) -> (r: bool)
        ensures
            r == (self.titles_view().len() == 0),
    {
        self.titles.len() == 0
    }
}

/// Position of the last `[` in `v`.
fn last_bracket(v: &[char]) -> (r: Option<usize>)
    ensures
        match r {
            None => last_open_bracket(v@) is None,
            Some(p) => p < v@.len() && last_open_bracket(v@) == Some(p as int),
        },
{
    let mut j: usize = v.len();
    assert(v@.take(v@.len() as int) == v@);
    while j > 0
        invariant
            j <= v@.len(),
            last_open_bracket(v@) == last_open_bracket(v@.take(j as int)),
        decreases j,
    {
        assert(v@.take(j as int).drop_last() == v@.take(j - 1));
        if v[j - 1] == '[' {
            return Some(j - 1);
        }
        j -= 1;
    }
    None
}

/// Whether `v` holds a string with the characters `t`.
fn contains_string(v: &Vec<String>, t: &[char]) -> (r: bool)
    ensures
        r == split::string_views(v@).contains(t@),
{
    let mut i: usize = 0;
    while i < v.len()
        invariant
            i <= v@.len(),
            forall|j: int| 0 <= j < i ==> v@[j]@ != t@,
        decreases v.len() - i,
    {
        let c = chars::chars_of(v[i].as_str());
        if chars::chars_eq(&c, t) {
            assert(split::string_views(v@)[i as int] == t@);
            return true;
        }
        i += 1;
    }
    assert(!split::string_views(v@).contains(t@)) by {
        if split::string_views(v@).contains(t@) {
            let j = choose|j: int|
                0 <= j < split::string_views(v@).len() && split::string_views(v@)[j] == t@;
            assert(v@[j]@ == t@);
        }
    }
    false
}

/// Whether the set holds the characters of `t`.
fn set_contains(set: &StringHashSet, t: &[char]) -> (r: bool)
    ensures
        r == set@.contains(t@),
{
    let s = chars::string_of(t);
    set.contains(s.as_str())
}

/// The set of the given distinct strings.
fn string_set_of(v: Vec<String>) -> (r: StringHashSet)
    requires
        split::string_views(v@).no_duplicates(),
    ensures
        r@ == split::string_views(v@).to_set(),
        r@.len() == v@.len(),
{
    let mut set = StringHashSet::new();
    let ghost w = split::string_views(v@);
    let mut i: usize = 0;
    while i < v.len()
        invariant
            i <= v@.len(),
            w == split::string_views(v@),
            set@ == w.take(i as int).to_set(),
        decreases v.len() - i,
    {
        set.insert(v[i].clone());
        proof {
            assert(w.take(i + 1) == w.take(i as int).push(w[i as int]));
            w.take(i as int).lemma_push_to_set_commute(w[i as int]);
        }
        i += 1;
    }
    proof {
        assert(w.take(v@.len() as int) == w);
        w.unique_seq_to_set();
    }
    set
}

/// Distinct normalized names of the non-blank lines.
fn normalized_distinct(lines: &[String]) -> (r: Vec<String>)
    ensures
        split::string_views(r@) == normalized_lines(split::string_views(lines@)),
        split::string_views(r@).no_duplicates(),
{
    let mut out: Vec<String> = Vec::new();
    let mut i: usize = 0;
    while i < lines.len()
        invariant
            i <= lines@.len(),
            split::string_views(out@) == normalized_lines(split::string_views(lines@).take(i as int)),
            split::string_views(out@).no_duplicates(),
        decreases lines.len() - i,
    {
        let ghost pre = split::string_views(lines@).take(i as int);
        assert(split::string_views(lines@).take(i + 1).drop_last() == pre);
        assert(split::string_views(lines@).take(i + 1).last() == lines@[i as int]@);
        let v = chars::chars_of(lines[i].as_str());
        let t = chars::trim_ws_vec(&v);
        if t.len() > 0 {
            let ts = chars::string_of(&t);
            let n = normalize::normalize_name_vec(ts.as_str());
            if !contains_string(&out, &n) {
                let ns = chars::string_of(&n);
                proof {
                    assert(split::string_views(out@.push(ns)) =~= split::string_views(out@).push(
                        n@,
                    ));
                    let w = split::string_views(out@).push(n@);
                    assert forall|a: int, b: int|
                        0 <= a < w.len() && 0 <= b < w.len() && a != b implies w[a] != w[b] by {
                        if a < w.len() - 1 && b < w.len() - 1 {
                            assert(w[a] == split::string_views(out@)[a]);
                            assert(w[b] == split::string_views(out@)[b]);
                        } else if a == w.len() - 1 {
                            assert(w[b] == split::string_views(out@)[b]);
                        } else {
                            assert(w[a] == split::string_views(out@)[a]);
                        }
                    }
                }
                out.push(ns);
            }
        }
        i += 1;
    }
    assert(split::string_views(lines@).take(lines@.len() as int) =~= split::string_views(lines@));
    out
}

/// Whether some name, normalized, is in `artists`.
pub open spec fn matches_any_spec(artists: Set<Seq<char>>, names: Seq<Seq<char>>) -> bool {
    exists|i: int| 0 <= i < names.len() && artists.contains(normalize::normalize_name_spec(#[trigger] names[i]))
}

/// The alias names recorded for `id` (empty when none).
pub open spec fn aliases_for(aliases: Map<u64, Seq<Seq<char>>>, id: u64) -> Seq<Seq<char>> {
    if aliases.contains_key(id) {
        aliases[id]
    } else {
        seq![]
    }
}

/// Some pair's name, normalized, is in `artists`, or some alias recorded
/// for its id is.
pub open spec fn matches_with_ids_spec(
    artists: Set<Seq<char>>,
    aliases: Map<u64, Seq<Seq<char>>>,
    pairs: Seq<(u64, Seq<char>)>,
) -> bool {
    exists|i: int|
        0 <= i < pairs.len() && (artists.contains(normalize::normalize_name_spec((#[trigger] pairs[i]).1))
            || exists|k: int|
            0 <= k < aliases_for(aliases, pairs[i].0).len() && artists.contains(
                #[trigger] aliases_for(aliases, pairs[i].0)[k],
            ))
}

/// A list of credited `(id, name)` pairs matches exactly when one of its
/// pairs, at any position, matches on its own: no pair matches nothing,
/// a single pair matches when its normalized name is in the artist set or
/// an alias recorded for its id is, and a list made of two parts matches
/// when either part does.
pub proof fn lemma_matches_with_ids_any_pair(
    artists: Set<Seq<char>>,
    aliases: Map<u64, Seq<Seq<char>>>,
    ps: Seq<(u64, Seq<char>)>,
    qs: Seq<(u64, Seq<char>)>,
    id: u64,
    name: Seq<char>,
)
    ensures
        !matches_with_ids_spec(artists, aliases, Seq::<(u64, Seq<char>)>::empty()),
        matches_with_ids_spec(artists, aliases, seq![(id, name)]) == (artists.contains(
            normalize::normalize_name_spec(name),
        ) || exists|k: int|
            0 <= k < aliases_for(aliases, id).len() && artists.contains(
                #[trigger] aliases_for(aliases, id)[k],
            )),
        matches_with_ids_spec(artists, aliases, ps + qs) == (matches_with_ids_spec(artists, aliases, ps)
            || matches_with_ids_spec(artists, aliases, qs)),
        forall|i: int|
            0 <= i < ps.len() && matches_with_ids_spec(artists, aliases, seq![#[trigger] ps[i]])
                ==> matches_with_ids_spec(artists, aliases, ps),
{
    let one = seq![(id, name)];
    if artists.contains(normalize::normalize_name_spec(name)) || exists|k: int|
        0 <= k < aliases_for(aliases, id).len() && artists.contains(#[trigger] aliases_for(aliases, id)[k]) {
        assert(one[0] == (id, name));
        if !artists.contains(normalize::normalize_name_spec(name)) {
            let k = choose|k: int|
                0 <= k < aliases_for(aliases, id).len() && artists.contains(
                    #[trigger] aliases_for(aliases, id)[k],
                );
            assert(aliases_for(aliases, one[0].0)[k] == aliases_for(aliases, id)[k]);
        }
        assert(matches_with_ids_spec(artists, aliases, one));
    }
    if matches_with_ids_spec(artists, aliases, one) {
        let i = choose|i: int|
            0 <= i < one.len() && (artists.contains(normalize::normalize_name_spec((#[trigger] one[i]).1))
                || exists|k: int|
                0 <= k < aliases_for(aliases, one[i].0).len() && artists.contains(
                    #[trigger] aliases_for(aliases, one[i].0)[k],
                ));
        assert(i == 0 && one[i] == (id, name));
        if !artists.contains(normalize::normalize_name_spec(name)) {
            let k = choose|k: int|
                0 <= k < aliases_for(aliases, one[i].0).len() && artists.contains(
                    #[trigger] aliases_for(aliases, one[i].0)[k],
                );
            assert(aliases_for(aliases, id)[k] == aliases_for(aliases, one[i].0)[k]);
        }
    }
    let all = ps + qs;
    if matches_with_ids_spec(artists, aliases, all) {
        let i = choose|i: int|
            0 <= i < all.len() && (artists.contains(normalize::normalize_name_spec((#[trigger] all[i]).1))
                || exists|k: int|
                0 <= k < aliases_for(aliases, all[i].0).len() && artists.contains(
                    #[trigger] aliases_for(aliases, all[i].0)[k],
                ));
        if i < ps.len() {
            assert(all[i] == ps[i]);
        } else {
            assert(all[i] == qs[i - ps.len()]);
        }
    }
    if matches_with_ids_spec(artists, aliases, ps) {
        let i = choose|i: int|
            0 <= i < ps.len() && (artists.contains(normalize::normalize_name_spec((#[trigger] ps[i]).1))
                || exists|k: int|
                0 <= k < aliases_for(aliases, ps[i].0).len() && artists.contains(
                    #[trigger] aliases_for(aliases, ps[i].0)[k],
                ));
        assert(all[i] == ps[i]);
    }
    if matches_with_ids_spec(artists, aliases, qs) {
        let i = choose|i: int|
            0 <= i < qs.len() && (artists.contains(normalize::normalize_name_spec((#[trigger] qs[i]).1))
                || exists|k: int|
                0 <= k < aliases_for(aliases, qs[i].0).len() && artists.contains(
                    #[trigger] aliases_for(aliases, qs[i].0)[k],
                ));
        assert(all[ps.len() + i] == qs[i]);
    }
    assert forall|i: int|
        0 <= i < ps.len() && matches_with_ids_spec(artists, aliases, seq![#[trigger] ps[i]])
            implies matches_with_ids_spec(artists, aliases, ps) by {
        let s1 = seq![ps[i]];
        let j = choose|j: int|
            0 <= j < s1.len() && (artists.contains(normalize::normalize_name_spec((#[trigger] s1[j]).1))
                || exists|k: int|
                0 <= k < aliases_for(aliases, s1[j].0).len() && artists.contains(
                    #[trigger] aliases_for(aliases, s1[j].0)[k],
                ));
        assert(s1[j] == ps[i]);
    }
}

/// A list of names matches exactly when one of its names, at any
/// position, matches on its own: a single name matches when its
/// normalized form is in the artist set, and a list made of two parts
/// matches when either part does.
pub proof fn lemma_matches_any_any_name(
    artists: Set<Seq<char>>,
    ns: Seq<Seq<char>>,
    ms: Seq<Seq<char>>,
    name: Seq<char>,
)
    ensures
        !matches_any_spec(artists, Seq::<Seq<char>>::empty()),
        matches_any_spec(artists, seq![name]) == artists.contains(normalize::normalize_name_spec(name)),
        matches_any_spec(artists, ns + ms) == (matches_any_spec(artists, ns) || matches_any_spec(artists, ms)),
{
    let one = seq![name];
    if artists.contains(normalize::normalize_name_spec(name)) {
        assert(one[0] == name);
    }
    let all = ns + ms;
    if matches_any_spec(artists, all) {
        let i = choose|i: int| 0 <= i < all.len() && artists.contains(normalize::normalize_name_spec(#[trigger] all[i]));
        if i < ns.len() {
            assert(all[i] == ns[i]);
        } else {
            assert(all[i] == ms[i - ns.len()]);
        }
    }
    if matches_any_spec(artists, ns) {
        let i = choose|i: int| 0 <= i < ns.len() && artists.contains(normalize::normalize_name_spec(#[trigger] ns[i]));
        assert(all[i] == ns[i]);
    }
    if matches_any_spec(artists, ms) {
        let i = choose|i: int| 0 <= i < ms.len() && artists.contains(normalize::normalize_name_spec(#[trigger] ms[i]));
        assert(all[ns.len() + i] == ms[i]);
    }
}

/// `aliases` with `name` appended to the list for `id` (a new list when
/// `id` has none yet).
pub open spec fn add_alias_spec(aliases: Map<u64, Seq<Seq<char>>>, id: u64, name: Seq<char>) -> Map<
    u64,
    Seq<Seq<char>>,
> {
    aliases.insert(id, aliases_for(aliases, id).push(name))
}

/// Artist filter backed by the distinct normalized artist names, with an
/// optional alias table keyed by artist id.
pub struct ArtistFilter {
    artists: StringHashSet,
    aliases: HashMap<u64, Vec<String>>,
}

impl ArtistFilter {
    /// The normalized artist names.
    pub closed spec fn artists_view(&self) -> Set<Seq<char>> {
        self.artists@
    }

    /// Artist id to its normalized alias names.
    pub closed spec fn aliases_view(&self) -> Map<u64, Seq<Seq<char>>> {
        self.aliases@.map_values(|v: Vec<String>| split::string_views(v@))
    }

    /// Build a filter from lines of text (one artist per line).
    pub fn from_lines(lines: &[String]) -> (r: Self)
        ensures
            r.artists_view() == normalized_lines(split::string_views(lines@)).to_set(),
            r.artists_view().len() == normalized_lines(split::string_views(lines@)).len(),
            r.aliases_view() == Map::<u64, Seq<Seq<char>>>::empty(),
    {
        let artists = string_set_of(normalized_distinct(lines));
        let r = ArtistFilter { artists, aliases: HashMap::new() };
        assert(r.aliases_view() =~= Map::<u64, Seq<Seq<char>>>::empty());
        r
    }

    /// Build a filter from the text of an artist list (one artist per line).
    pub fn from_text(content: &str) -> (r: Self)
        ensures
            r.artists_view() == normalized_lines(lines_spec(content@)).to_set(),
            r.artists_view().len() == normalized_lines(lines_spec(content@)).len(),
            r.aliases_view() == Map::<u64, Seq<Seq<char>>>::empty(),
    {
        let lines = text_lines(content);
        Self::from_lines(&lines)
    }

    /// Record one alias row: the id field is read as `u64` (0 when it does
    /// not parse), the alias name normalized; an empty normalized name is
    /// skipped. Returns whether the alias was recorded.
    pub fn add_alias_record(&mut self, id_field: &str, alias_name: &str) -> (r: bool)
        ensures
            final(self).artists_view() == old(self).artists_view(),
            r == (normalize::normalize_name_spec(alias_name@).len() > 0),
            r ==> final(self).aliases_view() == add_alias_spec(
                old(self).aliases_view(),
                match parse_u64_spec(id_field@) {
                    Some(n) => n,
                    None => 0,
                },
                normalize::normalize_name_spec(alias_name@),
            ),
            !r ==> final(self).aliases_view() == old(self).aliases_view(),
    {
        let id = match parse_u64(id_field) {
            Some(n) => n,
            None => 0,
        };
        let n = normalize::normalize_name_vec(alias_name);
        if n.len() == 0 {
            return false;
        }
        let ns = chars::string_of(&n);
        self.add_alias(id, ns);
        true
    }

    fn add_alias(&mut self, id: u64, name: String)
        ensures
            final(self).artists_view() == old(self).artists_view(),
            final(self).aliases_view() == add_alias_spec(old(self).aliases_view(), id, name@),
    {
        let ghost old_map = self.aliases@;
        let ghost old_view = self.aliases_view();
        let existing = self.aliases.remove(&id);
        let mut list = match existing {
            Some(l) => l,
            None => Vec::new(),
        };
        proof {
            assert(split::string_views(list@) =~= aliases_for(old_view, id));
        }
        list.push(name);
        let ghost lv = list;
        self.aliases.insert(id, list);
        proof {
            assert(split::string_views(lv@) =~= aliases_for(old_view, id).push(name@));
            assert(self.aliases@ =~= old_map.remove(id).insert(id, lv));
            assert(self.aliases_view() =~= add_alias_spec(old_view, id, name@));
        }
    }

    /// Check if any of the given artist names, normalized, is in the set.
    pub fn matches_any(&self, names: &[&str]) -> (r: bool)
        ensures
            r == matches_any_spec(self.artists_view(), names@.map_values(|s: &str| s@)),
    {
        let ghost ns = names@.map_values(|s: &str| s@);
        let mut i: usize = 0;
        while i < names.len()
            invariant
                i <= names@.len(),
                ns == names@.map_values(|s: &str| s@),
                forall|j: int| 0 <= j < i ==> !self.artists_view().contains(normalize::normalize_name_spec(#[trigger] ns[j])),
            decreases names.len() - i,
        {
            let n = normalize::normalize_name_vec(names[i]);
            if set_contains(&self.artists, &n) {
                assert(ns[i as int] == names@[i as int]@);
                assert(self.artists_view().contains(normalize::normalize_name_spec(ns[i as int])));
                return true;
            }
            i += 1;
        }
        false
    }

    /// Check if any artist matches by canonical name or by alias lookup.
    pub fn matches_any_with_ids(&self, artists: &[(u64, &str)]) -> (r: bool)
        ensures
            r == matches_with_ids_spec(
                self.artists_view(),
                self.aliases_view(),
                artists@.map_values(|p: (u64, &str)| (p.0, p.1@)),
            ),
    {
        let ghost ps = artists@.map_values(|p: (u64, &str)| (p.0, p.1@));
        let mut i: usize = 0;
        while i < artists.len()
            invariant
                i <= artists@.len(),
                ps == artists@.map_values(|p: (u64, &str)| (p.0, p.1@)),
                forall|j: int|
                    0 <= j < i ==> !(self.artists_view().contains(normalize::normalize_name_spec((#[trigger] ps[j]).1))
                        || exists|k: int|
                        0 <= k < aliases_for(self.aliases_view(), ps[j].0).len()
                            && self.artists_view().contains(
                            #[trigger] aliases_for(self.aliases_view(), ps[j].0)[k],
                        )),
            decreases artists.len() - i,
        {
            let (artist_id, name) = artists[i];
            assert(ps[i as int] == (artist_id, name@));
            let n = normalize::normalize_name_vec(name);
            if set_contains(&self.artists, &n) {
                return true;
            }
            let found = self.alias_matches(artist_id);
            if found {
                assert(ps[i as int].0 == artist_id);
                assert(0 <= i < ps.len() && (self.artists_view().contains(normalize::normalize_name_spec(ps[i as int].1))
                    || exists|k: int|
                    0 <= k < aliases_for(self.aliases_view(), ps[i as int].0).len()
                        && self.artists_view().contains(
                        #[trigger] aliases_for(self.aliases_view(), ps[i as int].0)[k],
                    )));
                return true;
            }
            i += 1;
        }
        false
    }

    /// Whether some alias recorded for `id` is in the artist set.
    fn alias_matches(&self, id: u64) -> (r: bool)
        ensures
            r == exists|k: int|
                0 <= k < aliases_for(self.aliases_view(), id).len() && self.artists_view().contains(
                    #[trigger] aliases_for(self.aliases_view(), id)[k],
                ),
    {
        let ghost view = self.aliases_view();
        match self.aliases.get(&id) {
            None => {
                assert(aliases_for(view, id) =~= Seq::<Seq<char>>::empty());
                false
            },
            Some(list) => {
                assert(split::string_views(list@) == aliases_for(view, id));
                let mut k: usize = 0;
                while k < list.len()
                    invariant
                        k <= list@.len(),
                        split::string_views(list@) == aliases_for(view, id),
                        view == self.aliases_view(),
                        forall|m: int| 0 <= m < k ==> !self.artists_view().contains(#[trigger] aliases_for(view, id)[m]),
                    decreases list.len() - k,
                {
                    let a = chars::chars_of(list[k].as_str());
                    if set_contains(&self.artists, &a) {
                        assert(aliases_for(view, id)[k as int] == a@);
                        return true;
                    }
                    k += 1;
                }
                false
            },
        }
    }

    /// Whether alias data has been loaded.
    pub fn has_aliases(&self) -> (r: bool)
        ensures
            r == !self.aliases_view().is_empty(),
    {
        let r = !self.aliases.is_empty();
        proof {
            if self.aliases@.is_empty() {
                assert(self.aliases_view() =~= Map::<u64, Seq<Seq<char>>>::empty());
            } else {
                let k = self.aliases@.dom().choose();
                assert(self.aliases_view().dom().contains(k));
            }
        }
        r
    }

    /// Number of artists in the filter set.
    pub fn len(&self) -> (r: usize)
        ensures
            r == self.artists_view().len(),
    {
        self.artists.len()
    }

    /// Whether the filter set is empty.
    pub fn is_empty(&self) -> (r: bool)
        ensures
            r == (self.artists_view().len() == 0),
    {
        self.artists.len() == 0
    }
}

} // verus!
