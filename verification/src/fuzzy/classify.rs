//! The library index behind KEEP/PRUNE/REVIEW release classification.

use vstd::prelude::*;
use vstd::hash_map::StringHashMap;
use vstd::string::StringExecFns;

use crate::text::chars;
use crate::text::normalize;
use super::order;

verus! {

/// Classification result for a release.
#[derive(Debug, Clone, Copy, PartialEq, Eq)]
pub enum Classification {
    Keep,
    Prune,
    Review,
}

/// Pre-built in-memory index of (artist, title) pairs from the library:
/// exact pair lookup, per-artist title lookup, combined strings for the
/// token scorers, and the distinct artists.
pub struct LibraryIndex {
    /// Normalized (artist, title) pairs, each once.
    pub exact_pairs: Vec<(String, String)>,
    /// Normalized artist to its normalized titles, in input order.
    pub artist_to_titles: StringHashMap<Vec<String>>,
    /// "artist ||| title" combined strings, one per input pair.
    pub combined_strings: Vec<String>,
    /// Distinct normalized artist names, sorted.
    pub all_artists: Vec<String>,
}

/// The input pairs, each side normalized.
pub open spec fn normalized_pairs(pairs: Seq<(String, String)>) -> Seq<(Seq<char>, Seq<char>)> {
    pairs.map_values(
        |p: (String, String)|
            (normalize::normalize_name_spec(p.0@), normalize::normalize_name_spec(p.1@)),
    )
}

/// The titles paired with `artist`, in order.
pub open spec fn titles_for(np: Seq<(Seq<char>, Seq<char>)>, artist: Seq<char>) -> Seq<Seq<char>>
    decreases np.len(),
{
    if np.len() == 0 {
        seq![]
    } else if np.last().0 == artist {
        titles_for(np.drop_last(), artist).push(np.last().1)
    } else {
        titles_for(np.drop_last(), artist)
    }
}

/// The artist side of each pair.
pub open spec fn artists_of(np: Seq<(Seq<char>, Seq<char>)>) -> Seq<Seq<char>> {
    np.map_values(|p: (Seq<char>, Seq<char>)| p.0)
}

/// `artist ||| title`.
pub open spec fn combined_spec(p: (Seq<char>, Seq<char>)) -> Seq<char> {
    p.0 + " ||| "@ + p.1
}

/// The character sequences of a list of strings.
pub open spec fn string_views(v: Seq<String>) -> Seq<Seq<char>> {
    v.map_values(|s: String| s@)
}

/// The character sequences of a list of string pairs.
pub open spec fn pair_views(v: Seq<(String, String)>) -> Seq<(Seq<char>, Seq<char>)> {
    v.map_values(|p: (String, String)| (p.0@, p.1@))
}

/// The combined `artist ||| title` string the token scorers compare.
pub fn combined_key(norm_artist: &str, norm_title: &str) -> (r: String)
    ensures
        r@ == combined_spec((norm_artist@, norm_title@)),
{
    let mut c = String::from_str(norm_artist);
    c.append(" ||| ");
    c.append(norm_title);
    proof {
        reveal_strlit(" ||| ");
    }
    c
}

impl LibraryIndex {
    /// Build an index from (artist, title) pairs; every string is
    /// normalized as an artist name is.
    pub fn from_pairs(pairs: &[(String, String)]) -> (r: Self)
        ensures
            pair_views(r.exact_pairs@).no_duplicates(),
            pair_views(r.exact_pairs@).to_set() == normalized_pairs(pairs@).to_set(),
            r.artist_to_titles@.dom() == artists_of(normalized_pairs(pairs@)).to_set(),
            forall|a: Seq<char>|
                #[trigger] r.artist_to_titles@.contains_key(a) ==> string_views(
                    r.artist_to_titles@[a]@,
                ) == titles_for(normalized_pairs(pairs@), a),
            string_views(r.combined_strings@) == normalized_pairs(pairs@).map_values(
                |p: (Seq<char>, Seq<char>)| combined_spec(p),
            ),
            string_views(r.all_artists@) == order::sorted_set_spec(
                artists_of(normalized_pairs(pairs@)),
            ),
            order::strictly_sorted(string_views(r.all_artists@)),
            string_views(r.all_artists@).to_set() == artists_of(normalized_pairs(pairs@)).to_set(),
    {
        let ghost np = normalized_pairs(pairs@);
        let mut exact: Vec<(String, String)> = Vec::new();
        let mut groups: Vec<(Vec<char>, Vec<String>)> = Vec::new();
        let mut combined: Vec<String> = Vec::new();
        let mut artists: Vec<Vec<char>> = Vec::new();
        let mut i: usize = 0;
        assert(np.take(0) =~= Seq::<(Seq<char>, Seq<char>)>::empty());
        while i < pairs.len()
            invariant
                i <= pairs@.len(),
                np == normalized_pairs(pairs@),
                pair_views(exact@).no_duplicates(),
                pair_views(exact@).to_set() == np.take(i as int).to_set(),
                groups_wf(groups@, np.take(i as int)),
                string_views(combined@) == np.take(i as int).map_values(
                    |p: (Seq<char>, Seq<char>)| combined_spec(p),
                ),
                order::views(artists@) == artists_of(np.take(i as int)),
            decreases pairs.len() - i,
        {
            let ghost pre = np.take(i as int);
            let ghost post = np.take(i + 1);
            assert(post == pre.push(np[i as int]));
            let na = normalize::normalize_name_vec(pairs[i].0.as_str());
            let nt = normalize::normalize_name_vec(pairs[i].1.as_str());
            assert(np[i as int] == (na@, nt@));
            let st = chars::string_of(&nt);
            let sa = chars::string_of(&na);
            let c = combined_key(sa.as_str(), st.as_str());
            // exact pairs
            if !contains_pair(&exact, &na, &nt) {
                let ghost before = pair_views(exact@);
                exact.push((chars::string_of(&na), chars::string_of(&nt)));
                proof {
                    assert(pair_views(exact@) =~= before.push((na@, nt@)));
                    before.lemma_push_to_set_commute((na@, nt@));
                    pre.lemma_push_to_set_commute((na@, nt@));
                    assert forall|a: int, b: int|
                        0 <= a < pair_views(exact@).len() && 0 <= b < pair_views(exact@).len() && a != b implies
                        pair_views(exact@)[a] != pair_views(exact@)[b] by {
                        if a < before.len() && b < before.len() {
                            assert(pair_views(exact@)[a] == before[a]);
                            assert(pair_views(exact@)[b] == before[b]);
                        } else if a < before.len() {
                            assert(pair_views(exact@)[a] == before[a]);
                        } else {
                            assert(pair_views(exact@)[b] == before[b]);
                        }
                    }
                }
            } else {
                proof {
                    pre.lemma_push_to_set_commute((na@, nt@));
                    assert(pair_views(exact@).to_set().contains((na@, nt@)));
                    assert(pair_views(exact@).to_set().insert((na@, nt@)) =~= pair_views(exact@).to_set());
                }
            }
            // titles grouped by artist
            add_title(&mut groups, &na, st, Ghost(pre), Ghost(nt@));
            assert(groups_wf(groups@, post));
            // combined strings
            let ghost cbefore = string_views(combined@);
            combined.push(c);
            proof {
                assert(string_views(combined@) =~= cbefore.push(combined_spec((na@, nt@))));
                assert(post.map_values(|p: (Seq<char>, Seq<char>)| combined_spec(p)) =~= pre.map_values(
                    |p: (Seq<char>, Seq<char>)| combined_spec(p),
                ).push(combined_spec((na@, nt@))));
            }
            // artists
            let ghost abefore = order::views(artists@);
            artists.push(na);
            proof {
                assert(order::views(artists@) =~= abefore.push(np[i as int].0));
                assert(artists_of(post) =~= artists_of(pre).push(np[i as int].0));
            }
            i += 1;
        }
        assert(np.take(pairs@.len() as int) == np);
        let map = groups_to_map(groups, Ghost(np));
        let sorted = order::sort_strings(artists);
        proof {
            order::views(sorted@).to_multiset_ensures();
            artists_of(np).to_multiset_ensures();
            assert forall|x: Seq<char>| order::views(sorted@).contains(x) <==> artists_of(np).contains(x) by {
                assert(order::views(sorted@).to_multiset().count(x) == artists_of(np).to_multiset().count(x));
            }
            assert(order::views(sorted@).to_set() =~= artists_of(np).to_set());
        }
        let distinct = order::dedup_sorted(sorted);
        proof {
            let w = order::views(distinct@);
            assert(order::strictly_sorted(w) && w.to_set() == artists_of(np).to_set());
            order::lemma_strictly_sorted_unique(w, order::sorted_set_spec(artists_of(np)));
        }
        let all_artists = strings_of(&distinct);
        LibraryIndex { exact_pairs: exact, artist_to_titles: map, combined_strings: combined, all_artists }
    }

    /// Whether `(norm_artist, norm_title)` is one of the exact pairs.
    pub fn contains_exact(&self, norm_artist: &str, norm_title: &str) -> (r: bool)
        ensures
            r == pair_views(self.exact_pairs@).contains((norm_artist@, norm_title@)),
    {
        let a = chars::chars_of(norm_artist);
        let t = chars::chars_of(norm_title);
        let ghost pv = pair_views(self.exact_pairs@);
        let mut i: usize = 0;
        while i < self.exact_pairs.len()
            invariant
                i <= self.exact_pairs@.len(),
                pv == pair_views(self.exact_pairs@),
                a@ == norm_artist@,
                t@ == norm_title@,
                forall|j: int| 0 <= j < i ==> pv[j] != (norm_artist@, norm_title@),
            decreases self.exact_pairs.len() - i,
        {
            let pa = chars::chars_of(self.exact_pairs[i].0.as_str());
            let pt = chars::chars_of(self.exact_pairs[i].1.as_str());
            if chars::chars_eq(&pa, &a) && chars::chars_eq(&pt, &t) {
                assert(pv[i as int] == (norm_artist@, norm_title@));
                return true;
            }
            i += 1;
        }
        false
    }
}

/// The groups hold one entry per distinct artist of `np`, with that
/// artist's titles in order.
pub open spec fn groups_wf(groups: Seq<(Vec<char>, Vec<String>)>, np: Seq<(Seq<char>, Seq<char>)>) -> bool {
    &&& forall|a: int, b: int|
        0 <= a < groups.len() && 0 <= b < groups.len() && a != b ==> (#[trigger] groups[a]).0@ != (
        #[trigger] groups[b]).0@
    &&& forall|k: int|
        0 <= k < groups.len() ==> string_views((#[trigger] groups[k]).1@) == titles_for(np, groups[k].0@)
    &&& forall|k: int| 0 <= k < groups.len() ==> artists_of(np).contains((#[trigger] groups[k]).0@)
    &&& forall|j: int|
        0 <= j < np.len() ==> exists|k: int| 0 <= k < groups.len() && (#[trigger] groups[k]).0@ == (
        #[trigger] np[j]).0
}

proof fn lemma_titles_for_push_other(np: Seq<(Seq<char>, Seq<char>)>, p: (Seq<char>, Seq<char>), a: Seq<char>)
    requires
        p.0 != a,
    ensures
        titles_for(np.push(p), a) == titles_for(np, a),
{
    assert(np.push(p).drop_last() == np);
}

proof fn lemma_titles_for_push_same(np: Seq<(Seq<char>, Seq<char>)>, p: (Seq<char>, Seq<char>))
    ensures
        titles_for(np.push(p), p.0) == titles_for(np, p.0).push(p.1),
{
    assert(np.push(p).drop_last() == np);
}

proof fn lemma_titles_for_absent(np: Seq<(Seq<char>, Seq<char>)>, a: Seq<char>)
    requires
        !artists_of(np).contains(a),
    ensures
        titles_for(np, a) == Seq::<Seq<char>>::empty(),
    decreases np.len(),
{
    if np.len() > 0 {
        assert(artists_of(np)[np.len() - 1] == np.last().0);
        assert(artists_of(np.drop_last()) =~= artists_of(np).drop_last());
        if artists_of(np.drop_last()).contains(a) {
            let j = choose|j: int| 0 <= j < artists_of(np.drop_last()).len() && artists_of(np.drop_last())[j] == a;
            assert(artists_of(np)[j] == a);
        }
        lemma_titles_for_absent(np.drop_last(), a);
    }
}

/// Append `title` to the group of `artist`, opening the group if needed.
fn add_title(
    groups: &mut Vec<(Vec<char>, Vec<String>)>,
    artist: &Vec<char>,
    title: String,
    Ghost(np): Ghost<Seq<(Seq<char>, Seq<char>)>>,
    Ghost(t): Ghost<Seq<char>>,
)
    requires
        groups_wf(old(groups)@, np),
        title@ == t,
    ensures
        groups_wf(final(groups)@, np.push((artist@, t))),
{
    let ghost np1 = np.push((artist@, t));
    assert(artists_of(np1) =~= artists_of(np).push(artist@));
    let mut k: usize = 0;
    while k < groups.len() && !order_chars_eq(&groups[k].0, artist)
        invariant
            k <= groups@.len(),
            forall|j: int| 0 <= j < k ==> (#[trigger] groups@[j]).0@ != artist@,
        decreases groups.len() - k,
    {
        k += 1;
    }
    let ghost before = groups@;
    if k < groups.len() {
        assert(before[k as int].0@ == artist@);
        groups[k].1.push(title);
        proof {
            let after = groups@;
            assert forall|m: int| 0 <= m < after.len() implies string_views((#[trigger] after[m]).1@)
                == titles_for(np1, after[m].0@) by {
                if m == k {
                    lemma_titles_for_push_same(np, (artist@, t));
                    assert(string_views(after[m].1@) =~= string_views(before[m].1@).push(t));
                } else {
                    assert(after[m] == before[m]);
                    lemma_titles_for_push_other(np, (artist@, t), after[m].0@);
                }
            }
            assert forall|m: int| 0 <= m < after.len() implies artists_of(np1).contains((#[trigger] after[m]).0@) by {
                assert(after[m].0 == before[m].0);
                let w = choose|w: int| 0 <= w < artists_of(np).len() && artists_of(np)[w] == before[m].0@;
                assert(artists_of(np1)[w] == before[m].0@);
            }
            assert forall|j: int| 0 <= j < np1.len() implies exists|m: int|
                0 <= m < after.len() && (#[trigger] after[m]).0@ == (#[trigger] np1[j]).0 by {
                if j < np.len() {
                    assert(np1[j] == np[j]);
                    let m = choose|m: int| 0 <= m < before.len() && (#[trigger] before[m]).0@ == np[j].0;
                    assert(after[m].0 == before[m].0);
                } else {
                    assert(after[k as int].0 == before[k as int].0);
                }
            }
            assert forall|a: int, b: int|
                0 <= a < after.len() && 0 <= b < after.len() && a != b implies (#[trigger] after[a]).0@ != (
                #[trigger] after[b]).0@ by {
                assert(after[a].0 == before[a].0);
                assert(after[b].0 == before[b].0);
            }
        }
    } else {
        proof {
            if artists_of(np).contains(artist@) {
                let w = choose|w: int| 0 <= w < artists_of(np).len() && artists_of(np)[w] == artist@;
                assert(np[w].0 == artist@);
                let m = choose|m: int| 0 <= m < before.len() && (#[trigger] before[m]).0@ == np[w].0;
                assert(false);
            }
            lemma_titles_for_absent(np, artist@);
            lemma_titles_for_push_same(np, (artist@, t));
        }
        let mut ts: Vec<String> = Vec::new();
        ts.push(title);
        groups.push((artist.clone(), ts));
        proof {
            let after = groups@;
            assert(after.len() == before.len() + 1);
            assert(string_views(ts@) =~= seq![t]);
            assert forall|m: int| 0 <= m < after.len() implies string_views((#[trigger] after[m]).1@)
                == titles_for(np1, after[m].0@) by {
                if m < before.len() {
                    assert(after[m] == before[m]);
                    lemma_titles_for_push_other(np, (artist@, t), after[m].0@);
                } else {
                    assert(Seq::<Seq<char>>::empty().push(t) =~= seq![t]);
                }
            }
            assert forall|m: int| 0 <= m < after.len() implies artists_of(np1).contains((#[trigger] after[m]).0@) by {
                if m < before.len() {
                    assert(after[m] == before[m]);
                    let w = choose|w: int| 0 <= w < artists_of(np).len() && artists_of(np)[w] == before[m].0@;
                    assert(artists_of(np1)[w] == before[m].0@);
                } else {
                    assert(artists_of(np1)[np.len() as int] == artist@);
                }
            }
            assert forall|j: int| 0 <= j < np1.len() implies exists|m: int|
                0 <= m < after.len() && (#[trigger] after[m]).0@ == (#[trigger] np1[j]).0 by {
                if j < np.len() {
                    assert(np1[j] == np[j]);
                    let m = choose|m: int| 0 <= m < before.len() && (#[trigger] before[m]).0@ == np[j].0;
                    assert(after[m] == before[m]);
                } else {
                    assert(after[before.len() as int].0@ == artist@);
                }
            }
            assert forall|a: int, b: int|
                0 <= a < after.len() && 0 <= b < after.len() && a != b implies (#[trigger] after[a]).0@ != (
                #[trigger] after[b]).0@ by {
                if a < before.len() {
                    assert(after[a] == before[a]);
                }
                if b < before.len() {
                    assert(after[b] == before[b]);
                }
            }
        }
    }
}

/// The map from each group's artist to its titles.
fn groups_to_map(groups: Vec<(Vec<char>, Vec<String>)>, Ghost(np): Ghost<Seq<(Seq<char>, Seq<char>)>>) -> (r:
    StringHashMap<Vec<String>>)
    requires
        groups_wf(groups@, np),
    ensures
        r@.dom() == artists_of(np).to_set(),
        forall|a: Seq<char>|
            #[trigger] r@.contains_key(a) ==> string_views(r@[a]@) == titles_for(np, a),
{
    let mut groups = groups;
    let ghost all = groups@;
    let mut map: StringHashMap<Vec<String>> = StringHashMap::new();
    while groups.len() > 0
        invariant
            groups_wf(all, np),
            groups@.len() <= all.len(),
            groups@ == all.take(groups@.len() as int),
            forall|a: Seq<char>| #[trigger] map@.contains_key(a) <==> exists|k: int|
                groups@.len() <= k < all.len() && all[k].0@ == a,
            forall|a: Seq<char>|
                #[trigger] map@.contains_key(a) ==> string_views(map@[a]@) == titles_for(np, a),
        decreases groups.len(),
    {
        let ghost n = groups@.len();
        let (key, titles) = groups.pop().unwrap();
        assert(all[n - 1] == (key, titles));
        assert(groups@ == all.take(n - 1));
        let ks = chars::string_of(&key);
        map.insert(ks, titles);
        proof {
            assert forall|a: Seq<char>| #[trigger] map@.contains_key(a) <==> exists|k: int|
                groups@.len() <= k < all.len() && all[k].0@ == a by {
                if a == key@ {
                    assert(all[n - 1].0@ == a);
                }
            }
            assert forall|a: Seq<char>| #[trigger] map@.contains_key(a) implies string_views(map@[a]@)
                == titles_for(np, a) by {
                if a == key@ {
                    assert(string_views((#[trigger] all[n - 1]).1@) == titles_for(np, all[n - 1].0@));
                }
            }
        }
    }
    proof {
        assert forall|a: Seq<char>| map@.dom().contains(a) <==> artists_of(np).to_set().contains(a) by {
            if map@.dom().contains(a) {
                assert(map@.contains_key(a));
                let k = choose|k: int| 0 <= k < all.len() && all[k].0@ == a;
                assert(artists_of(np).contains((#[trigger] all[k]).0@));
            }
            if artists_of(np).to_set().contains(a) {
                let j = choose|j: int| 0 <= j < artists_of(np).len() && artists_of(np)[j] == a;
                assert(np[j].0 == a);
                let k = choose|k: int| 0 <= k < all.len() && (#[trigger] all[k]).0@ == np[j].0;
                assert(map@.contains_key(a));
            }
        }
        assert(map@.dom() =~= artists_of(np).to_set());
    }
    map
}

/// Whether `exact` holds the pair `(a, t)`.
fn contains_pair(exact: &Vec<(String, String)>, a: &Vec<char>, t: &Vec<char>) -> (r: bool)
    ensures
        r == pair_views(exact@).contains((a@, t@)),
{
    let mut i: usize = 0;
    while i < exact.len()
        invariant
            i <= exact@.len(),
            forall|j: int| 0 <= j < i ==> pair_views(exact@)[j] != (a@, t@),
        decreases exact.len() - i,
    {
        let x = chars::chars_of(exact[i].0.as_str());
        let y = chars::chars_of(exact[i].1.as_str());
        if chars::chars_eq(&x, a) && chars::chars_eq(&y, t) {
            assert(pair_views(exact@)[i as int] == (a@, t@));
            return true;
        }
        i += 1;
    }
    false
}

fn order_chars_eq(a: &Vec<char>, b: &Vec<char>) -> (r: bool)
    ensures
        r == (a@ == b@),
{
    chars::chars_eq(a.as_slice(), b.as_slice())
}

/// Strings holding the character vectors.
fn strings_of(v: &Vec<Vec<char>>) -> (r: Vec<String>)
    ensures
        string_views(r@) == order::views(v@),
{
    let mut out: Vec<String> = Vec::new();
    let mut i: usize = 0;
    while i < v.len()
        invariant
            i <= v@.len(),
            string_views(out@) == order::views(v@).take(i as int),
        decreases v.len() - i,
    {
        let s = chars::string_of(&v[i]);
        let ghost before = string_views(out@);
        out.push(s);
        assert(string_views(out@) =~= before.push(v@[i as int]@));
        assert(order::views(v@).take(i + 1) =~= order::views(v@).take(i as int).push(v@[i as int]@));
        i += 1;
    }
    assert(order::views(v@).take(v@.len() as int) == order::views(v@));
    out
}

} // verus!
