//! Lexicographic order on character sequences (the order of `str::cmp`:
//! UTF-8 byte order agrees with code point order) and a verified sort.

use vstd::prelude::*;

verus! {

/// `a` sorts strictly before `b`: at the first difference `a` has the
/// smaller code point, or `a` is a proper prefix of `b`.
pub open spec fn seq_lt(a: Seq<char>, b: Seq<char>) -> bool
    decreases a.len(),
{
    if a.len() == 0 {
        b.len() > 0
    } else if b.len() == 0 {
        false
    } else if a[0] != b[0] {
        a[0] < b[0]
    } else {
        seq_lt(a.drop_first(), b.drop_first())
    }
}

/// `a` sorts before `b` or equals it.
pub open spec fn seq_le(a: Seq<char>, b: Seq<char>) -> bool {
    a == b || seq_lt(a, b)
}

/// Every element sorts before or equals every later one.
pub open spec fn sorted(s: Seq<Seq<char>>) -> bool {
    forall|i: int, j: int| 0 <= i < j < s.len() ==> seq_le(#[trigger] s[i], #[trigger] s[j])
}

/// Nothing sorts strictly before itself.
pub proof fn lemma_lt_irreflexive(a: Seq<char>)
    ensures
        !seq_lt(a, a),
    decreases a.len(),
{
    if a.len() > 0 {
        lemma_lt_irreflexive(a.drop_first());
    }
}

/// Strict order is transitive.
pub proof fn lemma_lt_transitive(a: Seq<char>, b: Seq<char>, c: Seq<char>)
    requires
        seq_lt(a, b),
        seq_lt(b, c),
    ensures
        seq_lt(a, c),
    decreases a.len(),
{
    if a.len() > 0 && b.len() > 0 && c.len() > 0 {
        if a[0] == b[0] && b[0] == c[0] {
            lemma_lt_transitive(a.drop_first(), b.drop_first(), c.drop_first());
        }
    }
}

/// Two different sequences are ordered one way or the other.
pub proof fn lemma_lt_total(a: Seq<char>, b: Seq<char>)
    requires
        a != b,
    ensures
        seq_lt(a, b) || seq_lt(b, a),
    decreases a.len(),
{
    if a.len() > 0 && b.len() > 0 && a[0] == b[0] {
        if a.drop_first() == b.drop_first() {
            assert(a == seq![a[0]] + a.drop_first());
            assert(b == seq![b[0]] + b.drop_first());
        }
        lemma_lt_total(a.drop_first(), b.drop_first());
    } else if a.len() == 0 && b.len() == 0 {
        assert(a == b);
    }
}

/// Strict order is asymmetric.
pub proof fn lemma_lt_asymmetric(a: Seq<char>, b: Seq<char>)
    requires
        seq_lt(a, b),
    ensures
        !seq_lt(b, a),
{
    if seq_lt(b, a) {
        lemma_lt_transitive(a, b, a);
        lemma_lt_irreflexive(a);
    }
}

/// Every element sorts strictly before every later one.
pub open spec fn strictly_sorted(s: Seq<Seq<char>>) -> bool {
    forall|i: int, j: int| 0 <= i < j < s.len() ==> seq_lt(#[trigger] s[i], #[trigger] s[j])
}

/// The sorted arrangement of `t` (unique: see [`lemma_sorted_unique`]).
pub open spec fn sort_spec(t: Seq<Seq<char>>) -> Seq<Seq<char>> {
    choose|u: Seq<Seq<char>>| sorted(u) && u.to_multiset() == t.to_multiset()
}

/// The distinct elements of `t` in strictly increasing order (unique: see
/// [`lemma_strictly_sorted_unique`]).
pub open spec fn sorted_set_spec(t: Seq<Seq<char>>) -> Seq<Seq<char>> {
    choose|u: Seq<Seq<char>>| strictly_sorted(u) && u.to_set() == t.to_set()
}

/// `u` with `x` put in its place in increasing order (unchanged when `x`
/// is already there).
pub open spec fn insert_sorted(u: Seq<Seq<char>>, x: Seq<char>) -> Seq<Seq<char>>
    decreases u.len(),
{
    if u.len() == 0 {
        seq![x]
    } else if u[0] == x {
        u
    } else if seq_lt(x, u[0]) {
        seq![x] + u
    } else {
        seq![u[0]] + insert_sorted(u.drop_first(), x)
    }
}

/// The distinct elements of `t`, inserted one by one in increasing order.
pub open spec fn set_sort(t: Seq<Seq<char>>) -> Seq<Seq<char>>
    decreases t.len(),
{
    if t.len() == 0 {
        seq![]
    } else {
        insert_sorted(set_sort(t.drop_last()), t.last())
    }
}

proof fn lemma_insert_sorted(u: Seq<Seq<char>>, x: Seq<char>)
    requires
        strictly_sorted(u),
    ensures
        strictly_sorted(insert_sorted(u, x)),
        insert_sorted(u, x).to_set() == u.to_set().insert(x),
    decreases u.len(),
{
    let r = insert_sorted(u, x);
    if u.len() == 0 {
        assert(r.to_set() =~= u.to_set().insert(x)) by {
            assert(r[0] == x);
        }
    } else if u[0] == x {
        assert(u.to_set().contains(x)) by {
            assert(u[0] == x);
        }
        assert(r.to_set() =~= u.to_set().insert(x));
    } else if seq_lt(x, u[0]) {
        assert forall|i: int, j: int| 0 <= i < j < r.len() implies seq_lt(#[trigger] r[i], #[trigger] r[j]) by {
            if i == 0 {
                assert(r[j] == u[j - 1]);
                if j > 1 {
                    assert(seq_lt(u[0], u[j - 1]));
                    lemma_lt_transitive(x, u[0], u[j - 1]);
                }
            } else {
                assert(r[i] == u[i - 1] && r[j] == u[j - 1]);
            }
        }
        assert forall|y: Seq<char>| r.to_set().contains(y) <==> u.to_set().insert(x).contains(y) by {
            if r.to_set().contains(y) {
                let k = choose|k: int| 0 <= k < r.len() && r[k] == y;
                if k > 0 {
                    assert(u[k - 1] == y);
                }
            }
            if u.to_set().contains(y) {
                let k = choose|k: int| 0 <= k < u.len() && u[k] == y;
                assert(r[k + 1] == y);
            }
            if y == x {
                assert(r[0] == x);
            }
        }
        assert(r.to_set() =~= u.to_set().insert(x));
    } else {
        let u1 = u.drop_first();
        assert forall|i: int, j: int| 0 <= i < j < u1.len() implies seq_lt(#[trigger] u1[i], #[trigger] u1[j]) by {
            assert(u1[i] == u[i + 1] && u1[j] == u[j + 1]);
        }
        lemma_insert_sorted(u1, x);
        lemma_lt_total(x, u[0]);
        let rest = insert_sorted(u1, x);
        assert(r == seq![u[0]] + rest);
        assert forall|j: int| 0 <= j < rest.len() implies seq_lt(u[0], #[trigger] rest[j]) by {
            assert(rest.to_set().contains(rest[j]));
            assert(u1.to_set().insert(x).contains(rest[j]));
            if rest[j] != x {
                let k = choose|k: int| 0 <= k < u1.len() && u1[k] == rest[j];
                assert(u[k + 1] == rest[j]);
            }
        }
        assert forall|i: int, j: int| 0 <= i < j < r.len() implies seq_lt(#[trigger] r[i], #[trigger] r[j]) by {
            if i == 0 {
                assert(r[j] == rest[j - 1]);
            } else {
                assert(r[i] == rest[i - 1] && r[j] == rest[j - 1]);
            }
        }
        assert forall|y: Seq<char>| r.to_set().contains(y) <==> u.to_set().insert(x).contains(y) by {
            if r.to_set().contains(y) {
                let k = choose|k: int| 0 <= k < r.len() && r[k] == y;
                if k > 0 {
                    assert(rest[k - 1] == y);
                    assert(rest.to_set().contains(y));
                    if y != x {
                        let m = choose|m: int| 0 <= m < u1.len() && u1[m] == y;
                        assert(u[m + 1] == y);
                    }
                }
            }
            if u.to_set().contains(y) {
                let k = choose|k: int| 0 <= k < u.len() && u[k] == y;
                if k == 0 {
                    assert(r[0] == y);
                } else {
                    assert(u1[k - 1] == y);
                    assert(rest.to_set().contains(y));
                    let m = choose|m: int| 0 <= m < rest.len() && rest[m] == y;
                    assert(r[m + 1] == y);
                }
            }
            if y == x {
                assert(rest.to_set().contains(x));
                let m = choose|m: int| 0 <= m < rest.len() && rest[m] == x;
                assert(r[m + 1] == x);
            }
        }
        assert(r.to_set() =~= u.to_set().insert(x));
    }
}

/// Some strictly increasing sequence holds exactly the elements of `t`:
/// [`sorted_set_spec`] is that sequence.
pub proof fn lemma_sorted_set(t: Seq<Seq<char>>)
    ensures
        strictly_sorted(sorted_set_spec(t)),
        sorted_set_spec(t).to_set() == t.to_set(),
    decreases t.len(),
{
    lemma_set_sort(t);
}

proof fn lemma_set_sort(t: Seq<Seq<char>>)
    ensures
        strictly_sorted(set_sort(t)),
        set_sort(t).to_set() == t.to_set(),
    decreases t.len(),
{
    if t.len() == 0 {
        assert(set_sort(t).to_set() =~= t.to_set());
    } else {
        lemma_set_sort(t.drop_last());
        lemma_insert_sorted(set_sort(t.drop_last()), t.last());
        assert(t.drop_last().push(t.last()) == t);
        assert(t.to_set() =~= t.drop_last().to_set().insert(t.last())) by {
            assert forall|y: Seq<char>| t.to_set().contains(y) <==> t.drop_last().to_set().insert(
                t.last(),
            ).contains(y) by {
                if t.to_set().contains(y) {
                    let k = choose|k: int| 0 <= k < t.len() && t[k] == y;
                    if k < t.len() - 1 {
                        assert(t.drop_last()[k] == y);
                    }
                }
                if t.drop_last().to_set().contains(y) {
                    let k = choose|k: int| 0 <= k < t.drop_last().len() && t.drop_last()[k] == y;
                    assert(t[k] == y);
                }
                if y == t.last() {
                    assert(t[t.len() - 1] == y);
                }
            }
        }
    }
}

proof fn lemma_le_antisymmetric(a: Seq<char>, b: Seq<char>)
    requires
        seq_le(a, b),
        seq_le(b, a),
    ensures
        a == b,
{
    if a != b {
        lemma_lt_asymmetric(a, b);
    }
}

/// Two sorted arrangements of the same elements are equal: sorting has one
/// result.
pub proof fn lemma_sorted_unique(a: Seq<Seq<char>>, b: Seq<Seq<char>>)
    requires
        sorted(a),
        sorted(b),
        a.to_multiset() == b.to_multiset(),
    ensures
        a == b,
    decreases a.len(),
{
    a.to_multiset_ensures();
    b.to_multiset_ensures();
    if a.len() == 0 {
        assert(b.len() == 0);
        assert(a =~= b);
    } else {
        assert(b.len() == a.len());
        assert(a.contains(a[0]));
        assert(b.to_multiset().count(a[0]) > 0);
        assert(b.contains(a[0]));
        let k = choose|k: int| 0 <= k < b.len() && b[k] == a[0];
        assert(b.contains(b[0]));
        assert(a.to_multiset().count(b[0]) > 0);
        assert(a.contains(b[0]));
        let l = choose|l: int| 0 <= l < a.len() && a[l] == b[0];
        if k > 0 {
            assert(seq_le(b[0], b[k]));
        }
        if l > 0 {
            assert(seq_le(a[0], a[l]));
        }
        lemma_le_antisymmetric(a[0], b[0]);
        assert(a.remove(0) == a.drop_first());
        assert(b.remove(0) == b.drop_first());
        let a1 = a.drop_first();
        let b1 = b.drop_first();
        assert forall|i: int, j: int| 0 <= i < j < a1.len() implies seq_le(#[trigger] a1[i], #[trigger] a1[j]) by {
            assert(a1[i] == a[i + 1] && a1[j] == a[j + 1]);
        }
        assert forall|i: int, j: int| 0 <= i < j < b1.len() implies seq_le(#[trigger] b1[i], #[trigger] b1[j]) by {
            assert(b1[i] == b[i + 1] && b1[j] == b[j + 1]);
        }
        lemma_sorted_unique(a1, b1);
        assert forall|i: int| 0 <= i < a.len() implies a[i] == b[i] by {
            if i > 0 {
                assert(a[i] == a1[i - 1] && b[i] == b1[i - 1]);
            }
        }
        assert(a =~= b);
    }
}

/// Two strictly increasing arrangements of the same set are equal.
pub proof fn lemma_strictly_sorted_unique(a: Seq<Seq<char>>, b: Seq<Seq<char>>)
    requires
        strictly_sorted(a),
        strictly_sorted(b),
        a.to_set() == b.to_set(),
    ensures
        a == b,
    decreases a.len() + b.len(),
{
    if a.len() == 0 || b.len() == 0 {
        if a.len() > 0 {
            assert(a.to_set().contains(a[0]));
        }
        if b.len() > 0 {
            assert(b.to_set().contains(b[0]));
        }
        assert(a =~= b);
    } else {
        assert(a.to_set().contains(a[0]));
        assert(b.to_set().contains(b[0]));
        let k = choose|k: int| 0 <= k < b.len() && b[k] == a[0];
        let l = choose|l: int| 0 <= l < a.len() && a[l] == b[0];
        if k > 0 {
            assert(seq_lt(b[0], b[k]));
        }
        if l > 0 {
            assert(seq_lt(a[0], a[l]));
        }
        if a[0] != b[0] {
            if k > 0 && l > 0 {
                lemma_lt_asymmetric(b[0], a[0]);
            }
        }
        let a1 = a.drop_first();
        let b1 = b.drop_first();
        assert forall|i: int, j: int| 0 <= i < j < a1.len() implies seq_lt(#[trigger] a1[i], #[trigger] a1[j]) by {
            assert(a1[i] == a[i + 1] && a1[j] == a[j + 1]);
        }
        assert forall|i: int, j: int| 0 <= i < j < b1.len() implies seq_lt(#[trigger] b1[i], #[trigger] b1[j]) by {
            assert(b1[i] == b[i + 1] && b1[j] == b[j + 1]);
        }
        assert forall|x: Seq<char>| a1.to_set().contains(x) <==> b1.to_set().contains(x) by {
            if a1.to_set().contains(x) {
                let i = choose|i: int| 0 <= i < a1.len() && a1[i] == x;
                assert(a[i + 1] == x);
                assert(seq_lt(a[0], x));
                lemma_lt_irreflexive(x);
                assert(b.to_set().contains(x));
                let j = choose|j: int| 0 <= j < b.len() && b[j] == x;
                assert(j != 0);
                assert(b1[j - 1] == x);
            }
            if b1.to_set().contains(x) {
                let i = choose|i: int| 0 <= i < b1.len() && b1[i] == x;
                assert(b[i + 1] == x);
                assert(seq_lt(b[0], x));
                lemma_lt_irreflexive(x);
                assert(a.to_set().contains(x));
                let j = choose|j: int| 0 <= j < a.len() && a[j] == x;
                assert(j != 0);
                assert(a1[j - 1] == x);
            }
        }
        assert(a1.to_set() =~= b1.to_set());
        lemma_strictly_sorted_unique(a1, b1);
        assert forall|i: int| 0 <= i < a.len() implies a[i] == b[i] by {
            if i > 0 {
                assert(a[i] == a1[i - 1] && b[i] == b1[i - 1]);
            }
        }
        assert(a =~= b);
    }
}

/// Whether `s` holds `x` (by content).
pub fn contains_chars(s: &Vec<Vec<char>>, x: &[char]) -> (r: bool)
    ensures
        r == views(s@).contains(x@),
{
    let mut i: usize = 0;
    while i < s.len()
        invariant
            i <= s@.len(),
            forall|j: int| 0 <= j < i ==> views(s@)[j] != x@,
        decreases s.len() - i,
    {
        if chars_eq_vec(&s[i], x) {
            assert(views(s@)[i as int] == x@);
            return true;
        }
        i += 1;
    }
    false
}

fn chars_eq_vec(a: &Vec<char>, b: &[char]) -> (r: bool)
    ensures
        r == (a@ == b@),
{
    crate::text::chars::chars_eq(a.as_slice(), b)
}

/// The distinct elements of a sorted vector, in order.
pub fn dedup_sorted(v: Vec<Vec<char>>) -> (r: Vec<Vec<char>>)
    requires
        sorted(views(v@)),
    ensures
        strictly_sorted(views(r@)),
        views(r@).to_set() == views(v@).to_set(),
{
    let ghost vs = views(v@);
    let mut out: Vec<Vec<char>> = Vec::new();
    let mut i: usize = 0;
    assert(vs.take(0).to_set() =~= views(out@).to_set());
    while i < v.len()
        invariant
            i <= v@.len(),
            vs == views(v@),
            sorted(vs),
            strictly_sorted(views(out@)),
            views(out@).to_set() == vs.take(i as int).to_set(),
            i > 0 ==> out@.len() > 0 && views(out@).last() == vs[i - 1],
            i == 0 ==> out@.len() == 0,
        decreases v.len() - i,
    {
        let ghost before = views(out@);
        assert(vs.take(i + 1) == vs.take(i as int).push(vs[i as int]));
        proof {
            vs.take(i as int).lemma_push_to_set_commute(vs[i as int]);
        }
        let same = if out.len() > 0 {
            chars_eq_vec(&out[out.len() - 1], v[i].as_slice())
        } else {
            false
        };
        if same {
            assert(before.last() == vs[i as int]);
            assert(before.to_set().contains(vs[i as int])) by {
                assert(before[before.len() - 1] == vs[i as int]);
            }
            assert(before.to_set().insert(vs[i as int]) =~= before.to_set());
        } else {
            let x = v[i].clone();
            proof {
                if i > 0 {
                    assert(seq_le(vs[i - 1], vs[i as int]));
                    assert(before.last() != vs[i as int]);
                }
            }
            out.push(x);
            proof {
                let after = views(out@);
                assert(after =~= before.push(vs[i as int]));
                assert forall|a: int, b: int| 0 <= a < b < after.len() implies seq_lt(
                    #[trigger] after[a],
                    #[trigger] after[b],
                ) by {
                    if b < before.len() {
                        assert(after[a] == before[a] && after[b] == before[b]);
                    } else {
                        assert(after[b] == vs[i as int]);
                        assert(after[a] == before[a]);
                        if a < before.len() - 1 {
                            assert(seq_lt(before[a], before.last()));
                            lemma_lt_transitive(before[a], before.last(), vs[i as int]);
                        }
                    }
                }
                before.lemma_push_to_set_commute(vs[i as int]);
            }
        }
        i += 1;
    }
    assert(vs.take(v@.len() as int) == vs);
    out
}

/// Whether `a` sorts strictly before `b`.
pub fn chars_lt(a: &[char], b: &[char]) -> (r: bool)
    ensures
        r == seq_lt(a@, b@),
{
    let mut i: usize = 0;
    assert(a@.skip(0) == a@ && b@.skip(0) == b@);
    assert(a@.take(0) == b@.take(0));
    while i < a.len() && i < b.len()
        invariant
            i <= a@.len(),
            i <= b@.len(),
            a@.take(i as int) == b@.take(i as int),
            seq_lt(a@, b@) == seq_lt(a@.skip(i as int), b@.skip(i as int)),
        decreases a.len() - i,
    {
        if a[i] != b[i] {
            return a[i] < b[i];
        }
        proof {
            assert(a@.skip(i as int).drop_first() == a@.skip(i + 1));
            assert(b@.skip(i as int).drop_first() == b@.skip(i + 1));
            assert(a@.take(i + 1) == a@.take(i as int).push(a@[i as int]));
            assert(b@.take(i + 1) == b@.take(i as int).push(b@[i as int]));
        }
        i += 1;
    }
    i == a.len() && i < b.len()
}

/// The elements of `v`, sorted: a sorted permutation of `v`.
pub fn sort_strings(v: Vec<Vec<char>>) -> (r: Vec<Vec<char>>)
    ensures
        sorted(views(r@)),
        views(r@).to_multiset() == views(v@).to_multiset(),
{
    let mut out: Vec<Vec<char>> = Vec::new();
    let mut i: usize = 0;
    assert(views(v@).take(0) =~= Seq::<Seq<char>>::empty());
    assert(views(out@) =~= Seq::<Seq<char>>::empty());
    while i < v.len()
        invariant
            i <= v@.len(),
            sorted(views(out@)),
            views(out@).to_multiset() == views(v@).take(i as int).to_multiset(),
        decreases v.len() - i,
    {
        let x = v[i].clone();
        let ghost xs = x@;
        assert(x@ == v@[i as int]@);
        let mut p: usize = 0;
        while p < out.len() && !chars_lt(&x, &out[p])
            invariant
                p <= out@.len(),
                xs == x@,
                forall|k: int| 0 <= k < p ==> !seq_lt(xs, #[trigger] views(out@)[k]),
            decreases out.len() - p,
        {
            assert(views(out@)[p as int] == out@[p as int]@);
            p += 1;
        }
        let ghost before = views(out@);
        proof {
            assert forall|k: int| p <= k < before.len() implies seq_lt(xs, #[trigger] before[k]) by {
                if p < before.len() {
                    if k > p {
                        assert(seq_le(before[p as int], before[k]));
                        if before[p as int] != before[k] {
                            lemma_lt_transitive(xs, before[p as int], before[k]);
                        }
                    }
                }
            }
            assert forall|k: int| 0 <= k < p implies seq_le(#[trigger] before[k], xs) by {
                if before[k] != xs {
                    lemma_lt_total(before[k], xs);
                }
            }
        }
        out.insert(p, x);
        proof {
            let after = views(out@);
            assert(after =~= before.insert(p as int, xs));
            assert forall|a: int, b: int| 0 <= a < b < after.len() implies seq_le(
                #[trigger] after[a],
                #[trigger] after[b],
            ) by {
                if b < p {
                    assert(after[a] == before[a] && after[b] == before[b]);
                } else if b == p {
                    assert(after[a] == before[a]);
                } else if a < p {
                    assert(after[a] == before[a] && after[b] == before[b - 1]);
                    assert(seq_le(before[a], xs));
                    if before[a] != xs {
                        lemma_lt_transitive(before[a], xs, before[b - 1]);
                    }
                } else if a == p {
                    assert(after[b] == before[b - 1]);
                } else {
                    assert(after[a] == before[a - 1] && after[b] == before[b - 1]);
                }
            }
            vstd::seq_lib::to_multiset_insert(before, p as int, xs);
            assert(views(v@).take(i + 1) == views(v@).take(i as int).push(xs));
            views(v@).take(i as int).to_multiset_ensures();
        }
        i += 1;
    }
    assert(views(v@).take(v@.len() as int) == views(v@));
    out
}

/// The character sequences held by a vector of character vectors.
pub open spec fn views(v: Seq<Vec<char>>) -> Seq<Seq<char>> {
    v.map_values(|x: Vec<char>| x@)
}

} // verus!
