//! Row deduplication by unique key tuple during CSV import.

use vstd::prelude::*;
use vstd::string::StringExecFns;

use crate::text::chars;

verus! {

/// The character sequences of a key's fields.
pub open spec fn key_view(key: Seq<&str>) -> Seq<Seq<char>> {
    key.map_values(|s: &str| s@)
}

/// The character sequences of a stored key's fields.
pub open spec fn stored_key_view(key: Seq<String>) -> Seq<Seq<char>> {
    key.map_values(|s: String| s@)
}

/// Tracks the key tuples of the rows seen so far during an import; each
/// distinct tuple is held once, in order of first insertion.
pub struct ImportDedupSet {
    seen: Vec<Vec<String>>,
}

impl ImportDedupSet {
    /// The key tuples seen so far, in order of first insertion.
    pub closed spec fn keys(&self) -> Seq<Seq<Seq<char>>> {
        self.seen@.map_values(|k: Vec<String>| stored_key_view(k@))
    }

    /// No key tuple is held twice.
    #[verifier::type_invariant]
    spec fn keys_distinct(&self) -> bool {
        self.keys().no_duplicates()
    }

    /// An empty tracker.
    pub fn new() -> (r: Self)
        ensures
            r.keys() == Seq::<Seq<Seq<char>>>::empty(),
            r.keys().no_duplicates(),
    {
        let r = ImportDedupSet { seen: Vec::new() };
        assert(r.keys() =~= Seq::<Seq<Seq<char>>>::empty());
        r
    }

    /// Insert a key; `true` if it was not already present (not a duplicate).
    pub fn insert(&mut self, key: &[&str]) -> (r: bool)
        ensures
            r == !old(self).keys().contains(key_view(key@)),
            final(self).keys() == if r {
                old(self).keys().push(key_view(key@))
            } else {
                old(self).keys()
            },
            final(self).keys().no_duplicates(),
    {
        proof {
            use_type_invariant(&*self);
        }
        let ghost kv = key_view(key@);
        let mut i: usize = 0;
        while i < self.seen.len()
            invariant
                i <= self.seen@.len(),
                kv == key_view(key@),
                self.keys() == old(self).keys(),
                old(self).keys().no_duplicates(),
                forall|j: int| 0 <= j < i ==> self.keys()[j] != kv,
            decreases self.seen.len() - i,
        {
            if same_key(&self.seen[i], key) {
                assert(self.keys()[i as int] == kv);
                return false;
            }
            i += 1;
        }
        let mut owned: Vec<String> = Vec::new();
        let mut k: usize = 0;
        while k < key.len()
            invariant
                k <= key@.len(),
                stored_key_view(owned@) == key_view(key@).take(k as int),
            decreases key.len() - k,
        {
            let ghost before = stored_key_view(owned@);
            owned.push(String::from_str(key[k]));
            assert(stored_key_view(owned@) =~= before.push(key@[k as int]@));
            assert(key_view(key@).take(k + 1) =~= key_view(key@).take(k as int).push(key@[k as int]@));
            k += 1;
        }
        assert(key_view(key@).take(key@.len() as int) == key_view(key@));
        let ghost before = self.keys();
        let mut seen: Vec<Vec<String>> = Vec::new();
        std::mem::swap(&mut seen, &mut self.seen);
        seen.push(owned);
        proof {
            let after = seen@.map_values(|k: Vec<String>| stored_key_view(k@));
            assert(after =~= before.push(kv));
            assert forall|a: int, b: int|
                0 <= a < after.len() && 0 <= b < after.len() && a != b implies after[a]
                != after[b] by {
                if a < before.len() && b < before.len() {
                    assert(after[a] == before[a]);
                    assert(after[b] == before[b]);
                } else if a < before.len() {
                    assert(after[a] == before[a]);
                } else {
                    assert(after[b] == before[b]);
                }
            }
        }
        self.seen = seen;
        true
    }

    /// Number of distinct keys seen so far.
    pub fn len(&self) -> (r: usize)
        ensures
            r == self.keys().len(),
    {
        self.seen.len()
    }

    /// `true` if no key has been inserted.
    pub fn is_empty(&self) -> (r: bool)
        ensures
            r == (self.keys().len() == 0),
    {
        self.seen.len() == 0
    }
}

impl Default for ImportDedupSet {
    fn default() -> (r: Self)
        ensures
            r.keys() == Seq::<Seq<Seq<char>>>::empty(),
    {
        Self::new()
    }
}

/// Whether a stored key has the same fields as `key`.
fn same_key(stored: &Vec<String>, key: &[&str]) -> (r: bool)
    ensures
        r == (stored_key_view(stored@) == key_view(key@)),
{
    if stored.len() != key.len() {
        assert(stored_key_view(stored@).len() != key_view(key@).len());
        return false;
    }
    let mut i: usize = 0;
    while i < key.len()
        invariant
            i <= key@.len(),
            stored@.len() == key@.len(),
            forall|j: int| 0 <= j < i ==> stored@[j]@ == key@[j]@,
        decreases key.len() - i,
    {
        let a = chars::chars_of(stored[i].as_str());
        let b = chars::chars_of(key[i]);
        if !chars::chars_eq(&a, &b) {
            assert(stored_key_view(stored@)[i as int] != key_view(key@)[i as int]);
            return false;
        }
        i += 1;
    }
    assert(stored_key_view(stored@) =~= key_view(key@));
    true
}

} // verus!
