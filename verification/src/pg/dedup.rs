//! In-memory deduplication tracker for PostgreSQL bulk imports: keeps
//! duplicate rows out when several source records map to one database key
//! (the same artist twice on one release, say).

use std::collections::HashSet;
use std::hash::Hash;

use vstd::prelude::*;
use vstd::std_specs::hash::obeys_key_model;

verus! {

broadcast use vstd::std_specs::hash::group_hash_axioms;

/// Deduplication tracker backed by a [`HashSet`]: `insert` answers `true`
/// on the first occurrence of a key and `false` on a duplicate.
///
/// The contracts hold for every key type whose `Eq` and `Hash` follow
/// vstd's key model (`obeys_key_model`): the integers, and the types that
/// vstd states it for.
#[derive(Default)]
pub struct DedupSet<K> {
    seen: HashSet<K>,
}

/// Dedup tracker for (release_id, artist_name) pairs.
pub type ArtistDedup = DedupSet<(u64, String)>;

/// Dedup tracker for (release_id, label_name) pairs.
pub type LabelDedup = DedupSet<(u64, String)>;

/// Dedup tracker for (release_id, track_sequence, artist_name) tuples.
pub type TrackArtistDedup = DedupSet<(u64, u32, String)>;

impl<K: Eq + Hash> DedupSet<K> {
    /// The keys seen so far.
    pub closed spec fn seen(&self) -> Set<K> {
        self.seen@
    }

    /// An empty tracker.
    pub fn new() -> (r: Self)
        ensures
            r.seen() == Set::<K>::empty(),
    {
        DedupSet { seen: HashSet::new() }
    }

    /// Record `key`; `true` if this is its first occurrence.
    pub fn insert(&mut self, key: K) -> (r: bool)
        ensures
            obeys_key_model::<K>() ==> {
                &&& r == !old(self).seen().contains(key)
                &&& final(self).seen() == old(self).seen().insert(key)
            },
    {
        self.seen.insert(key)
    }

    /// Number of unique keys seen so far.
    pub fn len(&self) -> (r: usize)
        ensures
            obeys_key_model::<K>() ==> r == self.seen().len(),
    {
        self.seen.len()
    }

    /// `true` if no key has been recorded.
    pub fn is_empty(&self) -> (r: bool)
        ensures
            r == (self.seen() == Set::<K>::empty()),
    {
        let r = self.seen.is_empty();
        proof {
            if r {
                assert(self.seen@ =~= Set::<K>::empty());
            }
        }
        r
    }
}

} // verus!
