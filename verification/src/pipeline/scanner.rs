//! Batching of scanned items.

use vstd::prelude::*;

verus! {

/// Configuration for batch size and channel capacity.
pub struct BatchConfig {
    /// Number of items per batch (default: 256).
    pub batch_size: usize,
    /// Bounded channel capacity in batches (default: 64).
    pub channel_capacity: usize,
}

impl Default for BatchConfig {
    fn default() -> (r: Self)
        ensures
            r.batch_size == 256,
            r.channel_capacity == 64,
    {
        BatchConfig { batch_size: 256, channel_capacity: 64 }
    }
}

/// A batch of items.
pub struct Batch<T> {
    pub items: Vec<T>,
}

/// Accumulates items and hands out a full batch every `batch_size` items;
/// what is left is handed out by [`Batcher::finish`].
pub struct Batcher<T> {
    batch_size: usize,
    pending: Vec<T>,
}

impl<T> Batcher<T> {
    /// The items accumulated since the last batch was handed out.
    pub closed spec fn pending(&self) -> Seq<T> {
        self.pending@
    }

    /// The configured batch size.
    pub closed spec fn size(&self) -> usize {
        self.batch_size
    }

    /// An empty batcher for batches of `batch_size` items.
    pub fn new(batch_size: usize) -> (r: Self)
        ensures
            r.pending() == Seq::<T>::empty(),
            r.size() == batch_size,
    {
        Batcher { batch_size, pending: Vec::new() }
    }

    /// Add an item; once `batch_size` items are pending they are handed
    /// out as one batch.
    pub fn push(&mut self, item: T) -> (r: Option<Batch<T>>)
        ensures
            final(self).size() == old(self).size(),
            (batch_items(r), final(self).pending()) == push_step(
                old(self).pending(),
                item,
                old(self).size() as nat,
            ),
    {
        self.pending.push(item);
        if self.pending.len() >= self.batch_size {
            let mut items: Vec<T> = Vec::new();
            std::mem::swap(&mut items, &mut self.pending);
            Some(Batch { items })
        } else {
            None
        }
    }

    /// The pending items as a last batch, when there are any.
    pub fn finish(self) -> (r: Option<Batch<T>>)
        ensures
            batch_items(r) == finish_step(self.pending()),
    {
        if self.pending.len() > 0 {
            Some(Batch { items: self.pending })
        } else {
            None
        }
    }
}

/// The items of a handed-out batch.
pub open spec fn batch_items<T>(b: Option<Batch<T>>) -> Option<Seq<T>> {
    match b {
        Some(b) => Some(b.items@),
        None => None,
    }
}

/// One push: the batch handed out (if any) and the new pending items.
pub open spec fn push_step<T>(pending: Seq<T>, item: T, n: nat) -> (Option<Seq<T>>, Seq<T>) {
    let p = pending.push(item);
    if p.len() >= n {
        (Some(p), Seq::<T>::empty())
    } else {
        (None, p)
    }
}

/// Finishing: the last batch, if any items are pending.
pub open spec fn finish_step<T>(pending: Seq<T>) -> Option<Seq<T>> {
    if pending.len() > 0 {
        Some(pending)
    } else {
        None
    }
}

/// The batches handed out when `items` are pushed one by one onto a
/// batcher holding `pending`, and the batcher is then finished.
pub open spec fn emitted<T>(pending: Seq<T>, items: Seq<T>, n: nat) -> Seq<Seq<T>>
    decreases items.len(),
{
    if items.len() == 0 {
        match finish_step(pending) {
            Some(b) => seq![b],
            None => seq![],
        }
    } else {
        let (out, next) = push_step(pending, items[0], n);
        let rest = emitted(next, items.drop_first(), n);
        match out {
            Some(b) => seq![b] + rest,
            None => rest,
        }
    }
}

/// Batching cuts the input into consecutive batches of `n` items, the last
/// one holding the rest: pushing every item onto a new batcher and then
/// finishing it hands out exactly `chunks(items, n)`.
pub proof fn lemma_batches_are_chunks<T>(items: Seq<T>, n: nat)
    requires
        n > 0,
    ensures
        emitted(Seq::<T>::empty(), items, n) == chunks(items, n),
{
    lemma_emitted_from(Seq::<T>::empty(), items, n);
    assert(Seq::<T>::empty() + items == items);
}

proof fn lemma_emitted_from<T>(p: Seq<T>, items: Seq<T>, n: nat)
    requires
        n > 0,
        p.len() < n,
    ensures
        emitted(p, items, n) == chunks(p + items, n),
    decreases items.len(),
{
    if items.len() == 0 {
        assert(p + items == p);
    } else {
        let q = p.push(items[0]);
        let rest = items.drop_first();
        assert(p + items == q + rest);
        lemma_emitted_from(if q.len() >= n { Seq::<T>::empty() } else { q }, rest, n);
        if q.len() >= n {
            assert(Seq::<T>::empty() + rest == rest);
            if rest.len() > 0 {
                assert((q + rest).take(n as int) == q);
                assert((q + rest).skip(n as int) == rest);
            } else {
                assert(q + rest == q);
            }
        }
    }
}

/// `items` cut into consecutive batches of `n` (the last one may be
/// shorter).
pub open spec fn chunks<T>(items: Seq<T>, n: nat) -> Seq<Seq<T>>
    decreases items.len(),
{
    if n == 0 || items.len() == 0 {
        seq![]
    } else if items.len() <= n {
        seq![items]
    } else {
        seq![items.take(n as int)] + chunks(items.skip(n as int), n)
    }
}

} // verus!
