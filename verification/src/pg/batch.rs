//! Buffered COPY with FK-ordered flush.
//!
//! [`BatchCopier`] keeps one byte buffer per table and flushes them in the
//! order the tables were registered (FK parents before children) once a
//! batch threshold is reached.

use vstd::prelude::*;
use vstd::string::StringExecFns;

verus! {

/// Why a COPY into the target failed.
#[derive(Debug, PartialEq, Eq)]
pub struct CopyError {
    /// What the target reported.
    pub message: String,
}

/// One COPY operation as a target saw it: the statement, the data handed
/// over, and what the target answered.
pub type CopyCall = (Seq<char>, Seq<u8>, Result<(), CopyError>);

/// The `COPY ... FROM STDIN` operation, implemented for a real PostgreSQL
/// connection or a test double. Implementations promise what `copy_in`
/// states of the call log below.
pub trait CopyTarget {
    /// Every `copy_in` call so far, in order, with its statement, its data
    /// and its result. An implementation that Verus checks defines this
    /// log; the default here only lets unverified implementations compile.
    open spec fn calls(&self) -> Seq<CopyCall> {
        Seq::empty()
    }

    /// Execute a COPY operation, writing `data` into the table named by
    /// `stmt` (a full statement such as `COPY release (id, title) FROM STDIN`).
    /// The call is logged with exactly the statement and data handed over
    /// and the result returned.
    fn copy_in(&mut self, stmt: &str, data: &[u8]) -> (r: Result<(), CopyError>)
        ensures
            final(self).calls() == old(self).calls().push((stmt@, data@, r));
}

/// The log entries of COPY operations that all succeeded.
pub open spec fn as_ok(copies: Seq<(Seq<char>, Seq<u8>)>) -> Seq<CopyCall> {
    copies.map_values(|c: (Seq<char>, Seq<u8>)| (c.0, c.1, Ok::<(), CopyError>(())))
}

/// A named byte buffer for one table's COPY data.
pub struct CopyBuffer {
    /// The full COPY statement (e.g., `COPY release (id, title) FROM STDIN`).
    pub stmt: String,
    /// Accumulated COPY TEXT data.
    pub data: Vec<u8>,
}

impl CopyBuffer {
    /// An empty buffer for the statement `stmt`.
    pub fn new(stmt: &str) -> (r: Self)
        ensures
            r.stmt@ == stmt@,
            r.data@ == Seq::<u8>::empty(),
    {
        CopyBuffer { stmt: String::from_str(stmt), data: Vec::new() }
    }

    /// Whether no data is buffered.
    pub fn is_empty(&self) -> (r: bool)
        ensures
            r == (self.data@.len() == 0),
    {
        self.data.len() == 0
    }
}

/// One registered table as the contracts see it: name, COPY statement and
/// buffered bytes.
pub type TableEntry = (Seq<char>, Seq<char>, Seq<u8>);

/// Index of the entry named `name`.
pub open spec fn entry_index(entries: Seq<TableEntry>, name: Seq<char>) -> Option<int>
    decreases entries.len(),
{
    if entries.len() == 0 {
        None
    } else if entries.last().0 == name {
        Some(entries.len() - 1)
    } else {
        entry_index(entries.drop_last(), name)
    }
}

/// The entries built from `(name, stmt)` pairs: one per distinct name, in
/// order of first appearance, holding the statement of the name's last
/// pair and no data.
pub open spec fn registered(tables: Seq<(Seq<char>, Seq<char>)>) -> Seq<TableEntry>
    decreases tables.len(),
{
    if tables.len() == 0 {
        seq![]
    } else {
        let prev = registered(tables.drop_last());
        let (n, s) = tables.last();
        match entry_index(prev, n) {
            Some(k) => prev.update(k, (n, s, Seq::<u8>::empty())),
            None => prev.push((n, s, Seq::<u8>::empty())),
        }
    }
}

/// Entry names are distinct and every name in `order` has an entry.
pub open spec fn wf_entries(entries: Seq<TableEntry>, order: Seq<Seq<char>>) -> bool {
    &&& names_distinct(entries)
    &&& forall|i: int| 0 <= i < order.len() ==> entry_index(entries, #[trigger] order[i]) is Some
    &&& forall|k: int| 0 <= k < entries.len() ==> order.contains((#[trigger] entries[k]).0)
}

/// The COPY operations a flush performs: for each name in flush order, the
/// statement and data of its buffer when that is not empty (a buffer is
/// emptied once copied, so a name listed twice is copied once).
pub open spec fn planned_copies(order: Seq<Seq<char>>, entries: Seq<TableEntry>) -> Seq<(Seq<char>, Seq<u8>)>
    decreases order.len(),
{
    if order.len() == 0 {
        seq![]
    } else {
        match entry_index(entries, order[0]) {
            None => planned_copies(order.drop_first(), entries),
            Some(k) => {
                let e = entries[k];
                if e.2.len() > 0 {
                    seq![(e.1, e.2)] + planned_copies(
                        order.drop_first(),
                        entries.update(k, (e.0, e.1, Seq::<u8>::empty())),
                    )
                } else {
                    planned_copies(order.drop_first(), entries)
                }
            },
        }
    }
}

/// No two entries share a name.
pub open spec fn names_distinct(entries: Seq<TableEntry>) -> bool {
    forall|a: int, b: int|
        0 <= a < entries.len() && 0 <= b < entries.len() && a != b ==> entries[a].0 != entries[b].0
}

/// Manages one [`CopyBuffer`] per table and flushes them in FK-safe order:
/// the order the tables were registered in.
pub struct BatchCopier {
    /// Table names in flush order (FK parent first).
    table_order: Vec<String>,
    /// Per-table buffers, one per distinct table name.
    buffers: Vec<(String, CopyBuffer)>,
    /// Number of records buffered since the last flush.
    pub batch_count: usize,
    /// Flush threshold.
    batch_size: usize,
    /// Total records flushed.
    total_written: usize,
}

impl BatchCopier {
    /// Table names in flush order.
    pub closed spec fn order(&self) -> Seq<Seq<char>> {
        self.table_order@.map_values(|s: String| s@)
    }

    /// The registered tables with their statements and buffered data.
    pub closed spec fn entries(&self) -> Seq<TableEntry> {
        self.buffers@.map_values(|e: (String, CopyBuffer)| (e.0@, e.1.stmt@, e.1.data@))
    }

    /// The flush threshold.
    pub closed spec fn spec_batch_size(&self) -> usize {
        self.batch_size
    }

    /// Records counted in the current batch.
    pub closed spec fn spec_batch_count(&self) -> usize {
        self.batch_count
    }

    /// Records flushed so far.
    pub closed spec fn spec_total_written(&self) -> usize {
        self.total_written
    }

    /// Every name in the flush order is registered exactly once.
    pub open spec fn wf(&self) -> bool {
        wf_entries(self.entries(), self.order())
    }

    /// The data buffered for `name`.
    pub open spec fn data_of(&self, name: Seq<char>) -> Seq<u8> {
        self.entries()[entry_index(self.entries(), name)->0].2
    }

    /// Create a `BatchCopier` for `(table_name, copy_stmt)` pairs, given in
    /// FK order; tables are flushed in the order provided.
    pub fn new(tables: &[(&str, &str)], batch_size: usize) -> (r: Self)
        ensures
            r.wf(),
            r.order() == tables@.map_values(|t: (&str, &str)| t.0@),
            r.entries() == registered(tables@.map_values(|t: (&str, &str)| (t.0@, t.1@))),
            r.spec_batch_count() == 0,
            r.spec_total_written() == 0,
            r.spec_batch_size() == batch_size,
    {
        let ghost pairs = tables@.map_values(|t: (&str, &str)| (t.0@, t.1@));
        let ghost names = tables@.map_values(|t: (&str, &str)| t.0@);
        let mut table_order: Vec<String> = Vec::new();
        let mut buffers: Vec<(String, CopyBuffer)> = Vec::new();
        let mut i: usize = 0;
        while i < tables.len()
            invariant
                i <= tables@.len(),
                pairs == tables@.map_values(|t: (&str, &str)| (t.0@, t.1@)),
                names == tables@.map_values(|t: (&str, &str)| t.0@),
                table_order@.map_values(|s: String| s@) == names.take(i as int),
                buffers@.map_values(|e: (String, CopyBuffer)| (e.0@, e.1.stmt@, e.1.data@))
                    == registered(pairs.take(i as int)),
                names_distinct(buffers@.map_values(|e: (String, CopyBuffer)| (e.0@, e.1.stmt@, e.1.data@))),
                forall|j: int| 0 <= j < i ==> entry_index(
                    buffers@.map_values(|e: (String, CopyBuffer)| (e.0@, e.1.stmt@, e.1.data@)),
                    #[trigger] names[j],
                ) is Some,
                forall|k: int| 0 <= k < buffers@.len() ==> names.take(i as int).contains(
                    (#[trigger] buffers@[k]).0@,
                ),
            decreases tables.len() - i,
        {
            let (name, stmt) = tables[i];
            let ghost before = buffers@.map_values(|e: (String, CopyBuffer)| (e.0@, e.1.stmt@, e.1.data@));
            assert(pairs.take(i + 1).drop_last() == pairs.take(i as int));
            assert(pairs.take(i + 1).last() == (name@, stmt@));
            let found = find_entry(&buffers, name);
            match found {
                Some(k) => {
                    proof {
                        lemma_entry_index_bound(before, name@);
                    }
                    let old_entry = buffers.remove(k);
                    buffers.insert(k, (old_entry.0, CopyBuffer::new(stmt)));
                    proof {
                        let after = buffers@.map_values(|e: (String, CopyBuffer)| (e.0@, e.1.stmt@, e.1.data@));
                        assert(after =~= before.update(k as int, (name@, stmt@, Seq::<u8>::empty())));
                        lemma_entry_index_update(before, k as int, (name@, stmt@, Seq::<u8>::empty()));
                        assert forall|j: int| 0 <= j < i + 1 implies entry_index(after, #[trigger] names[j]) is Some by {
                            lemma_entry_index_keep(before, k as int, (name@, stmt@, Seq::<u8>::empty()), names[j]);
                        }
                    }
                },
                None => {
                    buffers.push((String::from_str(name), CopyBuffer::new(stmt)));
                    proof {
                        let after = buffers@.map_values(|e: (String, CopyBuffer)| (e.0@, e.1.stmt@, e.1.data@));
                        assert(after =~= before.push((name@, stmt@, Seq::<u8>::empty())));
                        lemma_entry_index_none(before, name@);
                        lemma_entry_index_push(before, (name@, stmt@, Seq::<u8>::empty()));
                        assert forall|j: int| 0 <= j < i + 1 implies entry_index(after, #[trigger] names[j]) is Some by {
                            if j < i {
                                lemma_entry_index_push_other(before, (name@, stmt@, Seq::<u8>::empty()), names[j]);
                            }
                        }
                    }
                },
            }
            table_order.push(String::from_str(name));
            proof {
                assert(names.take(i + 1) == names.take(i as int).push(name@));
                assert forall|k: int| 0 <= k < buffers@.len() implies names.take(i + 1).contains(
                    (#[trigger] buffers@[k]).0@,
                ) by {
                    let bv = buffers@.map_values(|e: (String, CopyBuffer)| (e.0@, e.1.stmt@, e.1.data@));
                    assert(bv[k].0 == buffers@[k].0@);
                    if k < before.len() {
                        assert(bv[k].0 == before[k].0);
                        let bw = before[k].0;
                        if names.take(i as int).contains(bw) {
                            let w = choose|w: int| 0 <= w < names.take(i as int).len() && #[trigger] names.take(i as int)[w] == bw;
                            assert(names.take(i + 1)[w] == bw);
                        }
                    } else {
                        assert(names.take(i + 1)[i as int] == name@);
                    }
                }
                assert(table_order@.map_values(|s: String| s@) =~= names.take(i + 1));
            }
            i += 1;
        }
        assert(pairs.take(tables@.len() as int) == pairs);
        assert(names.take(tables@.len() as int) == names);
        BatchCopier {
            table_order,
            buffers,
            batch_count: 0,
            batch_size,
            total_written: 0,
        }
    }

    /// The data buffer of a registered table, for writing COPY rows.
    ///
    /// Panics (with "unknown table") when `table` was not registered; the
    /// contract leaves that input out.
    pub fn buffer(&mut self, table: &str) -> (r: &mut Vec<u8>)
        requires
            old(self).wf(),
            entry_index(old(self).entries(), table@) is Some,
        ensures
            r@ == old(self).data_of(table@),
            wf_entries(old(self).entries().update(
                entry_index(old(self).entries(), table@)->0,
                (table@, old(self).entries()[entry_index(old(self).entries(), table@)->0].1, final(r)@),
            ), old(self).order()),
            final(self).order() == old(self).order(),
            final(self).entries() == old(self).entries().update(
                entry_index(old(self).entries(), table@)->0,
                (table@, old(self).entries()[entry_index(old(self).entries(), table@)->0].1, final(r)@),
            ),
            final(self).spec_batch_count() == old(self).spec_batch_count(),
            final(self).spec_total_written() == old(self).spec_total_written(),
            final(self).spec_batch_size() == old(self).spec_batch_size(),
    {
        let found = find_entry(&self.buffers, table);
        let k = found.expect("unknown table");
        proof {
            lemma_entry_index_bound(self.entries(), table@);
        }
        proof {
            let es = self.entries();
            assert forall|e: TableEntry| e.0 == es[k as int].0 implies #[trigger] wf_entries(es.update(k as int, e), self.order()) by {
                lemma_entry_index_update(es, k as int, e);
                assert forall|j: int| 0 <= j < self.order().len() implies entry_index(
                    es.update(k as int, e),
                    #[trigger] self.order()[j],
                ) is Some by {
                    lemma_entry_index_keep(es, k as int, e, self.order()[j]);
                }
            }
        }
        let entry = &mut self.buffers[k];
        &mut entry.1.data
    }

    /// Count one record and flush once the threshold is reached.
    ///
    /// Below the threshold nothing is handed to the target. At the
    /// threshold this is [`BatchCopier::flush`] with the record counted in
    /// the batch.
    pub fn count_and_maybe_flush<T: CopyTarget>(&mut self, target: &mut T) -> (r: Result<(), CopyError>)
        requires
            old(self).wf(),
            old(self).spec_batch_count() < usize::MAX,
            old(self).spec_total_written() + old(self).spec_batch_count() + 1 <= usize::MAX,
        ensures
            final(self).wf(),
            final(self).order() == old(self).order(),
            final(self).spec_batch_size() == old(self).spec_batch_size(),
            old(self).spec_batch_count() + 1 < old(self).spec_batch_size() ==> {
                &&& r is Ok
                &&& final(target).calls() == old(target).calls()
                &&& final(self).spec_batch_count() == old(self).spec_batch_count() + 1
                &&& final(self).entries() == old(self).entries()
                &&& final(self).spec_total_written() == old(self).spec_total_written()
            },
            old(self).spec_batch_count() + 1 >= old(self).spec_batch_size() ==> {
                &&& all_empty(old(self).entries()) ==> r is Ok && final(target).calls() == old(target).calls()
                &&& r is Ok ==> {
                    &&& final(target).calls() == old(target).calls() + as_ok(
                        planned_copies(old(self).order(), old(self).entries()),
                    )
                    &&& final(self).entries() == cleared_through(old(self).entries(), old(self).order())
                    &&& all_empty(final(self).entries())
                    &&& final(self).spec_batch_count() == 0
                    &&& final(self).spec_total_written() == old(self).spec_total_written()
                        + old(self).spec_batch_count() + 1
                }
                &&& r is Err ==> {
                    &&& flush_failed_at(
                        old(self).order(),
                        old(self).entries(),
                        old(target).calls(),
                        final(target).calls(),
                        r,
                        *final(self),
                    )
                    &&& final(self).spec_batch_count() == old(self).spec_batch_count() + 1
                    &&& final(self).spec_total_written() == old(self).spec_total_written()
                }
            },
    {
        self.batch_count = self.batch_count + 1;
        if self.batch_count >= self.batch_size {
            self.flush(target)
        } else {
            Ok(())
        }
    }

    /// Flush every non-empty buffer to the target in FK order, then count
    /// the batch as written. Nothing is copied when nothing is buffered.
    ///
    /// On success the target received, in flush order, one COPY of each
    /// non-empty buffer with its statement and data; every buffer is empty,
    /// the batch's records are added to the total and the batch counter is
    /// reset. When the target refuses the COPY of the `j`-th table in flush
    /// order, the tables before it were copied (each non-empty buffer once,
    /// in order) and emptied, that table's COPY was the last one handed over
    /// and its error is the one returned, that table and the later ones keep
    /// their data, and the counters are unchanged.
    pub fn flush<T: CopyTarget>(&mut self, target: &mut T) -> (r: Result<(), CopyError>)
        requires
            old(self).wf(),
            old(self).spec_total_written() + old(self).spec_batch_count() <= usize::MAX,
        ensures
            final(self).wf(),
            final(self).order() == old(self).order(),
            final(self).spec_batch_size() == old(self).spec_batch_size(),
            all_empty(old(self).entries()) ==> r is Ok && final(target).calls() == old(target).calls(),
            r is Ok ==> {
                &&& final(target).calls() == old(target).calls() + as_ok(
                    planned_copies(old(self).order(), old(self).entries()),
                )
                &&& final(self).entries() == cleared_through(old(self).entries(), old(self).order())
                &&& all_empty(final(self).entries())
                &&& final(self).spec_batch_count() == 0
                &&& final(self).spec_total_written() == old(self).spec_total_written()
                    + old(self).spec_batch_count()
            },
            r is Err ==> {
                &&& flush_failed_at(
                    old(self).order(),
                    old(self).entries(),
                    old(target).calls(),
                    final(target).calls(),
                    r,
                    *final(self),
                )
                &&& final(self).spec_batch_count() == old(self).spec_batch_count()
                &&& final(self).spec_total_written() == old(self).spec_total_written()
            },
    {
        let ghost start = self.entries();
        let ghost order = self.order();
        let ghost calls0 = target.calls();
        let mut i: usize = 0;
        assert(order.take(0) =~= Seq::<Seq<char>>::empty());
        assert(cleared_through(start, order.take(0)) =~= start);
        assert(calls0 + as_ok(planned_copies(order.take(0), start)) =~= calls0);
        proof {
            if all_empty(start) {
                lemma_planned_none(order, start);
            }
        }
        while i < self.table_order.len()
            invariant
                self.wf(),
                i <= order.len(),
                order == self.order(),
                self.order() == old(self).order(),
                self.batch_count == old(self).spec_batch_count(),
                self.batch_size == old(self).batch_size,
                self.total_written == old(self).total_written,
                start == old(self).entries(),
                calls0 == old(target).calls(),
                names_distinct(start),
                self.entries() == cleared_through(start, order.take(i as int)),
                target.calls() == calls0 + as_ok(planned_copies(order.take(i as int), start)),
                all_empty(start) ==> planned_copies(order, start) == Seq::<(Seq<char>, Seq<u8>)>::empty(),
            decreases self.table_order.len() - i,
        {
            let found = find_entry(&self.buffers, self.table_order[i].as_str());
            let ghost name = order[i as int];
            let ghost es = self.entries();
            proof {
                assert(order[i as int] == self.table_order@[i as int]@);
                lemma_entry_index_bound(es, name);
                assert(order.take(i + 1) == order.take(i as int).push(name));
                lemma_planned_step(order.take(i as int), name, start);
            }
            let k = found.unwrap();
            if self.buffers[k].1.data.len() > 0 {
                proof {
                    assert(es[k as int] == (self.buffers@[k as int].0@, self.buffers@[k as int].1.stmt@, self.buffers@[k as int].1.data@));
                    assert(copy_step(name, es) == seq![(es[k as int].1, es[k as int].2)]);
                }
                let res = target.copy_in(self.buffers[k].1.stmt.as_str(), self.buffers[k].1.data.as_slice());
                let ghost answer = res;
                match res {
                    Err(e) => {
                        proof {
                            assert(es[k as int].2 == start[k as int].2 || es[k as int].2.len() == 0);
                            if order.take(i as int).contains(name) {
                                assert(es[k as int].2.len() == 0);
                            }
                            lemma_entry_index_of_distinct(start, k as int);
                            assert(start[k as int].0 == name);
                            assert(target.calls() =~= calls0 + as_ok(planned_copies(order.take(i as int), start)).push(
                                (start[k as int].1, start[k as int].2, Err(e)),
                            ));
                            assert(flush_failed_at_index(order, start, calls0, target.calls(), Err(e), *self, i as int));
                        }
                        return Err(e);
                    },
                    Ok(()) => {},
                }
                proof {
                    let unit: () = answer->Ok_0;
                    assert(unit == ());
                    assert(answer == Ok::<(), CopyError>(()));
                    let p = planned_copies(order.take(i as int), start);
                    let c = (es[k as int].1, es[k as int].2);
                    assert(as_ok(p + seq![c]) =~= as_ok(p).push((c.0, c.1, Ok::<(), CopyError>(()))));
                    assert(planned_copies(order.take(i + 1), start) == p + seq![c]);
                    assert(target.calls() == calls0 + as_ok(p).push((c.0, c.1, Ok::<(), CopyError>(()))));
                    assert(target.calls() =~= calls0 + as_ok(p + seq![c]));
                }
                self.buffers[k].1.data.clear();
                proof {
                    let cleared = (es[k as int].0, es[k as int].1, Seq::<u8>::empty());
                    assert(self.entries() =~= es.update(k as int, cleared));
                    lemma_entry_index_update(es, k as int, cleared);
                    assert forall|j: int| 0 <= j < self.order().len() implies entry_index(
                        self.entries(),
                        #[trigger] self.order()[j],
                    ) is Some by {
                        lemma_entry_index_keep(es, k as int, cleared, self.order()[j]);
                    }
                    assert forall|m: int| 0 <= m < self.entries().len() implies self.order().contains(
                        (#[trigger] self.entries()[m]).0,
                    ) by {
                        assert(self.entries()[m].0 == es[m].0);
                    }
                    assert forall|m: int| 0 <= m < start.len() implies #[trigger] self.entries()[m]
                        == cleared_through(start, order.take(i + 1))[m] by {
                        if m != k {
                            lemma_entry_index_of_distinct(start, m);
                            lemma_entry_index_of_distinct(start, k as int);
                            assert(start[m].0 != name);
                            assert(order.take(i + 1).contains(start[m].0) == order.take(i as int).contains(
                                start[m].0,
                            )) by {
                                if order.take(i + 1).contains(start[m].0) {
                                    let w = choose|w: int| 0 <= w < order.take(i + 1).len() && #[trigger] order.take(i + 1)[w] == start[m].0;
                                    assert(w < i);
                                    assert(order.take(i as int)[w] == start[m].0);
                                }
                                if order.take(i as int).contains(start[m].0) {
                                    let w = choose|w: int| 0 <= w < order.take(i as int).len() && #[trigger] order.take(i as int)[w] == start[m].0;
                                    assert(order.take(i + 1)[w] == start[m].0);
                                }
                            }
                        } else {
                            assert(order.take(i + 1)[i as int] == name);
                        }
                    }
                    assert(self.entries() =~= cleared_through(start, order.take(i + 1)));
                    assert(target.calls() =~= calls0 + as_ok(planned_copies(order.take(i + 1), start)));
                }
            } else {
                proof {
                    assert(copy_step(name, es) =~= Seq::<(Seq<char>, Seq<u8>)>::empty());
                    lemma_entry_index_of_distinct(start, k as int);
                    assert forall|m: int| 0 <= m < start.len() implies #[trigger] self.entries()[m]
                        == cleared_through(start, order.take(i + 1))[m] by {
                        if m != k {
                            lemma_entry_index_of_distinct(start, m);
                            assert(start[m].0 != name);
                            if order.take(i + 1).contains(start[m].0) {
                                let w = choose|w: int| 0 <= w < order.take(i + 1).len() && #[trigger] order.take(i + 1)[w] == start[m].0;
                                assert(w < i);
                                assert(order.take(i as int)[w] == start[m].0);
                            }
                            if order.take(i as int).contains(start[m].0) {
                                let w = choose|w: int| 0 <= w < order.take(i as int).len() && #[trigger] order.take(i as int)[w] == start[m].0;
                                assert(order.take(i + 1)[w] == start[m].0);
                            }
                        } else {
                            assert(order.take(i + 1)[i as int] == name);
                            assert(es[k as int].2 =~= Seq::<u8>::empty());
                        }
                    }
                    assert(self.entries() =~= cleared_through(start, order.take(i + 1)));
                    assert(planned_copies(order.take(i + 1), start) =~= planned_copies(order.take(i as int), start));
                }
            }
            i += 1;
        }
        proof {
            assert(order.take(order.len() as int) == order);
            assert forall|k: int| 0 <= k < start.len() implies (#[trigger] self.entries()[k]).2.len() == 0 by {
                assert(order.contains(start[k].0));
            }
        }
        self.total_written = self.total_written + self.batch_count;
        self.batch_count = 0;
        Ok(())
    }

    /// Number of records flushed so far (not counting the current batch).
    pub fn total_written(&self) -> (r: usize)
        ensures
            r == self.spec_total_written(),
    {
        self.total_written
    }

    /// Number of records in the current unflushed batch.
    pub fn batch_count(&self) -> (r: usize)
        ensures
            r == self.spec_batch_count(),
    {
        self.batch_count
    }
}

/// A flush over tables `order` with buffers `es` failed at the `j`-th
/// table: that table's buffer was not empty and is the first occurrence of
/// its name; the target's log went from `calls` to `after_calls` by the
/// successful COPY operations planned for the tables before it followed by
/// the COPY of its own statement and data, answered with `r`; the tables
/// before it are emptied and the rest keep their data.
pub open spec fn flush_failed_at_index(
    order: Seq<Seq<char>>,
    es: Seq<TableEntry>,
    calls: Seq<CopyCall>,
    after_calls: Seq<CopyCall>,
    r: Result<(), CopyError>,
    after: BatchCopier,
    j: int,
) -> bool {
    &&& 0 <= j < order.len()
    &&& entry_index(es, order[j]) is Some
    &&& !order.take(j).contains(order[j])
    &&& es[entry_index(es, order[j])->0].2.len() > 0
    &&& after_calls == calls + as_ok(planned_copies(order.take(j), es)).push(
        (es[entry_index(es, order[j])->0].1, es[entry_index(es, order[j])->0].2, r),
    )
    &&& after.entries() == cleared_through(es, order.take(j))
}

/// A flush failed at some table (see [`flush_failed_at_index`]).
pub open spec fn flush_failed_at(
    order: Seq<Seq<char>>,
    es: Seq<TableEntry>,
    calls: Seq<CopyCall>,
    after_calls: Seq<CopyCall>,
    r: Result<(), CopyError>,
    after: BatchCopier,
) -> bool {
    exists|j: int| #[trigger] flush_failed_at_index(order, es, calls, after_calls, r, after, j)
}

/// Index of the buffer registered under `name`.
fn find_entry(buffers: &Vec<(String, CopyBuffer)>, name: &str) -> (r: Option<usize>)
    ensures
        match r {
            None => entry_index(buffers@.map_values(|e: (String, CopyBuffer)| (e.0@, e.1.stmt@, e.1.data@)), name@) is None,
            Some(k) => entry_index(buffers@.map_values(|e: (String, CopyBuffer)| (e.0@, e.1.stmt@, e.1.data@)), name@) == Some(k as int)
                && k < buffers@.len(),
        },
{
    let ghost es = buffers@.map_values(|e: (String, CopyBuffer)| (e.0@, e.1.stmt@, e.1.data@));
    let target = crate::text::chars::chars_of(name);
    let mut j: usize = buffers.len();
    assert(es.take(es.len() as int) == es);
    while j > 0
        invariant
            j <= buffers@.len(),
            es == buffers@.map_values(|e: (String, CopyBuffer)| (e.0@, e.1.stmt@, e.1.data@)),
            target@ == name@,
            entry_index(es, name@) == entry_index(es.take(j as int), name@),
        decreases j,
    {
        assert(es.take(j as int).drop_last() == es.take(j - 1));
        assert(es.take(j as int).last() == es[j - 1]);
        let cand = crate::text::chars::chars_of(buffers[j - 1].0.as_str());
        if crate::text::chars::chars_eq(&cand, &target) {
            return Some(j - 1);
        }
        j -= 1;
    }
    None
}

proof fn lemma_entry_index_bound(entries: Seq<TableEntry>, name: Seq<char>)
    ensures
        entry_index(entries, name) matches Some(k) ==> 0 <= k < entries.len() && entries[k].0 == name,
    decreases entries.len(),
{
    if entries.len() > 0 && entries.last().0 != name {
        lemma_entry_index_bound(entries.drop_last(), name);
    }
}

proof fn lemma_entry_index_none(entries: Seq<TableEntry>, name: Seq<char>)
    requires
        entry_index(entries, name) is None,
    ensures
        forall|k: int| 0 <= k < entries.len() ==> (#[trigger] entries[k]).0 != name,
    decreases entries.len(),
{
    if entries.len() > 0 {
        lemma_entry_index_none(entries.drop_last(), name);
        assert forall|k: int| 0 <= k < entries.len() implies (#[trigger] entries[k]).0 != name by {
            if k < entries.len() - 1 {
                assert(entries[k] == entries.drop_last()[k]);
            }
        }
    }
}

proof fn lemma_entry_index_of_distinct(entries: Seq<TableEntry>, k: int)
    requires
        names_distinct(entries),
        0 <= k < entries.len(),
    ensures
        entry_index(entries, entries[k].0) == Some(k),
    decreases entries.len(),
{
    if k < entries.len() - 1 {
        let d = entries.drop_last();
        assert(d[k] == entries[k]);
        assert forall|a: int, b: int| 0 <= a < d.len() && 0 <= b < d.len() && a != b implies d[a].0 != d[b].0 by {
            assert(d[a] == entries[a]);
            assert(d[b] == entries[b]);
        }
        lemma_entry_index_of_distinct(d, k);
    }
}

proof fn lemma_entry_index_update(entries: Seq<TableEntry>, k: int, e: TableEntry)
    requires
        names_distinct(entries),
        0 <= k < entries.len(),
        e.0 == entries[k].0,
    ensures
        names_distinct(entries.update(k, e)),
{
    let u = entries.update(k, e);
    assert forall|a: int, b: int| 0 <= a < u.len() && 0 <= b < u.len() && a != b implies u[a].0 != u[b].0 by {
        assert(u[a].0 == entries[a].0);
        assert(u[b].0 == entries[b].0);
    }
}

proof fn lemma_entry_index_keep(entries: Seq<TableEntry>, k: int, e: TableEntry, name: Seq<char>)
    requires
        0 <= k < entries.len(),
        e.0 == entries[k].0,
    ensures
        entry_index(entries.update(k, e), name) == entry_index(entries, name),
    decreases entries.len(),
{
    let u = entries.update(k, e);
    if k == entries.len() - 1 {
        assert(u.drop_last() == entries.drop_last());
    } else {
        assert(u.drop_last() == entries.drop_last().update(k, e));
        assert(u.last() == entries.last());
        lemma_entry_index_keep(entries.drop_last(), k, e, name);
    }
}

proof fn lemma_entry_index_push(entries: Seq<TableEntry>, e: TableEntry)
    requires
        names_distinct(entries),
        forall|k: int| 0 <= k < entries.len() ==> (#[trigger] entries[k]).0 != e.0,
    ensures
        names_distinct(entries.push(e)),
{
    let u = entries.push(e);
    assert forall|a: int, b: int| 0 <= a < u.len() && 0 <= b < u.len() && a != b implies u[a].0 != u[b].0 by {
        if a < entries.len() {
            assert(u[a] == entries[a]);
        }
        if b < entries.len() {
            assert(u[b] == entries[b]);
        }
    }
}

proof fn lemma_entry_index_push_other(entries: Seq<TableEntry>, e: TableEntry, name: Seq<char>)
    requires
        entry_index(entries, name) is Some,
    ensures
        entry_index(entries.push(e), name) is Some,
{
    assert(entries.push(e).drop_last() == entries);
}

/// The entries with the buffer of every table named in `names` emptied.
pub open spec fn cleared_through(entries: Seq<TableEntry>, names: Seq<Seq<char>>) -> Seq<TableEntry> {
    entries.map_values(
        |e: TableEntry|
            if names.contains(e.0) {
                (e.0, e.1, Seq::<u8>::empty())
            } else {
                e
            },
    )
}

/// The COPY a flush makes for table `name` given the current entries: its
/// statement and data when its buffer is not empty, else none.
pub open spec fn copy_step(name: Seq<char>, entries: Seq<TableEntry>) -> Seq<(Seq<char>, Seq<u8>)> {
    match entry_index(entries, name) {
        None => seq![],
        Some(k) => if entries[k].2.len() > 0 {
            seq![(entries[k].1, entries[k].2)]
        } else {
            seq![]
        },
    }
}

/// With every buffer empty a flush plans no COPY.
proof fn lemma_planned_none(order: Seq<Seq<char>>, es: Seq<TableEntry>)
    requires
        all_empty(es),
    ensures
        planned_copies(order, es) == Seq::<(Seq<char>, Seq<u8>)>::empty(),
    decreases order.len(),
{
    if order.len() > 0 {
        lemma_entry_index_bound(es, order[0]);
        lemma_planned_none(order.drop_first(), es);
    }
}

/// Every buffer is empty.
pub open spec fn all_empty(entries: Seq<TableEntry>) -> bool {
    forall|k: int| 0 <= k < entries.len() ==> (#[trigger] entries[k]).2.len() == 0
}

proof fn lemma_entry_index_names(a: Seq<TableEntry>, b: Seq<TableEntry>, name: Seq<char>)
    requires
        a.len() == b.len(),
        forall|k: int| 0 <= k < a.len() ==> (#[trigger] a[k]).0 == b[k].0,
    ensures
        entry_index(a, name) == entry_index(b, name),
    decreases a.len(),
{
    if a.len() > 0 {
        assert(a.last().0 == b[b.len() - 1].0);
        assert forall|k: int| 0 <= k < a.drop_last().len() implies (#[trigger] a.drop_last()[k]).0
            == b.drop_last()[k].0 by {
            assert(a.drop_last()[k] == a[k]);
            assert(b.drop_last()[k] == b[k]);
        }
        lemma_entry_index_names(a.drop_last(), b.drop_last(), name);
    }
}

/// Planning the copies of `o` followed by `n` is planning `o`, then the
/// copy for `n` on the buffers `o` left.
proof fn lemma_planned_step(o: Seq<Seq<char>>, n: Seq<char>, e: Seq<TableEntry>)
    requires
        names_distinct(e),
    ensures
        planned_copies(o.push(n), e) == planned_copies(o, e) + copy_step(n, cleared_through(e, o)),
    decreases o.len(),
{
    if o.len() == 0 {
        assert(cleared_through(e, o) =~= e);
        assert(o.push(n) == seq![n]);
        assert(seq![n].drop_first() =~= Seq::<Seq<char>>::empty());
        assert(planned_copies(o, e) == Seq::<(Seq<char>, Seq<u8>)>::empty());
        lemma_entry_index_bound(e, n);
        match entry_index(e, n) {
            None => {
                assert(planned_copies(Seq::<Seq<char>>::empty(), e) == Seq::<(Seq<char>, Seq<u8>)>::empty());
                assert(planned_copies(seq![n], e) =~= Seq::<(Seq<char>, Seq<u8>)>::empty());
            },
            Some(k) => {
                let e2 = e.update(k, (e[k].0, e[k].1, Seq::<u8>::empty()));
                assert(planned_copies(Seq::<Seq<char>>::empty(), e2) == Seq::<(Seq<char>, Seq<u8>)>::empty());
                assert(planned_copies(Seq::<Seq<char>>::empty(), e) == Seq::<(Seq<char>, Seq<u8>)>::empty());
                if e[k].2.len() > 0 {
                    assert(planned_copies(seq![n], e) =~= seq![(e[k].1, e[k].2)]);
                } else {
                    assert(planned_copies(seq![n], e) =~= Seq::<(Seq<char>, Seq<u8>)>::empty());
                }
            },
        }
        assert(planned_copies(o, e) + copy_step(n, e) =~= copy_step(n, e));
        assert(planned_copies(o.push(n), e) == copy_step(n, e));
    } else {
        let m = o[0];
        let o2 = o.drop_first();
        assert(o.push(n).drop_first() =~= o2.push(n));
        assert(o.push(n)[0] == m);
        lemma_entry_index_bound(e, m);
        match entry_index(e, m) {
            None => {
                lemma_entry_index_none(e, m);
                lemma_planned_step(o2, n, e);
                assert(cleared_through(e, o2) =~= cleared_through(e, o)) by {
                    assert forall|x: int| 0 <= x < e.len() implies (o2.contains(e[x].0) <==> o.contains(
                        #[trigger] e[x].0,
                    )) by {
                        if o.contains(e[x].0) {
                            let w = choose|w: int| 0 <= w < o.len() && o[w] == e[x].0;
                            assert(w != 0);
                            assert(o2[w - 1] == e[x].0);
                        }
                        if o2.contains(e[x].0) {
                            let w = choose|w: int| 0 <= w < o2.len() && o2[w] == e[x].0;
                            assert(o[w + 1] == e[x].0);
                        }
                    }
                }
            },
            Some(k) => {
                let cleared = (e[k].0, e[k].1, Seq::<u8>::empty());
                if e[k].2.len() > 0 {
                    let e2 = e.update(k, cleared);
                    lemma_entry_index_update(e, k, cleared);
                    lemma_planned_step(o2, n, e2);
                    assert(cleared_through(e2, o2) =~= cleared_through(e, o)) by {
                        assert forall|x: int| 0 <= x < e.len() implies #[trigger] cleared_through(e2, o2)[x]
                            == cleared_through(e, o)[x] by {
                            assert(o.contains(m)) by {
                                assert(o[0] == m);
                            }
                            if x != k {
                                assert(e2[x] == e[x]);
                                assert(e[x].0 != m);
                                if o.contains(e[x].0) {
                                    let w = choose|w: int| 0 <= w < o.len() && o[w] == e[x].0;
                                    assert(w != 0);
                                    assert(o2[w - 1] == e[x].0);
                                }
                                if o2.contains(e[x].0) {
                                    let w = choose|w: int| 0 <= w < o2.len() && o2[w] == e[x].0;
                                    assert(o[w + 1] == e[x].0);
                                }
                            }
                        }
                    }
                    assert(planned_copies(o.push(n), e) =~= seq![(e[k].1, e[k].2)] + planned_copies(
                        o2.push(n),
                        e2,
                    ));
                    assert(planned_copies(o, e) =~= seq![(e[k].1, e[k].2)] + planned_copies(o2, e2));
                } else {
                    lemma_planned_step(o2, n, e);
                    assert(cleared_through(e, o2) =~= cleared_through(e, o)) by {
                        assert forall|x: int| 0 <= x < e.len() implies #[trigger] cleared_through(e, o2)[x]
                            == cleared_through(e, o)[x] by {
                            if x == k {
                                assert(e[k].2 =~= Seq::<u8>::empty());
                            } else {
                                lemma_entry_index_of_distinct(e, x);
                                assert(e[x].0 != m);
                                if o.contains(e[x].0) {
                                    let w = choose|w: int| 0 <= w < o.len() && o[w] == e[x].0;
                                    assert(w != 0);
                                    assert(o2[w - 1] == e[x].0);
                                }
                                if o2.contains(e[x].0) {
                                    let w = choose|w: int| 0 <= w < o2.len() && o2[w] == e[x].0;
                                    assert(o[w + 1] == e[x].0);
                                }
                            }
                        }
                    }
                }
            },
        }
    }
}

} // verus!
