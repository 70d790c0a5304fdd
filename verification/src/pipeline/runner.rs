//! Per-item bookkeeping of a pipeline run and its statistics.

use std::collections::HashSet;

use vstd::prelude::*;
use vstd::string::StringExecFns;

use super::writer::{PipelineError, PipelineOutput};

verus! {

broadcast use vstd::std_specs::hash::group_hash_axioms;

/// Accumulated statistics from a pipeline run.
pub struct PipelineStats {
    /// Total items scanned by the producer.
    pub scanned: usize,
    /// Items written to the output.
    pub written: usize,
    /// Items filtered out by the transform (it returned `None`).
    pub filtered: usize,
    /// Items skipped for other reasons (e.g., missing required fields).
    pub skipped: usize,
    /// Duplicate items skipped.
    pub duplicates: usize,
}

/// The decimal digits of `n`, most significant first, without leading
/// zeros (`"0"` for zero).
pub open spec fn decimal(n: nat) -> Seq<char>
    decreases n,
{
    if n < 10 {
        seq![digit_char(n)]
    } else {
        decimal(n / 10).push(digit_char(n % 10))
    }
}

/// The character of a decimal digit.
pub open spec fn digit_char(d: nat) -> char {
    if d == 0 {
        '0'
    } else if d == 1 {
        '1'
    } else if d == 2 {
        '2'
    } else if d == 3 {
        '3'
    } else if d == 4 {
        '4'
    } else if d == 5 {
        '5'
    } else if d == 6 {
        '6'
    } else if d == 7 {
        '7'
    } else if d == 8 {
        '8'
    } else {
        '9'
    }
}

/// The one-line summary of a run: counts of scanned, written, filtered and
/// skipped items, and of skipped duplicates when there were any.
pub open spec fn summary_spec(s: PipelineStats) -> Seq<char> {
    let base = "Complete: "@ + decimal(s.scanned as nat) + " scanned, "@ + decimal(s.written as nat)
        + " written, "@ + decimal(s.filtered as nat) + " filtered, "@ + decimal(s.skipped as nat)
        + " skipped"@;
    if s.duplicates > 0 {
        base + ", "@ + decimal(s.duplicates as nat) + " duplicate ids skipped"@
    } else {
        base
    }
}

fn digit(d: usize) -> (c: char)
    requires
        d < 10,
    ensures
        c == digit_char(d as nat),
{
    if d == 0 {
        '0'
    } else if d == 1 {
        '1'
    } else if d == 2 {
        '2'
    } else if d == 3 {
        '3'
    } else if d == 4 {
        '4'
    } else if d == 5 {
        '5'
    } else if d == 6 {
        '6'
    } else if d == 7 {
        '7'
    } else if d == 8 {
        '8'
    } else {
        '9'
    }
}

/// `n` written in decimal.
pub fn decimal_string(n: usize) -> (r: String)
    ensures
        r@ == decimal(n as nat),
    decreases n,
{
    if n < 10 {
        let mut s = String::new();
        crate::text::chars::push_char(&mut s, digit(n));
        assert(s@ == seq![digit_char(n as nat)]);
        s
    } else {
        let mut s = decimal_string(n / 10);
        crate::text::chars::push_char(&mut s, digit(n % 10));
        s
    }
}

impl PipelineStats {
    /// The one-line summary of the run (its display text).
    pub fn summary(&self) -> (r: String)
        ensures
            r@ == summary_spec(*self),
    {
        let mut s = String::from_str("Complete: ");
        s.append(decimal_string(self.scanned).as_str());
        s.append(" scanned, ");
        s.append(decimal_string(self.written).as_str());
        s.append(" written, ");
        s.append(decimal_string(self.filtered).as_str());
        s.append(" filtered, ");
        s.append(decimal_string(self.skipped).as_str());
        s.append(" skipped");
        if self.duplicates > 0 {
            s.append(", ");
            s.append(decimal_string(self.duplicates).as_str());
            s.append(" duplicate ids skipped");
        }
        s
    }
}

/// Deduplication for byte pipelines: an id is extracted from each raw
/// record before its result is written, and a record whose id was seen
/// before is skipped.
pub struct DedupConfig<'a, I: Fn(&[u8]) -> Option<u64>> {
    /// Ids seen so far.
    pub seen_ids: &'a mut HashSet<u64>,
    /// The id of a record; `None` never makes it a duplicate.
    pub id_fn: I,
}

/// What becomes of one processed item.
#[derive(Debug, Clone, Copy, PartialEq, Eq)]
pub enum ItemOutcome {
    /// The transform kept it: write it.
    Write,
    /// The transform returned `None`.
    Filtered,
    /// Its id was seen before: skip it.
    Duplicate,
}

/// The outcome of an item, updating the seen ids: an item the transform
/// kept is a duplicate exactly when it has an id that was already seen;
/// a new id is recorded.
pub fn item_outcome(kept: bool, id: Option<u64>, seen: &mut HashSet<u64>) -> (r: ItemOutcome)
    ensures
        !kept ==> r == ItemOutcome::Filtered && final(seen)@ == old(seen)@,
        kept && id is None ==> r == ItemOutcome::Write && final(seen)@ == old(seen)@,
        kept && id is Some ==> {
            &&& r == (if old(seen)@.contains(id->0) {
                ItemOutcome::Duplicate
            } else {
                ItemOutcome::Write
            })
            &&& final(seen)@ == old(seen)@.insert(id->0)
        },
{
    if !kept {
        return ItemOutcome::Filtered;
    }
    match id {
        None => ItemOutcome::Write,
        Some(i) => {
            if seen.insert(i) {
                ItemOutcome::Write
            } else {
                ItemOutcome::Duplicate
            }
        },
    }
}

/// Running counts of a pipeline's outcomes.
pub struct PipelineTally {
    pub written: usize,
    pub filtered: usize,
    pub duplicates: usize,
}

impl PipelineTally {
    /// No item counted yet.
    pub fn new() -> (r: Self)
        ensures
            r.written == 0 && r.filtered == 0 && r.duplicates == 0,
    {
        PipelineTally { written: 0, filtered: 0, duplicates: 0 }
    }

    /// Count one outcome.
    pub fn record(&mut self, outcome: ItemOutcome)
        requires
            old(self).written < usize::MAX,
            old(self).filtered < usize::MAX,
            old(self).duplicates < usize::MAX,
        ensures
            final(self).written == old(self).written + if outcome == ItemOutcome::Write {
                1int
            } else {
                0int
            },
            final(self).filtered == old(self).filtered + if outcome == ItemOutcome::Filtered {
                1int
            } else {
                0int
            },
            final(self).duplicates == old(self).duplicates + if outcome == ItemOutcome::Duplicate {
                1int
            } else {
                0int
            },
    {
        match outcome {
            ItemOutcome::Write => self.written = self.written + 1,
            ItemOutcome::Filtered => self.filtered = self.filtered + 1,
            ItemOutcome::Duplicate => self.duplicates = self.duplicates + 1,
        }
    }

    /// The statistics of a finished run that scanned `scanned` items.
    pub fn stats(&self, scanned: usize) -> (r: PipelineStats)
        ensures
            r.scanned == scanned,
            r.written == self.written,
            r.filtered == self.filtered,
            r.skipped == 0,
            r.duplicates == self.duplicates,
    {
        PipelineStats {
            scanned,
            written: self.written,
            filtered: self.filtered,
            skipped: 0,
            duplicates: self.duplicates,
        }
    }
}

/// How a run ends, given whether the scanner could be joined (and what it
/// returned) and how the consuming loop ended: a scanner that could not be
/// joined is reported first, then a failure of the loop (a refused write or
/// flush), then the scanner's own error; otherwise the statistics of the
/// run with the scanner's count.
pub fn run_result<E>(
    joined: Result<Result<usize, E>, E>,
    consumed: Result<(), E>,
    tally: &PipelineTally,
) -> (r: Result<PipelineStats, E>)
    ensures
        match joined {
            Err(e) => r == Err::<PipelineStats, E>(e),
            Ok(scanned) => match consumed {
                Err(e) => r == Err::<PipelineStats, E>(e),
                Ok(_) => match scanned {
                    Err(e) => r == Err::<PipelineStats, E>(e),
                    Ok(n) => r matches Ok(st) && st.scanned == n && st.written == tally.written
                        && st.filtered == tally.filtered && st.skipped == 0 && st.duplicates
                        == tally.duplicates,
                },
            },
        },
{
    let scanned = match joined {
        Err(e) => {
            return Err(e);
        },
        Ok(s) => s,
    };
    match consumed {
        Err(e) => {
            return Err(e);
        },
        Ok(()) => {},
    }
    match scanned {
        Err(e) => Err(e),
        Ok(n) => Ok(tally.stats(n)),
    }
}

/// Take one processed item through the writer: an item whose outcome is
/// `Write` is handed to `write_item` exactly once, and the outcome is
/// counted once the item is dealt with. Any other item never reaches the
/// output. A refused write is handed back as the result (the error the
/// output returned) with nothing counted, so the run stops there (and
/// skips the final flush).
pub fn handle_item<T, O: PipelineOutput<T>>(
    output: &mut O,
    item: Option<&T>,
    outcome: ItemOutcome,
    tally: &mut PipelineTally,
) -> (r: Result<(), PipelineError>)
    requires
        old(tally).written < usize::MAX,
        old(tally).filtered < usize::MAX,
        old(tally).duplicates < usize::MAX,
        outcome == ItemOutcome::Write ==> item is Some,
    ensures
        outcome != ItemOutcome::Write ==> r is Ok,
        r is Ok ==> {
            &&& final(tally).written == old(tally).written + if outcome == ItemOutcome::Write {
                1int
            } else {
                0int
            }
            &&& final(tally).filtered == old(tally).filtered + if outcome == ItemOutcome::Filtered {
                1int
            } else {
                0int
            }
            &&& final(tally).duplicates == old(tally).duplicates + if outcome
                == ItemOutcome::Duplicate {
                1int
            } else {
                0int
            }
        },
        r is Err ==> *final(tally) == *old(tally),
        outcome == ItemOutcome::Write ==> {
            &&& final(output).attempts() == old(output).attempts().push((*item->0, r))
            &&& r is Ok ==> final(output).written() == old(output).written().push(*item->0)
        },
        outcome != ItemOutcome::Write ==> {
            &&& final(output).attempts() == old(output).attempts()
            &&& final(output).written() == old(output).written()
        },
        r is Err ==> outcome == ItemOutcome::Write && final(output).written() == old(output).written(),
{
    let mut result: Result<(), PipelineError> = Ok(());
    match outcome {
        ItemOutcome::Write => match item {
            Some(it) => {
                result = output.write_item(it);
                if result.is_err() {
                    return result;
                }
            },
            None => {},
        },
        _ => {},
    }
    tally.record(outcome);
    result
}

} // verus!
