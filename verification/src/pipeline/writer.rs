//! Sequential output for pipeline writers.

use vstd::prelude::*;

verus! {

/// Why a pipeline step failed.
#[derive(Debug, PartialEq, Eq)]
pub struct PipelineError {
    /// What went wrong.
    pub message: String,
}

/// Writes pipeline items sequentially. Implementations promise what
/// `write_item` states of the two logs below.
pub trait PipelineOutput<T> {
    /// The items the output has accepted, in the order they were written.
    /// An implementation that Verus checks defines this log; the default
    /// here only lets unverified implementations compile.
    open spec fn written(&self) -> Seq<T> {
        Seq::empty()
    }

    /// Every `write_item` call so far, with the item handed over and what
    /// the call returned (defined as [`PipelineOutput::written`] is).
    open spec fn attempts(&self) -> Seq<(T, Result<(), PipelineError>)> {
        Seq::empty()
    }

    /// Write a single item to the output: the call is logged with its
    /// result, and an accepted item is appended to what was written.
    fn write_item(&mut self, item: &T) -> (r: Result<(), PipelineError>)
        ensures
            final(self).attempts() == old(self).attempts().push((*item, r)),
            r is Ok ==> final(self).written() == old(self).written().push(*item),
            r is Err ==> final(self).written() == old(self).written();

    /// Flush any buffered data to the output target.
    fn flush(&mut self) -> Result<(), PipelineError>;

    /// Finalize: flush remaining data and perform any post-processing.
    fn finish(&mut self) -> Result<(), PipelineError>;
}

} // verus!
