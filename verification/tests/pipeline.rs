use std::collections::HashSet;

use wxyc_etl::pipeline::runner::{
    handle_item, item_outcome, run_result, ItemOutcome, PipelineStats, PipelineTally,
};
use wxyc_etl::pipeline::scanner::{Batch, BatchConfig, Batcher};
use wxyc_etl::pipeline::writer::{PipelineError, PipelineOutput};

#[test]
fn test_pipeline_stats_display() {
    let stats = PipelineStats {
        scanned: 100,
        written: 80,
        filtered: 15,
        skipped: 5,
        duplicates: 0,
    };
    let display = stats.summary();
    assert!(display.contains("100"));
    assert!(display.contains("80"));
    assert!(display.contains("15"));
    assert!(display.contains("5"));
    assert!(!display.contains("duplicate"));
}

#[test]
fn test_pipeline_stats_display_with_duplicates() {
    let stats = PipelineStats {
        scanned: 50,
        written: 40,
        filtered: 5,
        skipped: 2,
        duplicates: 3,
    };
    let display = stats.summary();
    assert!(display.contains("3 duplicate"));
}

#[test]
fn pipeline_stats_summary_exact_text() {
    let stats = PipelineStats {
        scanned: 100,
        written: 80,
        filtered: 15,
        skipped: 5,
        duplicates: 0,
    };
    assert_eq!(stats.summary(), "Complete: 100 scanned, 80 written, 15 filtered, 5 skipped");
    let stats = PipelineStats {
        scanned: 0,
        written: 0,
        filtered: 0,
        skipped: 0,
        duplicates: 12,
    };
    assert_eq!(
        stats.summary(),
        "Complete: 0 scanned, 0 written, 0 filtered, 0 skipped, 12 duplicate ids skipped"
    );
}

#[test]
fn test_batch_config_defaults() {
    let config = BatchConfig::default();
    assert_eq!(config.batch_size, 256);
    assert_eq!(config.channel_capacity, 64);
}

#[test]
fn test_batch_items_accessible() {
    let batch = Batch {
        items: vec![1, 2, 3],
    };
    assert_eq!(batch.items.len(), 3);
    assert_eq!(batch.items[0], 1);
}

fn run_batcher(n: usize, count: u32) -> Vec<Vec<u32>> {
    let mut b = Batcher::new(n);
    let mut out = Vec::new();
    for i in 0..count {
        if let Some(batch) = b.push(i) {
            out.push(batch.items);
        }
    }
    if let Some(batch) = b.finish() {
        out.push(batch.items);
    }
    out
}

#[test]
fn batcher_cuts_seven_items_into_three_three_one() {
    let batches = run_batcher(3, 7);
    assert_eq!(batches, vec![vec![0, 1, 2], vec![3, 4, 5], vec![6]]);
}

#[test]
fn batcher_exact_boundary_has_no_partial_batch() {
    let batches = run_batcher(3, 6);
    assert_eq!(batches, vec![vec![0, 1, 2], vec![3, 4, 5]]);
}

#[test]
fn batcher_without_items_hands_out_nothing() {
    assert!(run_batcher(10, 0).is_empty());
}

#[test]
fn item_outcomes_filter_and_dedup() {
    let mut seen: HashSet<u64> = HashSet::new();
    let mut tally = PipelineTally::new();
    let inputs: [(bool, Option<u64>); 6] = [
        (true, Some(1)),
        (false, Some(2)),
        (true, Some(1)),
        (true, None),
        (true, Some(3)),
        (false, None),
    ];
    let mut outcomes = Vec::new();
    for (kept, id) in inputs {
        let o = item_outcome(kept, id, &mut seen);
        tally.record(o);
        outcomes.push(o);
    }
    assert_eq!(
        outcomes,
        vec![
            ItemOutcome::Write,
            ItemOutcome::Filtered,
            ItemOutcome::Duplicate,
            ItemOutcome::Write,
            ItemOutcome::Write,
            ItemOutcome::Filtered,
        ]
    );
    let stats = tally.stats(6);
    assert_eq!(stats.scanned, 6);
    assert_eq!(stats.written, 3);
    assert_eq!(stats.filtered, 2);
    assert_eq!(stats.duplicates, 1);
    assert_eq!(stats.skipped, 0);
}

struct MockOutput {
    items: Vec<i32>,
    flushed: bool,
    finished: bool,
}

impl MockOutput {
    fn new() -> Self {
        Self {
            items: Vec::new(),
            flushed: false,
            finished: false,
        }
    }
}

impl PipelineOutput<i32> for MockOutput {
    fn write_item(&mut self, item: &i32) -> Result<(), PipelineError> {
        self.items.push(*item);
        Ok(())
    }

    fn flush(&mut self) -> Result<(), PipelineError> {
        self.flushed = true;
        Ok(())
    }

    fn finish(&mut self) -> Result<(), PipelineError> {
        self.finished = true;
        Ok(())
    }
}

#[test]
fn test_pipeline_output_trait() {
    let mut output = MockOutput::new();
    output.write_item(&42).unwrap();
    output.write_item(&99).unwrap();
    output.flush().unwrap();
    output.finish().unwrap();

    assert_eq!(output.items, vec![42, 99]);
    assert!(output.flushed);
    assert!(output.finished);
}

#[test]
fn test_pipeline_output_is_object_safe() {
    let mut output = MockOutput::new();
    let dyn_output: &mut dyn PipelineOutput<i32> = &mut output;
    dyn_output.write_item(&1).unwrap();
    assert_eq!(output.items, vec![1]);
}

struct RefusingOutput;

impl PipelineOutput<i32> for RefusingOutput {
    fn write_item(&mut self, _item: &i32) -> Result<(), PipelineError> {
        Err(PipelineError { message: "disk full".to_string() })
    }

    fn flush(&mut self) -> Result<(), PipelineError> {
        Ok(())
    }

    fn finish(&mut self) -> Result<(), PipelineError> {
        Ok(())
    }
}

#[test]
fn handle_item_writes_and_counts() {
    let mut output = MockOutput::new();
    let mut tally = PipelineTally::new();
    handle_item(&mut output, Some(&7), ItemOutcome::Write, &mut tally).unwrap();
    handle_item(&mut output, None, ItemOutcome::Filtered, &mut tally).unwrap();
    handle_item(&mut output, Some(&8), ItemOutcome::Duplicate, &mut tally).unwrap();
    assert_eq!(output.items, vec![7]);
    assert_eq!((tally.written, tally.filtered, tally.duplicates), (1, 1, 1));
}

#[test]
fn handle_item_refused_write_counts_nothing() {
    let mut output = RefusingOutput;
    let mut tally = PipelineTally::new();
    let err = handle_item(&mut output, Some(&7), ItemOutcome::Write, &mut tally).unwrap_err();
    assert_eq!(err.message, "disk full");
    assert_eq!((tally.written, tally.filtered, tally.duplicates), (0, 0, 0));
}

#[test]
fn run_result_ranks_failures() {
    let mut tally = PipelineTally::new();
    tally.record(ItemOutcome::Write);
    tally.record(ItemOutcome::Filtered);

    let panicked: Result<Result<usize, String>, String> = Err("scanner panicked".to_string());
    let r = run_result(panicked, Err("write refused".to_string()), &tally);
    assert_eq!(r.err(), Some("scanner panicked".to_string()));

    let r = run_result(Ok(Err("bad input".to_string())), Err("write refused".to_string()), &tally);
    assert_eq!(r.err(), Some("write refused".to_string()));

    let r = run_result(Ok(Err("bad input".to_string())), Ok(()), &tally);
    assert_eq!(r.err(), Some("bad input".to_string()));

    let stats = run_result::<String>(Ok(Ok(7)), Ok(()), &tally).ok().unwrap();
    assert_eq!(stats.scanned, 7);
    assert_eq!(stats.written, 1);
    assert_eq!(stats.filtered, 1);
    assert_eq!(stats.skipped, 0);
    assert_eq!(stats.duplicates, 0);
}
