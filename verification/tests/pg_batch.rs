use wxyc_etl::pg::batch::{BatchCopier, CopyError, CopyTarget};
/// Mock [`CopyTarget`] that records operations in order.
struct MockCopyTarget {
    operations: Vec<(String, Vec<u8>)>,
}

impl MockCopyTarget {
    fn new() -> Self {
        Self {
            operations: Vec::new(),
        }
    }
}

impl CopyTarget for MockCopyTarget {
    fn copy_in(&mut self, stmt: &str, data: &[u8]) -> Result<(), CopyError> {
        self.operations.push((stmt.to_string(), data.to_vec()));
        Ok(())
    }
}

#[test]
fn test_flush_order() {
    let mut copier = BatchCopier::new(
        &[
            ("release", "COPY release FROM STDIN"),
            ("release_artist", "COPY release_artist FROM STDIN"),
            ("release_label", "COPY release_label FROM STDIN"),
        ],
        100,
    );

    // Write to child tables first, then parent
    copier
        .buffer("release_artist")
        .extend_from_slice(b"child data\n");
    copier
        .buffer("release")
        .extend_from_slice(b"parent data\n");
    copier.batch_count = 1; // simulate one record

    let mut target = MockCopyTarget::new();
    copier.flush(&mut target).unwrap();

    // Parent should be flushed first regardless of write order
    assert_eq!(target.operations.len(), 2);
    assert_eq!(target.operations[0].0, "COPY release FROM STDIN");
    assert_eq!(target.operations[0].1, b"parent data\n");
    assert_eq!(target.operations[1].0, "COPY release_artist FROM STDIN");
    assert_eq!(target.operations[1].1, b"child data\n");
}

#[test]
fn test_flush_skips_empty_buffers() {
    let mut copier = BatchCopier::new(
        &[
            ("release", "COPY release FROM STDIN"),
            ("release_artist", "COPY release_artist FROM STDIN"),
        ],
        100,
    );

    // Only write to release, not release_artist
    copier
        .buffer("release")
        .extend_from_slice(b"data\n");
    copier.batch_count = 1;

    let mut target = MockCopyTarget::new();
    copier.flush(&mut target).unwrap();

    assert_eq!(target.operations.len(), 1);
    assert_eq!(target.operations[0].0, "COPY release FROM STDIN");
}

#[test]
fn test_flush_noop_when_empty() {
    let mut copier = BatchCopier::new(
        &[("release", "COPY release FROM STDIN")],
        100,
    );

    let mut target = MockCopyTarget::new();
    copier.flush(&mut target).unwrap();

    assert!(target.operations.is_empty());
}

#[test]
fn test_count_and_maybe_flush() {
    let mut copier = BatchCopier::new(
        &[("release", "COPY release FROM STDIN")],
        2,
    );

    let mut target = MockCopyTarget::new();

    copier.buffer("release").extend_from_slice(b"row1\n");
    copier.count_and_maybe_flush(&mut target).unwrap();
    assert_eq!(copier.total_written(), 0); // not yet at threshold

    copier.buffer("release").extend_from_slice(b"row2\n");
    copier.count_and_maybe_flush(&mut target).unwrap();
    assert_eq!(copier.total_written(), 2); // flushed at threshold

    assert_eq!(target.operations.len(), 1);
    assert_eq!(target.operations[0].1, b"row1\nrow2\n");
}

#[test]
fn test_total_written_accumulates() {
    let mut copier = BatchCopier::new(
        &[("release", "COPY release FROM STDIN")],
        1,
    );

    let mut target = MockCopyTarget::new();

    for i in 0..5 {
        copier
            .buffer("release")
            .extend_from_slice(format!("row{}\n", i).as_bytes());
        copier.count_and_maybe_flush(&mut target).unwrap();
    }

    assert_eq!(copier.total_written(), 5);
    assert_eq!(target.operations.len(), 5);
}

#[test]
#[should_panic(expected = "unknown table")]
fn test_buffer_panics_on_unknown_table() {
    let mut copier = BatchCopier::new(
        &[("release", "COPY release FROM STDIN")],
        100,
    );
    copier.buffer("nonexistent");
}

#[test]
fn test_buffers_cleared_after_flush() {
    let mut copier = BatchCopier::new(
        &[("release", "COPY release FROM STDIN")],
        1,
    );

    let mut target = MockCopyTarget::new();

    copier.buffer("release").extend_from_slice(b"row1\n");
    copier.count_and_maybe_flush(&mut target).unwrap();

    // Buffer should be cleared after flush
    assert!(copier.buffer("release").is_empty());
    assert_eq!(copier.batch_count(), 0);
}

/// Target that refuses the COPY for one statement and records the others.
struct FailingTarget {
    fail_on: String,
    operations: Vec<(String, Vec<u8>)>,
}

impl CopyTarget for FailingTarget {
    fn copy_in(&mut self, stmt: &str, data: &[u8]) -> Result<(), CopyError> {
        self.operations.push((stmt.to_string(), data.to_vec()));
        if stmt == self.fail_on {
            Err(CopyError { message: "refused".to_string() })
        } else {
            Ok(())
        }
    }
}

#[test]
fn flush_copies_buffered_data_without_counted_records() {
    let mut copier = BatchCopier::new(&[("release", "COPY release FROM STDIN")], 100);
    copier.buffer("release").extend_from_slice(b"row\n");
    assert_eq!(copier.batch_count(), 0);
    let mut target = MockCopyTarget::new();
    copier.flush(&mut target).unwrap();
    assert_eq!(target.operations, vec![("COPY release FROM STDIN".to_string(), b"row\n".to_vec())]);
    assert!(copier.buffer("release").is_empty());
    assert_eq!(copier.total_written(), 0);
}

#[test]
fn flush_failure_keeps_failing_and_later_buffers() {
    let mut copier = BatchCopier::new(
        &[
            ("release", "COPY release FROM STDIN"),
            ("release_artist", "COPY release_artist FROM STDIN"),
            ("release_label", "COPY release_label FROM STDIN"),
        ],
        100,
    );
    copier.buffer("release").extend_from_slice(b"r\n");
    copier.buffer("release_artist").extend_from_slice(b"a\n");
    copier.buffer("release_label").extend_from_slice(b"l\n");
    copier.batch_count = 3;
    let mut target = FailingTarget {
        fail_on: "COPY release_artist FROM STDIN".to_string(),
        operations: Vec::new(),
    };
    let err = copier.flush(&mut target).unwrap_err();
    assert_eq!(err.message, "refused");
    assert_eq!(target.operations.len(), 2);
    assert!(copier.buffer("release").is_empty());
    assert_eq!(copier.buffer("release_artist").as_slice(), b"a\n");
    assert_eq!(copier.buffer("release_label").as_slice(), b"l\n");
    assert_eq!(copier.batch_count(), 3);
    assert_eq!(copier.total_written(), 0);
}
