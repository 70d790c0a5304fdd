//! SQLite output: writer configuration, the transaction batching rule, and
//! the FTS5 index statement.

use std::path::PathBuf;

use vstd::prelude::*;
use vstd::string::StringExecFns;

verus! {

#[verifier::external_type_specification]
#[verifier::external_body]
pub struct ExPathBuf(PathBuf);

/// Configuration for a SQLite writer.
pub struct SqliteWriterConfig {
    pub db_path: PathBuf,
    pub batch_size: usize,
}

/// The transaction bookkeeping of a batch-buffered writer: inserts run
/// inside a transaction that is opened on the first insert and committed
/// once `batch_size` rows are in it (or on an explicit flush).
pub struct BatchState {
    pub batch_size: usize,
    pub total_written: usize,
    pub in_transaction: bool,
    pub batch_count: usize,
}

impl BatchState {
    /// No transaction open, nothing written.
    pub fn new(batch_size: usize) -> (r: Self)
        ensures
            r.batch_size == batch_size,
            r.total_written == 0,
            !r.in_transaction,
            r.batch_count == 0,
    {
        BatchState { batch_size, total_written: 0, in_transaction: false, batch_count: 0 }
    }

    /// Whether a transaction must be opened (`BEGIN`) before a batch.
    pub fn needs_begin(&self) -> (r: bool)
        ensures
            r == !self.in_transaction,
    {
        !self.in_transaction
    }

    /// A transaction was opened.
    pub fn began(&mut self)
        ensures
            final(self).in_transaction,
            final(self).batch_count == 0,
            final(self).total_written == old(self).total_written,
            final(self).batch_size == old(self).batch_size,
    {
        self.in_transaction = true;
        self.batch_count = 0;
    }

    /// A row was inserted; returns whether the batch is now full and must
    /// be committed.
    pub fn inserted(&mut self) -> (commit: bool)
        requires
            old(self).batch_count < usize::MAX,
        ensures
            final(self).batch_count == old(self).batch_count + 1,
            final(self).in_transaction == old(self).in_transaction,
            final(self).total_written == old(self).total_written,
            final(self).batch_size == old(self).batch_size,
            commit == (final(self).batch_count >= final(self).batch_size),
    {
        self.batch_count = self.batch_count + 1;
        self.batch_count >= self.batch_size
    }

    /// Whether a flush has a transaction to commit.
    pub fn needs_commit(&self) -> (r: bool)
        ensures
            r == self.in_transaction,
    {
        self.in_transaction
    }

    /// The open transaction was committed: its rows count as written.
    pub fn committed(&mut self)
        requires
            old(self).total_written + old(self).batch_count <= usize::MAX,
        ensures
            final(self).total_written == old(self).total_written + old(self).batch_count,
            !final(self).in_transaction,
            final(self).batch_count == 0,
            final(self).batch_size == old(self).batch_size,
    {
        self.total_written = self.total_written + self.batch_count;
        self.in_transaction = false;
        self.batch_count = 0;
    }
}

/// The column names joined as the FTS5 statement lists them.
pub open spec fn fts_columns(cols: Seq<Seq<char>>) -> Seq<char>
    decreases cols.len(),
{
    if cols.len() == 0 {
        seq![]
    } else if cols.len() == 1 {
        cols[0]
    } else {
        fts_columns(cols.drop_last()) + ",\n                "@ + cols.last()
    }
}

/// The statements that create the FTS5 table `table` over `content_table`
/// and rebuild its index.
pub open spec fn fts5_sql_spec(
    table: Seq<char>,
    content_table: Seq<char>,
    content_rowid: Seq<char>,
    columns: Seq<Seq<char>>,
    tokenizer: Seq<char>,
) -> Seq<char> {
    "CREATE VIRTUAL TABLE "@ + table + " USING fts5(\n                "@ + fts_columns(columns)
        + ",\n                content="@ + content_table + ",\n                content_rowid="@
        + content_rowid + ",\n                tokenize='"@ + tokenizer
        + "'\n            );\n            INSERT INTO "@ + table + "("@ + table
        + ") VALUES('rebuild');"@
}

/// The statements that create and fill an FTS5 index.
pub fn fts5_sql(
    table: &str,
    content_table: &str,
    content_rowid: &str,
    columns: &[&str],
    tokenizer: &str,
) -> (r: String)
    ensures
        r@ == fts5_sql_spec(
            table@,
            content_table@,
            content_rowid@,
            columns@.map_values(|c: &str| c@),
            tokenizer@,
        ),
{
    let ghost cs = columns@.map_values(|c: &str| c@);
    let mut cols = String::new();
    let mut i: usize = 0;
    while i < columns.len()
        invariant
            i <= columns@.len(),
            cs == columns@.map_values(|c: &str| c@),
            cols@ == fts_columns(cs.take(i as int)),
        decreases columns.len() - i,
    {
        assert(cs.take(i + 1).drop_last() == cs.take(i as int));
        assert(cs.take(i + 1).last() == columns@[i as int]@);
        if i > 0 {
            cols.append(",\n                ");
        } else {
            assert(cols@ == Seq::<char>::empty());
            assert(Seq::<char>::empty() + columns@[0]@ == columns@[0]@);
        }
        cols.append(columns[i]);
        i += 1;
    }
    assert(cs.take(columns@.len() as int) == cs);
    let mut s = String::from_str("CREATE VIRTUAL TABLE ");
    s.append(table);
    s.append(" USING fts5(\n                ");
    s.append(cols.as_str());
    s.append(",\n                content=");
    s.append(content_table);
    s.append(",\n                content_rowid=");
    s.append(content_rowid);
    s.append(",\n                tokenize='");
    s.append(tokenizer);
    s.append("'\n            );\n            INSERT INTO ");
    s.append(table);
    s.append("(");
    s.append(table);
    s.append(") VALUES('rebuild');");
    s
}

} // verus!
