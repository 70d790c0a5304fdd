//! How source columns (CSV/TSV) map to database columns.

use vstd::prelude::*;
use vstd::hash_map::StringHashMap;
use vstd::string::StringExecFns;

use crate::text::chars;

verus! {

/// A function that transforms a column value during import.
pub type TransformFn = Box<dyn Fn(Option<&str>) -> Option<String>>;

/// Describes how to map source columns (CSV/TSV) to database columns.
#[verifier::reject_recursive_types(F)]
pub struct ColumnMapping<F = TransformFn> {
    /// Column names to read from the source file.
    pub source_columns: Vec<String>,
    /// Corresponding database column names.
    pub db_columns: Vec<String>,
    /// Columns that must not be NULL.
    pub required_columns: Vec<String>,
    /// Columns forming the dedup key (if any).
    pub unique_key: Option<Vec<String>>,
    /// Per-column value transforms, keyed by source column name.
    pub transforms: StringHashMap<F>,
}

/// Index of the first column named `name`.
pub open spec fn first_index(cols: Seq<Seq<char>>, name: Seq<char>) -> Option<int>
    decreases cols.len(),
{
    if cols.len() == 0 {
        None
    } else if cols[0] == name {
        Some(0)
    } else {
        match first_index(cols.drop_first(), name) {
            Some(i) => Some(i + 1),
            None => None,
        }
    }
}

/// The indices of the key columns that occur among the source columns, in
/// key order (a key column with no source column is skipped).
pub open spec fn key_indices(cols: Seq<Seq<char>>, keys: Seq<Seq<char>>) -> Seq<int>
    decreases keys.len(),
{
    if keys.len() == 0 {
        seq![]
    } else {
        let prev = key_indices(cols, keys.drop_last());
        match first_index(cols, keys.last()) {
            Some(i) => prev.push(i),
            None => prev,
        }
    }
}

/// The character sequences of a list of strings.
pub open spec fn names_of(v: Seq<String>) -> Seq<Seq<char>> {
    v.map_values(|s: String| s@)
}

impl<F> ColumnMapping<F> {
    /// Create a column mapping with no transforms.
    pub fn new(
        source_columns: Vec<String>,
        db_columns: Vec<String>,
        required_columns: Vec<String>,
        unique_key: Option<Vec<String>>,
    ) -> (r: Self)
        ensures
            r.source_columns == source_columns,
            r.db_columns == db_columns,
            r.required_columns == required_columns,
            r.unique_key == unique_key,
            r.transforms@ == Map::<Seq<char>, F>::empty(),
    {
        ColumnMapping {
            source_columns,
            db_columns,
            required_columns,
            unique_key,
            transforms: StringHashMap::new(),
        }
    }

    /// Add (or replace) the transform of a column.
    pub fn add_transform(&mut self, column: &str, transform: F)
        ensures
            final(self).transforms@ == old(self).transforms@.insert(column@, transform),
            final(self).source_columns == old(self).source_columns,
            final(self).db_columns == old(self).db_columns,
            final(self).required_columns == old(self).required_columns,
            final(self).unique_key == old(self).unique_key,
    {
        self.transforms.insert(String::from_str(column), transform);
    }

    /// The index of the first source column named `name`, or `None`.
    pub fn source_index(&self, name: &str) -> (r: Option<usize>)
        ensures
            match r {
                None => first_index(names_of(self.source_columns@), name@) is None,
                Some(i) => first_index(names_of(self.source_columns@), name@) == Some(i as int),
            },
    {
        position(&self.source_columns, name)
    }

    /// The indices of the unique key columns in the source columns list.
    pub fn unique_key_indices(&self) -> (r: Option<Vec<usize>>)
        ensures
            match self.unique_key {
                None => r is None,
                Some(keys) => r matches Some(v) && v@.map_values(|i: usize| i as int)
                    == key_indices(names_of(self.source_columns@), names_of(keys@)),
            },
    {
        match &self.unique_key {
            None => None,
            Some(keys) => {
                let mut out: Vec<usize> = Vec::new();
                let mut k: usize = 0;
                while k < keys.len()
                    invariant
                        k <= keys@.len(),
                        out@.map_values(|i: usize| i as int) == key_indices(
                            names_of(self.source_columns@),
                            names_of(keys@).take(k as int),
                        ),
                    decreases keys.len() - k,
                {
                    let ghost cols = names_of(self.source_columns@);
                    let ghost ks = names_of(keys@);
                    assert(ks.take(k + 1).drop_last() == ks.take(k as int));
                    assert(ks.take(k + 1).last() == keys@[k as int]@);
                    let ghost before = out@;
                    match position(&self.source_columns, keys[k].as_str()) {
                        Some(i) => {
                            out.push(i);
                            assert(out@.map_values(|i: usize| i as int) =~= before.map_values(|i: usize| i as int).push(i as int));
                            assert(key_indices(cols, ks.take(k + 1)) == key_indices(cols, ks.take(k as int)).push(i as int));
                        },
                        None => {
                            assert(key_indices(cols, ks.take(k + 1)) == key_indices(cols, ks.take(k as int)));
                        },
                    }
                    k += 1;
                }
                assert(names_of(keys@).take(keys@.len() as int) == names_of(keys@));
                Some(out)
            },
        }
    }
}

/// Position of the first element of `cols` equal to `name`.
fn position(cols: &Vec<String>, name: &str) -> (r: Option<usize>)
    ensures
        match r {
            None => first_index(names_of(cols@), name@) is None,
            Some(i) => first_index(names_of(cols@), name@) == Some(i as int) && i < cols@.len(),
        },
{
    let target = chars::chars_of(name);
    let mut i: usize = 0;
    assert(names_of(cols@).skip(0) == names_of(cols@));
    while i < cols.len()
        invariant
            i <= cols@.len(),
            target@ == name@,
            first_index(names_of(cols@), name@) == match first_index(names_of(cols@).skip(i as int), name@) {
                Some(j) => Some(j + i),
                None => None,
            },
        decreases cols.len() - i,
    {
        let c = chars::chars_of(cols[i].as_str());
        let ghost rest = names_of(cols@).skip(i as int);
        assert(rest[0] == cols@[i as int]@);
        assert(rest.drop_first() == names_of(cols@).skip(i + 1));
        if chars::chars_eq(&c, &target) {
            return Some(i);
        }
        i += 1;
    }
    None
}

} // verus!
