//! Output CSV file specifications and the lookup of a file among them.

use vstd::prelude::*;
use vstd::string::StringExecFns;

use crate::text::chars;

verus! {

/// Specification for one output CSV file: filename and header columns.
pub struct CsvFileSpec {
    pub filename: String,
    pub columns: Vec<String>,
}

impl CsvFileSpec {
    /// A file spec with the given name and header columns.
    pub fn new(filename: &str, columns: &[&str]) -> (r: Self)
        ensures
            r.filename@ == filename@,
            r.columns@.map_values(|c: String| c@) == columns@.map_values(|c: &str| c@),
    {
        let mut cols: Vec<String> = Vec::new();
        let mut i: usize = 0;
        while i < columns.len()
            invariant
                i <= columns@.len(),
                cols@.map_values(|c: String| c@) == columns@.map_values(|c: &str| c@).take(i as int),
            decreases columns.len() - i,
        {
            let ghost before = cols@.map_values(|c: String| c@);
            cols.push(String::from_str(columns[i]));
            assert(cols@.map_values(|c: String| c@) =~= before.push(columns@[i as int]@));
            assert(columns@.map_values(|c: &str| c@).take(i + 1) =~= columns@.map_values(|c: &str| c@).take(
                i as int,
            ).push(columns@[i as int]@));
            i += 1;
        }
        assert(columns@.map_values(|c: &str| c@).take(columns@.len() as int) == columns@.map_values(
            |c: &str| c@,
        ));
        CsvFileSpec { filename: String::from_str(filename), columns: cols }
    }
}

/// Index of the first file named `name`.
pub open spec fn first_named(names: Seq<Seq<char>>, name: Seq<char>) -> Option<int>
    decreases names.len(),
{
    if names.len() == 0 {
        None
    } else if names[0] == name {
        Some(0)
    } else {
        match first_named(names.drop_first(), name) {
            Some(i) => Some(i + 1),
            None => None,
        }
    }
}

/// The index of the first of `filenames` equal to `name`.
pub fn file_index(filenames: &[String], name: &str) -> (r: Option<usize>)
    ensures
        match r {
            None => first_named(filenames@.map_values(|f: String| f@), name@) is None,
            Some(i) => first_named(filenames@.map_values(|f: String| f@), name@) == Some(i as int),
        },
{
    let ghost fs = filenames@.map_values(|f: String| f@);
    let target = chars::chars_of(name);
    let mut i: usize = 0;
    assert(fs.skip(0) == fs);
    while i < filenames.len()
        invariant
            i <= filenames@.len(),
            fs == filenames@.map_values(|f: String| f@),
            target@ == name@,
            first_named(fs, name@) == match first_named(fs.skip(i as int), name@) {
                Some(j) => Some(j + i),
                None => None,
            },
        decreases filenames.len() - i,
    {
        let c = chars::chars_of(filenames[i].as_str());
        assert(fs.skip(i as int)[0] == filenames@[i as int]@);
        assert(fs.skip(i as int).drop_first() == fs.skip(i + 1));
        if chars::chars_eq(&c, &target) {
            return Some(i);
        }
        i += 1;
    }
    None
}

} // verus!
