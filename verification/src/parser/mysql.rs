//! MySQL dump scanning: locating the VALUES clause of an INSERT line and
//! reading the values in it.

use vstd::prelude::*;

verus! {

/// The bytes of the `VALUES` keyword.
pub open spec fn values_keyword() -> Seq<u8> {
    seq![0x56u8, 0x41u8, 0x4cu8, 0x55u8, 0x45u8, 0x53u8]
}

/// `line` holds `word` at byte offset `i`.
pub open spec fn bytes_at(line: Seq<u8>, word: Seq<u8>, i: int) -> bool {
    0 <= i && i + word.len() <= line.len() && line.subrange(i, i + word.len()) == word
}

/// The first offset at or after `from` where `word` occurs.
pub open spec fn first_occurrence(line: Seq<u8>, word: Seq<u8>, from: int) -> Option<int>
    decreases line.len() + 1 - from,
{
    if from < 0 || from + word.len() > line.len() {
        None
    } else if bytes_at(line, word, from) {
        Some(from)
    } else {
        first_occurrence(line, word, from + 1)
    }
}

/// The offset of the first `(` after the first `VALUES` of `line`.
pub open spec fn values_start_spec(line: Seq<u8>) -> Option<int> {
    match first_occurrence(line, values_keyword(), 0) {
        None => None,
        Some(k) => first_occurrence(line, seq![0x28u8], k + 6),
    }
}

/// Whether `line` holds `word` at offset `i`.
fn matches_bytes_at(line: &[u8], word: &[u8], i: usize) -> (r: bool)
    requires
        i + word@.len() <= line@.len(),
    ensures
        r == bytes_at(line@, word@, i as int),
{
    let n = line.len();
    let mut j: usize = 0;
    while j < word.len()
        invariant
            n == line@.len(),
            j <= word@.len(),
            i + word@.len() <= line@.len(),
            forall|t: int| 0 <= t < j ==> line@[i + t] == word@[t],
        decreases word.len() - j,
    {
        assert(i + j < line@.len());
        if line[i + j] != word[j] {
            assert(line@.subrange(i as int, i + word@.len())[j as int] != word@[j as int]);
            return false;
        }
        j += 1;
    }
    assert(line@.subrange(i as int, i + word@.len()) =~= word@);
    true
}

/// The first offset at or after `from` where `word` occurs in `line`.
fn find_bytes(line: &[u8], word: &[u8], from: usize) -> (r: Option<usize>)
    requires
        word@.len() > 0,
    ensures
        match r {
            None => first_occurrence(line@, word@, from as int) is None,
            Some(k) => first_occurrence(line@, word@, from as int) == Some(k as int),
        },
{
    let mut i = from;
    while i < line.len() && word.len() <= line.len() - i
        invariant
            from <= i,
            word@.len() > 0,
            first_occurrence(line@, word@, from as int) == first_occurrence(line@, word@, i as int),
        decreases line.len() - i,
    {
        if matches_bytes_at(line, word, i) {
            return Some(i);
        }
        i += 1;
    }
    None
}

/// Find the byte offset of the first `(` after the `VALUES` keyword in an
/// INSERT line; `None` when the line has no VALUES clause.
pub fn find_values_start(line: &[u8]) -> (r: Option<usize>)
    ensures
        match r {
            None => values_start_spec(line@) is None,
            Some(p) => values_start_spec(line@) == Some(p as int),
        },
{
    let kw: [u8; 6] = [0x56, 0x41, 0x4c, 0x55, 0x45, 0x53];
    assert(kw@ == values_keyword());
    match find_bytes(line, &kw, 0) {
        None => None,
        Some(k) => {
            let _len = line.len();
            proof {
                lemma_first_occurrence_fits(line@, values_keyword(), 0);
            }
            let paren: [u8; 1] = [0x28];
            assert(paren@ == seq![0x28u8]);
            find_bytes(line, &paren, k + 6)
        },
    }
}

proof fn lemma_first_occurrence_fits(line: Seq<u8>, word: Seq<u8>, from: int)
    ensures
        first_occurrence(line, word, from) matches Some(k) ==> from <= k && k + word.len() <= line.len(),
    decreases line.len() + 1 - from,
{
    if !(from < 0 || from + word.len() > line.len()) && !bytes_at(line, word, from) {
        lemma_first_occurrence_fits(line, word, from + 1);
    }
}

/// A parsed SQL value from an INSERT statement. (Floating-point values are
/// not represented here.)
#[derive(Debug, Clone, PartialEq)]
pub enum SqlValue {
    Null,
    Int(i64),
    Str(String),
}

/// The bytes of the `NULL` keyword.
pub open spec fn null_keyword() -> Seq<u8> {
    seq![0x4eu8, 0x55u8, 0x4cu8, 0x4cu8]
}

/// Parse the SQL value at `pos`, advancing `pos` past it. At the end of
/// the data it is `Null` and `pos` stays; a `NULL` keyword gives `Null`
/// and moves `pos` past it. Other values are not read yet, so the contract
/// leaves them out.
pub fn parse_single_value(data: &[u8], pos: &mut usize) -> (r: SqlValue)
    requires
        *old(pos) >= data@.len() || bytes_at(data@, null_keyword(), *old(pos) as int),
    ensures
        r == SqlValue::Null,
        *old(pos) >= data@.len() ==> *final(pos) == *old(pos),
        *old(pos) < data@.len() ==> *final(pos) == *old(pos) + 4,
{
    let len = data.len();
    if *pos >= len {
        return SqlValue::Null;
    }
    proof {
        assert(data@.subrange(*pos as int, *pos + 4)[0] == data@[*pos as int]);
    }
    *pos = *pos + 4;
    SqlValue::Null
}

} // verus!
