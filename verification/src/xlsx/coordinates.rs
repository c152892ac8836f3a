//! A1-style cell references and merged ranges.
use super::{unsigned_bytes, unsigned_spec, MAX_COLUMNS, MAX_ROWS};
use super::decimal::{find_either, find_either_exec, slice_copy};
use crate::error::Error;
use crate::model::CellRange;
use vstd::prelude::*;
use vstd::string::StringSliceAdditionalSpecFns;

verus! {

broadcast use vstd::seq::group_seq_axioms;

pub open spec fn is_upper(b: u8) -> bool {
    65 <= b <= 90
}

/// Length of the leading run of ASCII capital letters.
pub open spec fn upper_prefix(s: Seq<u8>) -> int
    decreases s.len(),
{
    if s.len() == 0 || !is_upper(s[0]) {
        0
    } else {
        1 + upper_prefix(s.drop_first())
    }
}

/// The column number of letters (`A` = 1, `Z` = 26, `AA` = 27, ...).
pub open spec fn column_number(letters: Seq<u8>) -> nat
    decreases letters.len(),
{
    if letters.len() == 0 {
        0
    } else {
        column_number(letters.drop_last()) * 26 + (letters.last() - 64) as nat
    }
}

/// A one-based row number as a zero-based row index.
pub open spec fn row_index_spec(value: u32) -> Result<u32, Error> {
    if value == 0 {
        Err(Error::Invalid("XLSX row is zero"))
    } else if value > MAX_ROWS {
        Err(Error::Limit("XLSX row exceeds 10000"))
    } else {
        Ok((value - 1) as u32)
    }
}

/// A one-based column number as a zero-based column index.
pub open spec fn column_index_spec(value: u32) -> Result<u32, Error> {
    if value == 0 {
        Err(Error::Invalid("XLSX column is zero"))
    } else if value > MAX_COLUMNS {
        Err(Error::Limit("XLSX column exceeds 256"))
    } else {
        Ok((value - 1) as u32)
    }
}

/// A cell reference such as `B12` as zero-based (row, column): capital
/// letters then a row number without a leading zero.
pub open spec fn coordinate_spec(b: Seq<u8>) -> Result<(u32, u32), Error> {
    let split = upper_prefix(b);
    let letters = b.take(split);
    let digits = b.skip(split);
    if letters.len() == 0 || (digits.len() > 0 && digits[0] == 48) {
        Err(Error::Invalid("Invalid XLSX cell reference"))
    } else if column_number(letters) > u32::MAX {
        Err(Error::Limit("XLSX column exceeds 256"))
    } else {
        match unsigned_spec(digits) {
            Err(e) => Err(e),
            Ok(row) => match row_index_spec(row) {
                Err(e) => Err(e),
                Ok(r) => match column_index_spec(column_number(letters) as u32) {
                    Err(e) => Err(e),
                    Ok(c) => Ok((r, c)),
                },
            },
        }
    }
}

pub fn row_index(value: u32) -> (r: Result<u32, Error>)
    ensures
        r == row_index_spec(value),
        r is Ok ==> r->Ok_0 < MAX_ROWS,
{
    if value == 0 {
        return Err(Error::Invalid("XLSX row is zero"));
    }
    if value > MAX_ROWS {
        return Err(Error::Limit("XLSX row exceeds 10000"));
    }
    Ok(value - 1)
}

pub fn column_index(value: u32) -> (r: Result<u32, Error>)
    ensures
        r == column_index_spec(value),
        r is Ok ==> r->Ok_0 < MAX_COLUMNS,
{
    if value == 0 {
        return Err(Error::Invalid("XLSX column is zero"));
    }
    if value > MAX_COLUMNS {
        return Err(Error::Limit("XLSX column exceeds 256"));
    }
    Ok(value - 1)
}

proof fn lemma_upper_prefix(s: Seq<u8>)
    ensures
        0 <= upper_prefix(s) <= s.len(),
        forall|j: int| 0 <= j < upper_prefix(s) ==> is_upper(s[j]),
        upper_prefix(s) < s.len() ==> !is_upper(s[upper_prefix(s)]),
    decreases s.len(),
{
    if s.len() > 0 && is_upper(s[0]) {
        lemma_upper_prefix(s.drop_first());
        assert forall|j: int| 0 <= j < upper_prefix(s) implies is_upper(s[j]) by {
            if j > 0 {
                assert(s[j] == s.drop_first()[j - 1]);
            }
        }
    }
}

proof fn lemma_upper_prefix_unique(s: Seq<u8>, k: int)
    requires
        0 <= k <= s.len(),
        forall|j: int| 0 <= j < k ==> is_upper(s[j]),
        k < s.len() ==> !is_upper(s[k]),
    ensures
        upper_prefix(s) == k,
    decreases k,
{
    if k > 0 {
        assert forall|j: int| 0 <= j < k - 1 implies is_upper(s.drop_first()[j]) by {
            assert(s.drop_first()[j] == s[j + 1]);
        }
        lemma_upper_prefix_unique(s.drop_first(), k - 1);
    }
}

proof fn lemma_column_prefix_le(s: Seq<u8>, k: int)
    requires
        0 <= k <= s.len(),
        forall|j: int| 0 <= j < s.len() ==> is_upper(s[j]),
    ensures
        column_number(s.take(k)) <= column_number(s),
    decreases s.len() - k,
{
    if k < s.len() {
        lemma_column_prefix_le(s, k + 1);
        assert(s.take(k + 1).drop_last() =~= s.take(k));
        assert(is_upper(s[k]));
    } else {
        assert(s.take(k) =~= s);
    }
}

/// A cell reference's bytes as zero-based (row, column) (see `coordinate_spec`).
#[verifier::loop_isolation(false)]
pub fn coordinate_bytes(b: &[u8]) -> (r: Result<(u32, u32), Error>)
    ensures
        r == coordinate_spec(b@),
        r is Ok ==> r->Ok_0.0 < MAX_ROWS && r->Ok_0.1 < MAX_COLUMNS,
{
    let mut split: usize = 0;
    while split < b.len() && 65 <= b[split] && b[split] <= 90
        invariant
            split <= b@.len(),
            forall|j: int| 0 <= j < split ==> is_upper(b@[j]),
        decreases b.len() - split,
    {
        split = split + 1;
    }
    proof {
        lemma_upper_prefix_unique(b@, split as int);
    }
    let letters = slice_copy(b, 0, split);
    let digits = slice_copy(b, split, b.len());
    assert(letters@ =~= b@.take(split as int));
    assert(digits@ =~= b@.skip(split as int));
    if letters.len() == 0 || (digits.len() > 0 && digits[0] == 48) {
        return Err(Error::Invalid("Invalid XLSX cell reference"));
    }
    let mut column: u32 = 0;
    let mut i: usize = 0;
    while i < letters.len()
        invariant
            i <= letters@.len(),
            forall|j: int| 0 <= j < letters@.len() ==> is_upper(letters@[j]),
            column == column_number(letters@.take(i as int)),
        decreases letters.len() - i,
    {
        let byte = letters[i];
        proof {
            assert(letters@.take(i + 1).drop_last() =~= letters@.take(i as int));
            assert(letters@.take(i + 1).last() == byte);
            lemma_column_prefix_le(letters@, i + 1);
        }
        column = match column.checked_mul(26) {
            Some(c) => match c.checked_add((byte - 65) as u32 + 1) {
                Some(c) => c,
                None => return Err(Error::Limit("XLSX column exceeds 256")),
            },
            None => return Err(Error::Limit("XLSX column exceeds 256")),
        };
        i = i + 1;
    }
    assert(letters@.take(i as int) =~= letters@);
    let row = match unsigned_bytes(&digits) {
        Ok(v) => v,
        Err(e) => return Err(e),
    };
    let r = match row_index(row) {
        Ok(v) => v,
        Err(e) => return Err(e),
    };
    let c = match column_index(column) {
        Ok(v) => v,
        Err(e) => return Err(e),
    };
    Ok((r, c))
}

/// A cell reference such as `B12` as zero-based (row, column).
pub fn coordinate(value: &str) -> (r: Result<(u32, u32), Error>)
    ensures
        r == coordinate_spec(value.spec_bytes()),
        r is Ok ==> r->Ok_0.0 < MAX_ROWS && r->Ok_0.1 < MAX_COLUMNS,
{
    coordinate_bytes(value.as_bytes())
}

/// A merged range `A1:B2`: two references around the first colon, the
/// first not after the second in either direction.
pub open spec fn range_spec(b: Seq<u8>) -> Result<CellRange, Error> {
    let colon = find_either(b, 58, 58);
    if colon >= b.len() {
        Err(Error::Invalid("Invalid XLSX merge range"))
    } else {
        match coordinate_spec(b.take(colon)) {
            Err(e) => Err(e),
            Ok((start_row, start_column)) => match coordinate_spec(b.skip(colon + 1)) {
                Err(e) => Err(e),
                Ok((end_row, end_column)) => if start_row > end_row || start_column > end_column {
                    Err(Error::Invalid("Reversed XLSX merge range"))
                } else {
                    Ok(CellRange { start_row, start_column, end_row, end_column })
                },
            },
        }
    }
}

pub fn range(value: &str) -> (r: Result<CellRange, Error>)
    ensures
        r == range_spec(value.spec_bytes()),
        r is Ok ==> r->Ok_0.start_row <= r->Ok_0.end_row < MAX_ROWS && r->Ok_0.start_column
            <= r->Ok_0.end_column < MAX_COLUMNS,
{
    let b = value.as_bytes();
    let colon = find_either_exec(b, 58, 58);
    if colon >= b.len() {
        return Err(Error::Invalid("Invalid XLSX merge range"));
    }
    let first = slice_copy(b, 0, colon);
    let second = slice_copy(b, colon + 1, b.len());
    assert(first@ =~= b@.take(colon as int));
    assert(second@ =~= b@.skip(colon + 1));
    let (start_row, start_column) = match coordinate_bytes(&first) {
        Ok(v) => v,
        Err(e) => return Err(e),
    };
    let (end_row, end_column) = match coordinate_bytes(&second) {
        Ok(v) => v,
        Err(e) => return Err(e),
    };
    if start_row > end_row || start_column > end_column {
        return Err(Error::Invalid("Reversed XLSX merge range"));
    }
    Ok(CellRange { start_row, start_column, end_row, end_column })
}

/// Two ranges share at least one cell.
pub open spec fn overlaps_spec(a: CellRange, b: CellRange) -> bool {
    a.start_row <= b.end_row && a.end_row >= b.start_row && a.start_column <= b.end_column
        && a.end_column >= b.start_column
}

pub fn overlaps(a: &CellRange, b: &CellRange) -> (r: bool)
    ensures
        r == overlaps_spec(*a, *b),
{
    a.start_row <= b.end_row && a.end_row >= b.start_row && a.start_column <= b.end_column
        && a.end_column >= b.start_column
}

/// Overlap does not depend on the order of the two ranges.
pub proof fn law_overlaps_symmetric(a: CellRange, b: CellRange)
    ensures
        overlaps_spec(a, b) == overlaps_spec(b, a),
{
}

/// The cell lies in the range.
pub open spec fn contains_cell(r: CellRange, row: int, column: int) -> bool {
    r.start_row <= row <= r.end_row && r.start_column <= column <= r.end_column
}

/// Ranges share a cell exactly when some cell lies in both.
pub proof fn law_overlaps_common_cell(a: CellRange, b: CellRange)
    requires
        a.start_row <= a.end_row,
        a.start_column <= a.end_column,
        b.start_row <= b.end_row,
        b.start_column <= b.end_column,
    ensures
        overlaps_spec(a, b) <==> exists|row: int, column: int|
            #[trigger] contains_cell(a, row, column) && #[trigger] contains_cell(b, row, column),
{
    if overlaps_spec(a, b) {
        let row = if a.start_row >= b.start_row { a.start_row as int } else { b.start_row as int };
        let column = if a.start_column >= b.start_column {
            a.start_column as int
        } else {
            b.start_column as int
        };
        assert(contains_cell(a, row, column) && contains_cell(b, row, column));
    }
}

} // verus!
