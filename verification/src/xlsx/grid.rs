//! Where the cells of a worksheet go: each row read once, each cell at a
//! position of its own within its row, column ranges and their styles, and
//! merged ranges that never overlap.
use super::coordinates::{
    column_index, column_index_spec, coordinate, coordinate_spec, overlaps, overlaps_spec, range,
    range_spec, row_index, row_index_spec,
};
use super::{unsigned, unsigned_spec, Budget, MAX_COLUMNS, MAX_ROWS};
use crate::error::Error;
use crate::model::CellRange;
use crate::text::utf8;
use crate::xml::{attr_spec, Node};
use vstd::prelude::*;

verus! {

/// Merged ranges a workbook may hold.
pub const MAX_MERGES: usize = 1000;

/// The zero-based row of a `row` element: its `r` (a 1-based number), or
/// the row after `last` (the 1-based number of the previous row) when it
/// has none.
pub open spec fn row_number_spec(row: Node, last: u32) -> Result<u32, Error> {
    let r = attr_spec(row, "r"@);
    if r.len() == 0 {
        row_index_spec((last + 1) as u32)
    } else {
        match unsigned_spec(utf8(r)) {
            Err(e) => Err(e),
            Ok(v) => row_index_spec(v),
        }
    }
}

/// The zero-based position of a cell element in row `row`: its `r`
/// reference, or the column after `last` (the 1-based number of the
/// previous cell) when it has none.
pub open spec fn cell_position_spec(cell: Node, row: u32, last: u32) -> Result<(u32, u32), Error> {
    let r = attr_spec(cell, "r"@);
    if r.len() == 0 {
        match column_index_spec((last + 1) as u32) {
            Err(e) => Err(e),
            Ok(c) => Ok((row, c)),
        }
    } else {
        coordinate_spec(utf8(r))
    }
}

/// The rows and cells of a worksheet read so far.
pub struct Placement {
    /// Which rows have been read.
    pub rows: Vec<bool>,
    /// The 1-based number of the last row read (0 before the first).
    pub last_row: u32,
    /// The row being read.
    pub row: u32,
    /// Which columns of the row being read hold a cell.
    pub columns: Vec<bool>,
    /// The 1-based number of the last column used in the row being read.
    pub last_column: u32,
    /// Every position that holds a cell.
    pub placed: Ghost<Set<(u32, u32)>>,
}

impl Placement {
    pub open spec fn wf(&self) -> bool {
        &&& self.rows@.len() == MAX_ROWS
        &&& self.columns@.len() == MAX_COLUMNS
        &&& self.last_row <= MAX_ROWS
        &&& self.last_column <= MAX_COLUMNS
        &&& self.row < MAX_ROWS
        &&& self.last_row > 0 ==> self.rows@[self.row as int] && self.last_row == self.row + 1
        &&& forall|c: int| #![trigger self.columns@[c]]
            0 <= c < MAX_COLUMNS ==> (self.columns@[c] <==> self.placed@.contains(
                (self.row, c as u32),
            ))
        &&& forall|p: (u32, u32)| #[trigger]
            self.placed@.contains(p) ==> p.0 < MAX_ROWS && p.1 < MAX_COLUMNS && self.rows@[p.0 as int]
    }

    /// Nothing read yet.
    pub fn new() -> (r: Placement)
        ensures
            r.wf(),
            r.placed@ == Set::<(u32, u32)>::empty(),
            r.last_row == 0,
            forall|i: int| 0 <= i < MAX_ROWS ==> !r.rows@[i],
    {
        let mut rows: Vec<bool> = Vec::new();
        let mut i: u32 = 0;
        while i < MAX_ROWS
            invariant
                i <= MAX_ROWS,
                rows@.len() == i,
                forall|j: int| 0 <= j < i ==> !rows@[j],
            decreases MAX_ROWS - i,
        {
            rows.push(false);
            i = i + 1;
        }
        let mut columns: Vec<bool> = Vec::new();
        let mut k: u32 = 0;
        while k < MAX_COLUMNS
            invariant
                k <= MAX_COLUMNS,
                columns@.len() == k,
                forall|j: int| 0 <= j < k ==> !columns@[j],
            decreases MAX_COLUMNS - k,
        {
            columns.push(false);
            k = k + 1;
        }
        Placement {
            rows,
            last_row: 0,
            row: 0,
            columns,
            last_column: 0,
            placed: Ghost(Set::empty()),
        }
    }

    /// Starts reading a `row` element: its zero-based index, which must
    /// not have been read before.
    #[verifier::loop_isolation(false)]
    pub fn start_row(&mut self, row: &Node) -> (r: Result<u32, Error>)
        requires
            old(self).wf(),
        ensures
            final(self).wf(),
            final(self).placed@ == old(self).placed@,
            match row_number_spec(*row, old(self).last_row) {
                Err(e) => r == Err::<u32, Error>(e),
                Ok(i) => if old(self).rows@[i as int] {
                    r == Err::<u32, Error>(Error::Invalid("Duplicate XLSX row"))
                } else {
                    &&& r == Ok::<u32, Error>(i)
                    &&& final(self).rows@ == old(self).rows@.update(i as int, true)
                    &&& final(self).row == i
                    &&& final(self).last_row == i + 1
                    &&& final(self).last_column == 0
                    &&& forall|c: int| 0 <= c < MAX_COLUMNS ==> !final(self).columns@[c]
                },
            },
    {
        let r = row.attr("r");
        let index = if r.as_bytes().len() == 0 {
            proof {
                crate::text::lemma_empty_bytes(r);
            }
            row_index(self.last_row + 1)?
        } else {
            proof {
                crate::text::lemma_empty_bytes(r);
            }
            row_index(unsigned(r)?)?
        };
        if self.rows[index as usize] {
            return Err(Error::Invalid("Duplicate XLSX row"));
        }
        self.rows.set(index as usize, true);
        self.row = index;
        self.last_row = index + 1;
        self.last_column = 0;
        let mut c: usize = 0;
        while c < MAX_COLUMNS as usize
            invariant
                self.rows@.len() == MAX_ROWS,
                self.columns@.len() == MAX_COLUMNS,
                self.rows@ == old(self).rows@.update(index as int, true),
                self.row == index,
                self.last_row == index + 1,
                self.last_column == 0,
                self.placed@ == old(self).placed@,
                index < MAX_ROWS,
                !old(self).rows@[index as int],
                forall|p: (u32, u32)| #[trigger]
                    old(self).placed@.contains(p) ==> p.0 < MAX_ROWS && p.1 < MAX_COLUMNS
                        && old(self).rows@[p.0 as int],
                c <= MAX_COLUMNS,
                forall|j: int| 0 <= j < c ==> !self.columns@[j],
            decreases MAX_COLUMNS - c,
        {
            self.columns.set(c, false);
            c = c + 1;
        }
        proof {
            assert forall|j: int| #![trigger self.columns@[j]]
                0 <= j < MAX_COLUMNS implies (self.columns@[j] <==> self.placed@.contains(
                (self.row, j as u32),
            )) by {
                if self.placed@.contains((self.row, j as u32)) {
                    assert(old(self).rows@[index as int]);
                }
            }
        }
        Ok(index)
    }

    /// Places a cell element of the row being read: its position, which
    /// must lie in that row and not hold a cell already.
    pub fn place(&mut self, cell: &Node) -> (r: Result<(u32, u32), Error>)
        requires
            old(self).wf(),
            old(self).last_row > 0,
        ensures
            final(self).wf(),
            final(self).rows == old(self).rows,
            final(self).row == old(self).row,
            final(self).last_row == old(self).last_row,
            match cell_position_spec(*cell, old(self).row, old(self).last_column) {
                Err(e) => r == Err::<(u32, u32), Error>(e),
                Ok(p) => if p.0 != old(self).row {
                    r == Err::<(u32, u32), Error>(
                        Error::Invalid("Cell reference does not match its row"),
                    )
                } else if old(self).placed@.contains(p) {
                    r == Err::<(u32, u32), Error>(Error::Invalid("Duplicate XLSX cell"))
                } else {
                    &&& r == Ok::<(u32, u32), Error>(p)
                    &&& final(self).placed@ == old(self).placed@.insert(p)
                    &&& final(self).last_column == p.1 + 1
                },
            },
            r is Err ==> final(self).placed@ == old(self).placed@,
    {
        let r = cell.attr("r");
        let (row, column) = if r.as_bytes().len() == 0 {
            proof {
                crate::text::lemma_empty_bytes(r);
            }
            (self.row, column_index(self.last_column + 1)?)
        } else {
            proof {
                crate::text::lemma_empty_bytes(r);
            }
            coordinate(r)?
        };
        if row != self.row {
            return Err(Error::Invalid("Cell reference does not match its row"));
        }
        proof {
            assert(self.columns@[column as int] <==> self.placed@.contains((row, column)));
        }
        if self.columns[column as usize] {
            return Err(Error::Invalid("Duplicate XLSX cell"));
        }
        self.columns.set(column as usize, true);
        self.last_column = column + 1;
        proof {
            self.placed@ = self.placed@.insert((row, column));
            assert forall|c: int| #![trigger self.columns@[c]]
                0 <= c < MAX_COLUMNS implies (self.columns@[c] <==> self.placed@.contains(
                (self.row, c as u32),
            )) by {
                if c != column as int {
                    assert(old(self).columns@[c] <==> old(self).placed@.contains(
                        (old(self).row, c as u32),
                    ));
                }
            }
        }
        Ok((row, column))
    }
}

/// The zero-based columns a `col` element spans: from its `min` to its
/// `max`, which must not come first.
pub open spec fn column_span_spec(col: Node) -> Result<(u32, u32), Error> {
    match unsigned_spec(utf8(attr_spec(col, "min"@))) {
        Err(e) => Err(e),
        Ok(min) => match column_index_spec(min) {
            Err(e) => Err(e),
            Ok(start) => match unsigned_spec(utf8(attr_spec(col, "max"@))) {
                Err(e) => Err(e),
                Ok(max) => match column_index_spec(max) {
                    Err(e) => Err(e),
                    Ok(end) => if start > end {
                        Err(Error::Invalid("Reversed XLSX column range"))
                    } else {
                        Ok((start, end))
                    },
                },
            },
        },
    }
}

/// The zero-based columns a `col` element spans.
pub fn column_span(col: &Node) -> (r: Result<(u32, u32), Error>)
    ensures
        r == column_span_spec(*col),
        r matches Ok(s) ==> s.0 <= s.1 < MAX_COLUMNS,
{
    let start = column_index(unsigned(col.attr("min"))?)?;
    let end = column_index(unsigned(col.attr("max"))?)?;
    if start > end {
        return Err(Error::Invalid("Reversed XLSX column range"));
    }
    Ok((start, end))
}

/// The style of each column of a worksheet (0 unless a `col` sets it).
pub struct ColumnStyles {
    pub styles: Vec<u32>,
}

impl ColumnStyles {
    pub open spec fn wf(&self) -> bool {
        self.styles@.len() == MAX_COLUMNS
    }

    /// Every column has style 0.
    pub fn new() -> (r: ColumnStyles)
        ensures
            r.wf(),
            forall|c: int| 0 <= c < MAX_COLUMNS ==> r.styles@[c] == 0,
    {
        let mut styles: Vec<u32> = Vec::new();
        let mut k: u32 = 0;
        while k < MAX_COLUMNS
            invariant
                k <= MAX_COLUMNS,
                styles@.len() == k,
                forall|j: int| 0 <= j < k ==> styles@[j] == 0,
            decreases MAX_COLUMNS - k,
        {
            styles.push(0);
            k = k + 1;
        }
        ColumnStyles { styles }
    }

    /// Gives the columns `start..=end` the style `style`.
    pub fn assign(&mut self, start: u32, end: u32, style: u32)
        requires
            old(self).wf(),
            start <= end < MAX_COLUMNS,
        ensures
            final(self).wf(),
            forall|c: int| 0 <= c < MAX_COLUMNS ==> #[trigger] final(self).styles@[c] == if start
                <= c <= end {
                style
            } else {
                old(self).styles@[c]
            },
    {
        let mut c: u32 = start;
        while c <= end
            invariant
                start <= c <= end + 1,
                end < MAX_COLUMNS,
                self.wf(),
                forall|j: int| 0 <= j < MAX_COLUMNS ==> #[trigger] self.styles@[j] == if start <= j
                    < c {
                    style
                } else {
                    old(self).styles@[j]
                },
            decreases end + 1 - c,
        {
            self.styles.set(c as usize, style);
            c = c + 1;
        }
    }

    /// The style of column `column`.
    pub fn get(&self, column: u32) -> (r: u32)
        requires
            self.wf(),
            column < MAX_COLUMNS,
        ensures
            r == self.styles@[column as int],
    {
        self.styles[column as usize]
    }
}

/// No two ranges of the list overlap.
pub open spec fn disjoint(ranges: Seq<CellRange>) -> bool {
    forall|i: int, j: int|
        0 <= i < j < ranges.len() ==> !overlaps_spec(#[trigger] ranges[i], #[trigger] ranges[j])
}

/// The merged ranges of a worksheet, which never overlap.
pub struct Merges {
    pub ranges: Vec<CellRange>,
}

impl Merges {
    pub open spec fn wf(&self) -> bool {
        disjoint(self.ranges@)
    }

    /// No merged ranges.
    pub fn new() -> (r: Merges)
        ensures
            r.wf(),
            r.ranges@.len() == 0,
    {
        Merges { ranges: Vec::new() }
    }

    /// Adds the range of a `mergeCell` element, counted against the
    /// workbook's 1000 merged ranges; it must not overlap a range already
    /// merged.
    #[verifier::loop_isolation(false)]
    pub fn add(&mut self, node: &Node, budget: &mut Budget) -> (r: Result<CellRange, Error>)
        requires
            old(self).wf(),
            old(budget).merges < usize::MAX,
        ensures
            final(self).wf(),
            final(budget).merges == old(budget).merges + 1,
            final(budget).cells == old(budget).cells,
            final(budget).text == old(budget).text,
            r is Err ==> final(self).ranges@ == old(self).ranges@,
            r matches Ok(g) ==> g.start_row <= g.end_row < MAX_ROWS && g.start_column <= g.end_column
                < MAX_COLUMNS,
            old(budget).merges + 1 > MAX_MERGES ==> r == Err::<CellRange, Error>(
                Error::Limit("XLSX exceeds 1000 merged ranges"),
            ),
            old(budget).merges + 1 <= MAX_MERGES ==> match range_spec(
                utf8(attr_spec(*node, "ref"@)),
            ) {
                Err(e) => r == Err::<CellRange, Error>(e),
                Ok(g) => if exists|i: int|
                    0 <= i < old(self).ranges@.len() && overlaps_spec(
                        g,
                        #[trigger] old(self).ranges@[i],
                    ) {
                    r == Err::<CellRange, Error>(Error::Invalid("Overlapping XLSX merged ranges"))
                } else {
                    r == Ok::<CellRange, Error>(g) && final(self).ranges@ == old(
                        self,
                    ).ranges@.push(g)
                },
            },
    {
        budget.merges = budget.merges + 1;
        if budget.merges > MAX_MERGES {
            return Err(Error::Limit("XLSX exceeds 1000 merged ranges"));
        }
        let g = range(node.attr("ref"))?;
        let mut i: usize = 0;
        while i < self.ranges.len()
            invariant
                i <= self.ranges@.len(),
                self.ranges@ == old(self).ranges@,
                forall|j: int| 0 <= j < i ==> !overlaps_spec(g, #[trigger] self.ranges@[j]),
            decreases self.ranges.len() - i,
        {
            if overlaps(&g, &self.ranges[i]) {
                return Err(Error::Invalid("Overlapping XLSX merged ranges"));
            }
            i = i + 1;
        }
        let ghost before = self.ranges@;
        self.ranges.push(g);
        proof {
            assert forall|a: int, b: int|
                0 <= a < b < self.ranges@.len() implies !overlaps_spec(
                #[trigger] self.ranges@[a],
                #[trigger] self.ranges@[b],
            ) by {
                if b == before.len() {
                    assert(!overlaps_spec(g, before[a]));
                    assert(overlaps_spec(before[a], g) == overlaps_spec(g, before[a]));
                }
            }
        }
        Ok(g)
    }
}

} // verus!
