//! Worksheet cells and merged ranges.
use vstd::prelude::*;

verus! {

/// A stored worksheet cell: zero-based position, display text, style index
/// and whether it holds a number.
#[derive(Debug, Clone)]
pub struct Cell {
    pub row: u32,
    pub column: u32,
    pub text: String,
    pub style: u32,
    pub numeric: bool,
}

/// An inclusive, zero-based rectangle of cells.
#[derive(Debug, Clone, Copy, PartialEq, Eq, Structural)]
pub struct CellRange {
    pub start_row: u32,
    pub start_column: u32,
    pub end_row: u32,
    pub end_column: u32,
}

/// `a` comes no later than `b` in row-major order.
pub open spec fn cell_before(a: Cell, b: Cell) -> bool {
    a.row < b.row || (a.row == b.row && a.column <= b.column)
}

/// The cells run in row-major order.
pub open spec fn cells_sorted(s: Seq<Cell>) -> bool {
    forall|i: int, j: int| 0 <= i < j < s.len() ==> cell_before(#[trigger] s[i], #[trigger] s[j])
}

/// Sorts cells by row, then column (cells at one position keep their order).
pub fn sort_cells(cells: &mut Vec<Cell>)
    ensures
        cells_sorted(final(cells)@),
        final(cells)@.to_multiset() == old(cells)@.to_multiset(),
{
    let n = cells.len();
    if n == 0 {
        return;
    }
    let mut i: usize = 1;
    while i < n
        invariant
            1 <= i <= n,
            n == cells@.len(),
            cells_sorted(cells@.take(i as int)),
            cells@.to_multiset() == old(cells)@.to_multiset(),
        decreases n - i,
    {
        let ghost before = cells@;
        let c = cells.remove(i);
        assert(c == before[i as int]);
        let ghost removed = cells@;
        assert(removed.take(i as int) =~= before.take(i as int));
        let mut j: usize = i;
        while j > 0 && (cells[j - 1].row > c.row || (cells[j - 1].row == c.row && cells[j - 1].column > c.column))
            invariant
                0 <= j <= i,
                i < n,
                cells@ == removed,
                removed.len() == n - 1,
                cells_sorted(removed.take(i as int)),
                forall|k: int| j <= k < i ==> !cell_before(#[trigger] removed[k], c),
            decreases j,
        {
            j = j - 1;
        }
        proof {
            assert forall|k: int| j <= k < i implies c.row < removed[k].row || (c.row == removed[k].row && c.column < removed[k].column) by {
                assert(!cell_before(removed[k], c));
            }
            if j > 0 {
                assert(cell_before(removed[j - 1], c));
            }
        }
        cells.insert(j, c);
        proof {
            let s = cells@;
            assert(s =~= removed.insert(j as int, c));
            assert(s.to_multiset() =~= before.to_multiset()) by {
                broadcast use vstd::multiset::group_multiset_axioms, vstd::seq_lib::to_multiset_contains;

                assert(before.contains(c));
                assert(before.to_multiset().contains(c));
                assert(removed == before.remove(i as int));
                vstd::seq_lib::to_multiset_remove(before, i as int);
                vstd::seq_lib::to_multiset_insert(removed, j as int, c);
                assert(removed.to_multiset() == before.to_multiset().remove(c));
                assert(s.to_multiset() == removed.to_multiset().insert(c));
                assert(before.to_multiset().remove(c).insert(c) =~= before.to_multiset());
            }
            assert forall|a: int, b: int| 0 <= a < b < i + 1 implies cell_before(
                #[trigger] s.take(i + 1)[a],
                #[trigger] s.take(i + 1)[b],
            ) by {
                let t = removed.take(i as int);
                if b < j {
                    assert(t[a] == s[a] && t[b] == s[b]);
                } else if b == j {
                    assert(s[b] == c);
                    assert(t[a] == s[a]);
                    if a < j - 1 {
                        assert(cell_before(t[a], t[j - 1]));
                    }
                } else if a == j {
                    assert(s[a] == c);
                    assert(s[b] == removed[b - 1]);
                } else if a < j {
                    assert(s[a] == t[a]);
                    assert(s[b] == removed[b - 1]);
                    assert(t[b - 1] == removed[b - 1]);
                } else {
                    assert(s[a] == removed[a - 1] && s[b] == removed[b - 1]);
                    assert(t[a - 1] == removed[a - 1] && t[b - 1] == removed[b - 1]);
                }
            }
        }
        i = i + 1;
    }
    assert(cells@.take(n as int) =~= cells@);
}

} // verus!
