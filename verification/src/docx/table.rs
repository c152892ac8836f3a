//! The cell grid of a DOCX table: grid columns, rows with their leading and
//! trailing empty cells, spanning cells, and the table limits.
use super::{claim_cells, grid_count, grid_count_spec, MAX_CELLS, MAX_COLUMNS, MAX_ROWS};
use crate::error::Error;
use crate::xml::{child_spec, Node};
use vstd::prelude::*;

verus! {

broadcast use vstd::seq::group_seq_axioms;

/// One laid-out row: empty cells before the first cell, the span of each
/// cell in order, and the columns the row covers once its trailing empty
/// cells are added.
pub struct RowGrid {
    pub before: usize,
    pub spans: Vec<usize>,
    pub width: usize,
}

/// A laid-out table: the grid columns taken, the rows laid out, the column
/// count every row is padded to, and the error that stops the table, met
/// right after the rows and cells listed.
pub struct TableGrid {
    pub grid_columns: usize,
    pub rows: Vec<RowGrid>,
    pub columns: usize,
    pub failure: Option<Error>,
}

/// A row as values.
pub open spec fn row_view(r: RowGrid) -> (int, Seq<int>, int) {
    (r.before as int, r.spans@.map_values(|s: usize| s as int), r.width as int)
}

/// The larger of two counts.
pub open spec fn larger(a: int, b: int) -> int {
    if a < b {
        b
    } else {
        a
    }
}

/// The error for a table past 32 columns.
pub open spec fn too_wide() -> Error {
    Error::Limit("DOCX table exceeds 32 columns")
}

/// The error for a document past 5000 table cells.
pub open spec fn too_many_cells() -> Error {
    Error::Limit("DOCX exceeds 5000 table cells")
}

/// The `tc` cells of a row.
pub open spec fn row_cells(row: Node) -> Seq<Node> {
    row.children@.filter(|c: Node| c.name@ == "tc"@)
}

/// The cells of a row from index `j` on, starting at column `len`, with the
/// table `w` columns wide and `b` cells claimed: the spans taken, the
/// column reached, the width and claims afterwards, and the error met.
pub open spec fn cells_from(tcs: Seq<Node>, j: int, len: int, w: int, b: int) -> (Seq<int>, int, int, int, Option<Error>)
    decreases tcs.len() - j,
{
    if j < 0 || j >= tcs.len() {
        (Seq::empty(), len, w, b, None)
    } else {
        match grid_count_spec(child_spec(tcs[j], "tcPr"@), "gridSpan"@, 1) {
            Err(e) => (Seq::empty(), len, w, b, Some(e)),
            Ok(span) => if len + span > MAX_COLUMNS {
                (Seq::empty(), len, w, b, Some(too_wide()))
            } else if b + span > MAX_CELLS {
                (Seq::empty(), len, w, b, Some(too_many_cells()))
            } else {
                let rest = cells_from(tcs, j + 1, len + span, larger(w, len + span), b + span);
                (seq![span as int] + rest.0, rest.1, rest.2, rest.3, rest.4)
            },
        }
    }
}

/// One row with the table `w` columns wide and `b` cells claimed: the row
/// laid out, the width and claims afterwards, and the error met.
#[verifier::opaque]
pub open spec fn row_grid_spec(row: Node, w: int, b: int) -> ((int, Seq<int>, int), int, int, Option<Error>) {
    let props = child_spec(row, "trPr"@);
    match grid_count_spec(props, "gridBefore"@, 0) {
        Err(e) => ((0, Seq::empty(), 0), w, b, Some(e)),
        Ok(before) => match grid_count_spec(props, "gridAfter"@, 0) {
            Err(e) => ((0, Seq::empty(), 0), w, b, Some(e)),
            Ok(after) => if b + before > MAX_CELLS {
                ((0, Seq::empty(), 0), w, b, Some(too_many_cells()))
            } else {
                let c = cells_from(row_cells(row), 0, before as int, w, b + before);
                if c.4 is Some {
                    ((before as int, c.0, c.1), c.2, c.3, c.4)
                } else if c.1 + after > MAX_COLUMNS {
                    ((before as int, c.0, c.1), c.2, c.3, Some(too_wide()))
                } else if c.3 + after > MAX_CELLS {
                    ((before as int, c.0, c.1), c.2, c.3, Some(too_many_cells()))
                } else {
                    ((before as int, c.0, c.1 + after), larger(c.2, c.1 + after), c.3 + after, None)
                }
            },
        },
    }
}

/// The rows from index `i` on: the rows laid out, the width and claims
/// afterwards, and the error met (past 500 rows, or in a row).
pub open spec fn rows_from(rows: Seq<Node>, i: int, w: int, b: int) -> (Seq<(int, Seq<int>, int)>, int, int, Option<Error>)
    decreases rows.len() - i,
{
    if i < 0 || i >= rows.len() {
        (Seq::empty(), w, b, None)
    } else if i >= MAX_ROWS {
        (Seq::empty(), w, b, Some(Error::Limit("DOCX table exceeds 500 rows")))
    } else {
        let (row, w2, b2, e) = row_grid_spec(rows[i], w, b);
        if e is Some {
            (seq![row], w2, b2, e)
        } else {
            let rest = rows_from(rows, i + 1, w2, b2);
            (seq![row] + rest.0, rest.1, rest.2, rest.3)
        }
    }
}

/// Padding the rows from index `k` on to `w` columns with `b` cells
/// claimed: the claims afterwards and the error met.
pub open spec fn pad_from(rows: Seq<(int, Seq<int>, int)>, k: int, w: int, b: int) -> (int, Option<Error>)
    decreases rows.len() - k,
{
    if k < 0 || k >= rows.len() {
        (b, None)
    } else {
        let need = if rows[k].2 < w {
            w - rows[k].2
        } else {
            0
        };
        if b + need > MAX_CELLS {
            (b, Some(too_many_cells()))
        } else {
            pad_from(rows, k + 1, w, b + need)
        }
    }
}

/// The grid of a table with `b` cells claimed before it: the grid columns
/// taken, the rows laid out, the column count, the claims afterwards and
/// the error met. More than 32 grid columns stop it at once; a table with
/// no columns at all has one.
pub open spec fn table_grid_spec(node: Node, b: int) -> (int, Seq<(int, Seq<int>, int)>, int, int, Option<Error>) {
    let g = match child_spec(node, "tblGrid"@) {
        Some(grid) => grid.children@.filter(|c: Node| c.name@ == "gridCol"@).len() as int,
        None => 0,
    };
    if g > MAX_COLUMNS {
        (MAX_COLUMNS as int, Seq::empty(), MAX_COLUMNS as int, b, Some(too_wide()))
    } else {
        let r = rows_from(node.children@.filter(|c: Node| c.name@ == "tr"@), 0, g, b);
        if r.3 is Some {
            (g, r.0, r.1, r.2, r.3)
        } else {
            let w = larger(r.1, 1);
            let p = pad_from(r.0, 0, w, r.2);
            (g, r.0, w, p.0, p.1)
        }
    }
}

/// `Some` of the node behind an optional reference.
pub open spec fn deref(o: Option<&Node>) -> Option<Node> {
    match o {
        Some(n) => Some(*n),
        None => None,
    }
}

/// Lays out the cells of a row (`cells_from`).
#[verifier::spinoff_prover]
#[verifier::rlimit(40)]
fn row_cells_grid(row: &Node, before: usize, w: usize, cells: &mut usize) -> (r: (Vec<usize>, usize, usize, Option<Error>))
    requires
        before <= MAX_COLUMNS,
        w <= MAX_COLUMNS,
        *old(cells) <= MAX_CELLS,
    ensures
        (r.0@.map_values(|s: usize| s as int), r.1 as int, r.2 as int, *final(cells) as int, r.3) == cells_from(
            row_cells(*row),
            0,
            before as int,
            w as int,
            *old(cells) as int,
        ),
        r.1 <= MAX_COLUMNS,
        r.2 <= MAX_COLUMNS,
        before <= r.1,
        r.1 <= r.2 || (r.1 == before && r.2 == w),
        w <= r.2,
        *final(cells) <= MAX_CELLS,
{
    let tcs = row.named("tc");
    let ghost tv = tcs@.map_values(|c: &Node| *c);
    let mut spans: Vec<usize> = Vec::new();
    let mut len = before;
    let mut width = w;
    let mut j: usize = 0;
    assert(spans@.map_values(|s: usize| s as int) + cells_from(tv, 0, before as int, w as int, *cells as int).0
        =~= cells_from(tv, 0, before as int, w as int, *cells as int).0);
    while j < tcs.len()
        invariant
            j <= tcs@.len(),
            tv == tcs@.map_values(|c: &Node| *c),
            tv == row_cells(*row),
            before <= len <= MAX_COLUMNS,
            w <= width <= MAX_COLUMNS,
            j == 0 ==> (len == before && width == w),
            j > 0 ==> len <= width,
            *cells <= MAX_CELLS,
            cells_from(tv, 0, before as int, w as int, *old(cells) as int) == (
                spans@.map_values(|s: usize| s as int) + cells_from(tv, j as int, len as int, width as int, *cells as int).0,
                cells_from(tv, j as int, len as int, width as int, *cells as int).1,
                cells_from(tv, j as int, len as int, width as int, *cells as int).2,
                cells_from(tv, j as int, len as int, width as int, *cells as int).3,
                cells_from(tv, j as int, len as int, width as int, *cells as int).4,
            ),
        decreases tcs.len() - j,
    {
        let tc = tcs[j];
        assert(tv[j as int] == *tc);
        let props = tc.child("tcPr");
        assert(deref(props) == child_spec(*tc, "tcPr"@));
        let span = match grid_count(props, "gridSpan", 1) {
            Ok(s) => s,
            Err(e) => {
                assert(spans@.map_values(|s: usize| s as int) + Seq::<int>::empty() =~= spans@.map_values(|s: usize| s as int));
                return (spans, len, width, Some(e));
            },
        };
        if len + span > MAX_COLUMNS {
            assert(spans@.map_values(|s: usize| s as int) + Seq::<int>::empty() =~= spans@.map_values(|s: usize| s as int));
            return (spans, len, width, Some(Error::Limit("DOCX table exceeds 32 columns")));
        }
        let ghost b0 = *cells as int;
        match claim_cells(cells, span) {
            Ok(()) => {},
            Err(e) => {
                assert(spans@.map_values(|s: usize| s as int) + Seq::<int>::empty() =~= spans@.map_values(|s: usize| s as int));
                return (spans, len, width, Some(e));
            },
        }
        let ghost before_spans = spans@.map_values(|s: usize| s as int);
        spans.push(span);
        len = len + span;
        if width < len {
            width = len;
        }
        proof {
            let rest = cells_from(tv, j + 1, len as int, width as int, *cells as int);
            assert(spans@.map_values(|s: usize| s as int) =~= before_spans.push(span as int));
            assert(before_spans + (seq![span as int] + rest.0) =~= before_spans.push(span as int) + rest.0);
        }
        j = j + 1;
    }
    assert(spans@.map_values(|s: usize| s as int) + Seq::<int>::empty() =~= spans@.map_values(|s: usize| s as int));
    (spans, len, width, None)
}

/// Lays out one row (`row_grid_spec`).
fn row_grid(row: &Node, w: usize, cells: &mut usize) -> (r: (RowGrid, usize, Option<Error>))
    requires
        w <= MAX_COLUMNS,
        *old(cells) <= MAX_CELLS,
    ensures
        (row_view(r.0), r.1 as int, *final(cells) as int, r.2) == row_grid_spec(*row, w as int, *old(cells) as int),
        r.1 <= MAX_COLUMNS,
        *final(cells) <= MAX_CELLS,
        w <= r.1,
        r.2 is None ==> r.0.width <= r.1,
{
    reveal(row_grid_spec);
    let props = row.child("trPr");
    assert(deref(props) == child_spec(*row, "trPr"@));
    let empty = RowGrid { before: 0, spans: Vec::new(), width: 0 };
    assert(row_view(empty) == (0int, Seq::<int>::empty(), 0int));
    let before = match grid_count(props, "gridBefore", 0) {
        Ok(c) => c,
        Err(e) => return (empty, w, Some(e)),
    };
    let after = match grid_count(props, "gridAfter", 0) {
        Ok(c) => c,
        Err(e) => return (empty, w, Some(e)),
    };
    match claim_cells(cells, before) {
        Ok(()) => {},
        Err(e) => return (empty, w, Some(e)),
    }
    let (spans, len, width, failure) = row_cells_grid(row, before, w, cells);
    if failure.is_some() {
        return (RowGrid { before, spans, width: len }, width, failure);
    }
    if len + after > MAX_COLUMNS {
        return (RowGrid { before, spans, width: len }, width, Some(Error::Limit("DOCX table exceeds 32 columns")));
    }
    match claim_cells(cells, after) {
        Ok(()) => {},
        Err(e) => return (RowGrid { before, spans, width: len }, width, Some(e)),
    }
    let end = len + after;
    let wider = if width < end {
        end
    } else {
        width
    };
    (RowGrid { before, spans, width: end }, wider, None)
}

/// Lays out the rows (`rows_from`), starting `g` columns wide.
#[verifier::rlimit(60)]
fn rows_grid(node: &Node, g: usize, cells: &mut usize) -> (r: (Vec<RowGrid>, usize, Option<Error>))
    requires
        g <= MAX_COLUMNS,
        *old(cells) <= MAX_CELLS,
    ensures
        (r.0@.map_values(|row: RowGrid| row_view(row)), r.1 as int, *final(cells) as int, r.2) == rows_from(
            node.children@.filter(|c: Node| c.name@ == "tr"@),
            0,
            g as int,
            *old(cells) as int,
        ),
        *final(cells) <= MAX_CELLS,
        r.0@.len() <= MAX_ROWS,
        g <= r.1 <= MAX_COLUMNS,
        r.2 is None ==> forall|k: int| 0 <= k < r.0@.len() ==> #[trigger] r.0@[k].width <= r.1,
{
    let trs = node.named("tr");
    let ghost rv = trs@.map_values(|c: &Node| *c);
    let ghost b0 = *cells as int;
    let mut rows: Vec<RowGrid> = Vec::new();
    let mut w = g;
    let mut i: usize = 0;
    assert(rows@.map_values(|row: RowGrid| row_view(row)) + rows_from(rv, 0, g as int, *old(cells) as int).0 =~= rows_from(rv, 0, g as int, *old(cells) as int).0);
    while i < trs.len()
        invariant
            i <= trs@.len(),
            rv == trs@.map_values(|c: &Node| *c),
            rv == node.children@.filter(|c: Node| c.name@ == "tr"@),
            g <= w <= MAX_COLUMNS,
            *cells <= MAX_CELLS,
            rows@.len() == i,
            i <= MAX_ROWS,
            forall|k: int| 0 <= k < rows@.len() ==> #[trigger] rows@[k].width <= w,
            rows_from(rv, 0, g as int, *old(cells) as int) == (
                rows@.map_values(|row: RowGrid| row_view(row)) + rows_from(rv, i as int, w as int, *cells as int).0,
                rows_from(rv, i as int, w as int, *cells as int).1,
                rows_from(rv, i as int, w as int, *cells as int).2,
                rows_from(rv, i as int, w as int, *cells as int).3,
            ),
        decreases trs.len() - i,
    {
        let ghost before_rows = rows@.map_values(|row: RowGrid| row_view(row));
        if i >= MAX_ROWS {
            let ghost tail = rows_from(rv, i as int, w as int, *cells as int);
            assert(tail.0 =~= Seq::<(int, Seq<int>, int)>::empty());
            assert(tail.3 == Some(Error::Limit("DOCX table exceeds 500 rows")));
            assert(before_rows + tail.0 =~= before_rows);
            return (rows, w, Some(Error::Limit("DOCX table exceeds 500 rows")));
        }
        let tr = trs[i];
        assert(rv[i as int] == *tr);
        let ghost b_row = *cells as int;
        let (row, w2, failure) = row_grid(tr, w, cells);
        let ghost rview = row_view(row);
        rows.push(row);
        proof {
            assert(rows@.map_values(|row: RowGrid| row_view(row)) =~= before_rows.push(rview));
        }
        if failure.is_some() {
            let ghost tail = rows_from(rv, i as int, w as int, b_row);
            assert(tail.0 =~= seq![rview]);
            assert(before_rows + tail.0 =~= before_rows.push(rview));
            return (rows, w2, failure);
        }
        proof {
            let rest = rows_from(rv, i + 1, w2 as int, *cells as int);
            assert(before_rows + (seq![rview] + rest.0) =~= before_rows.push(rview) + rest.0);
        }
        w = w2;
        i = i + 1;
    }
    let ghost laid = rows@.map_values(|row: RowGrid| row_view(row));
    assert(laid + Seq::<(int, Seq<int>, int)>::empty() =~= laid);
    (rows, w, None)
}

/// Pads every row to `columns` (`pad_from`).
fn pad_rows(rows: &Vec<RowGrid>, columns: usize, cells: &mut usize) -> (r: Option<Error>)
    requires
        1 <= columns <= MAX_COLUMNS,
        *old(cells) <= MAX_CELLS,
        forall|m: int| 0 <= m < rows@.len() ==> #[trigger] rows@[m].width <= columns,
    ensures
        (*final(cells) as int, r) == pad_from(
            rows@.map_values(|row: RowGrid| row_view(row)),
            0,
            columns as int,
            *old(cells) as int,
        ),
        *final(cells) <= MAX_CELLS,
{
    let ghost laid = rows@.map_values(|row: RowGrid| row_view(row));
    let mut k: usize = 0;
    while k < rows.len()
        invariant
            k <= rows@.len(),
            laid == rows@.map_values(|row: RowGrid| row_view(row)),
            1 <= columns <= MAX_COLUMNS,
            *cells <= MAX_CELLS,
            forall|m: int| 0 <= m < rows@.len() ==> #[trigger] rows@[m].width <= columns,
            pad_from(laid, 0, columns as int, *old(cells) as int) == pad_from(
                laid,
                k as int,
                columns as int,
                *cells as int,
            ),
        decreases rows.len() - k,
    {
        assert(laid[k as int] == row_view(rows@[k as int]));
        let need = columns - rows[k].width;
        match claim_cells(cells, need) {
            Ok(()) => {},
            Err(e) => {
                return Some(e);
            },
        }
        k = k + 1;
    }
    None
}

/// Lays out a table's cell grid (`table_grid_spec`): at most 32 columns
/// and 500 rows, every row padded to the column count, and each cell,
/// spanned or padding, claimed against the document's 5000 table cells.
pub fn table_grid(node: &Node, cells: &mut usize) -> (r: TableGrid)
    requires
        *old(cells) <= MAX_CELLS,
    ensures
        (r.grid_columns as int, r.rows@.map_values(|row: RowGrid| row_view(row)), r.columns as int, *final(cells) as int, r.failure)
            == table_grid_spec(*node, *old(cells) as int),
        *final(cells) <= MAX_CELLS,
        r.rows@.len() <= MAX_ROWS,
        r.failure is None ==> 1 <= r.columns <= MAX_COLUMNS && forall|k: int|
            0 <= k < r.rows@.len() ==> #[trigger] r.rows@[k].width <= r.columns,
{
    let grid = node.child("tblGrid");
    assert(deref(grid) == child_spec(*node, "tblGrid"@));
    let g: usize = match grid {
        Some(gr) => {
            let cols = gr.named("gridCol");
            assert(cols@.map_values(|c: &Node| *c).len() == cols@.len());
            cols.len()
        },
        None => 0,
    };
    if g > MAX_COLUMNS {
        return TableGrid {
            grid_columns: MAX_COLUMNS,
            rows: Vec::new(),
            columns: MAX_COLUMNS,
            failure: Some(Error::Limit("DOCX table exceeds 32 columns")),
        };
    }
    let (rows, w, failure) = rows_grid(node, g, cells);
    if failure.is_some() {
        return TableGrid { grid_columns: g, rows, columns: w, failure };
    }
    let columns = if w < 1 {
        1
    } else {
        w
    };
    let failure = pad_rows(&rows, columns, cells);
    TableGrid { grid_columns: g, rows, columns, failure }
}

} // verus!
