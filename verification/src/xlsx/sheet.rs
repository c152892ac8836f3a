//! The integer layout of a worksheet: its columns, rows, cells and merged
//! ranges, the style each cell falls back on, and the extent they cover.
use super::cells::{style_index_spec, Workbook};
use super::grid::{column_span, column_span_spec, disjoint, ColumnStyles, Merges, Placement};
use super::{boolean, boolean_spec, MAX_COLUMNS, MAX_ROWS};
use crate::error::Error;
use crate::spreadsheet::{cells_sorted, sort_cells, Cell, CellRange};
use crate::xml::{attr_spec, child_spec, Node};
use vstd::prelude::*;

verus! {

/// A `col` element: the columns it spans and whether they are hidden.
pub struct ColumnLayout {
    pub start: u32,
    pub end: u32,
    pub hidden: bool,
}

/// A `row` element: its index and whether it is hidden.
pub struct RowLayout {
    pub index: u32,
    pub hidden: bool,
}

/// A worksheet laid out: the `col` and `row` elements taken, the cells
/// (sorted by row, then column), the merged ranges, how many rows and
/// columns the sheet covers, and the error that stops the sheet, met right
/// after the elements listed.
pub struct SheetGrid {
    pub columns: Vec<ColumnLayout>,
    pub rows: Vec<RowLayout>,
    pub cells: Vec<Cell>,
    pub merges: Vec<CellRange>,
    pub row_count: u32,
    pub column_count: u32,
    pub failure: Option<Error>,
}

/// Everything laid out lies within the sheet's extent.
pub open spec fn within(g: SheetGrid) -> bool {
    &&& 1 <= g.row_count <= MAX_ROWS
    &&& 1 <= g.column_count <= MAX_COLUMNS
    &&& forall|k: int| #![trigger g.cells@[k]] 0 <= k < g.cells@.len() ==> g.cells@[k].row < g.row_count
        && g.cells@[k].column < g.column_count
    &&& forall|k: int| #![trigger g.merges@[k]] 0 <= k < g.merges@.len() ==> g.merges@[k].start_row
        <= g.merges@[k].end_row < g.row_count && g.merges@[k].start_column <= g.merges@[k].end_column
        < g.column_count
    &&& forall|k: int| #![trigger g.rows@[k]] 0 <= k < g.rows@.len() ==> g.rows@[k].index < g.row_count
    &&& forall|k: int| #![trigger g.columns@[k]] 0 <= k < g.columns@.len() ==> g.columns@[k].start
        <= g.columns@[k].end < g.column_count
}

/// The `col` elements of a worksheet.
pub open spec fn sheet_cols(root: Node) -> Seq<Node> {
    match child_spec(root, "cols"@) {
        Some(c) => c.children@.filter(|n: Node| n.name@ == "col"@),
        None => Seq::empty(),
    }
}

/// The `row` elements of a worksheet.
pub open spec fn sheet_rows(root: Node) -> Seq<Node> {
    match child_spec(root, "sheetData"@) {
        Some(d) => d.children@.filter(|n: Node| n.name@ == "row"@),
        None => Seq::empty(),
    }
}

/// The `c` elements of a row.
pub open spec fn row_cell_nodes(row: Node) -> Seq<Node> {
    row.children@.filter(|n: Node| n.name@ == "c"@)
}

/// The style of column `c` once the first `n` `col` elements have set
/// theirs: that of the last one spanning it, 0 when none does.
pub open spec fn column_style(cols: Seq<Node>, n: int, c: int, styles: nat) -> u32
    decreases n,
{
    if n <= 0 || n > cols.len() {
        0
    } else {
        match column_span_spec(cols[n - 1]) {
            Ok(sp) => match style_index_spec(attr_spec(cols[n - 1], "style"@), 0, styles) {
                Ok(st) => if sp.0 <= c <= sp.1 {
                    st
                } else {
                    column_style(cols, n - 1, c, styles)
                },
                Err(_) => column_style(cols, n - 1, c, styles),
            },
            Err(_) => column_style(cols, n - 1, c, styles),
        }
    }
}

/// The style a cell of `row` falls back on: the row's own style when the
/// row sets a custom format (by default, when it names a style), else the
/// style of the cell's column.
pub open spec fn fallback_style(row: Node, column_style: u32, styles: nat) -> u32 {
    let s = attr_spec(row, "s"@);
    if boolean_spec(attr_spec(row, "customFormat"@), s.len() != 0) == Ok::<bool, Error>(true) {
        match style_index_spec(s, 0, styles) {
            Ok(v) => v,
            Err(_) => 0,
        }
    } else {
        column_style
    }
}

/// `c` is the cell of one of `row`'s `c` elements: its style is that
/// element's own style reference, falling back on `fallback_style`.
pub open spec fn styled_in_row(row: Node, cols: Seq<Node>, c: Cell, styles: nat) -> bool {
    exists|j: int|
        0 <= j < row_cell_nodes(row).len() && style_index_spec(
            attr_spec(#[trigger] row_cell_nodes(row)[j], "s"@),
            fallback_style(row, column_style(cols, cols.len() as int, c.column as int, styles), styles),
            styles,
        ) == Ok::<u32, Error>(c.style)
}

/// `c` is the cell of a `c` element of one of the worksheet's rows, styled
/// as `styled_in_row` says.
pub open spec fn styled_in_sheet(root: Node, c: Cell, styles: nat) -> bool {
    exists|i: int|
        0 <= i < sheet_rows(root).len() && styled_in_row(#[trigger] sheet_rows(root)[i], sheet_cols(root), c, styles)
}

fn failed(columns: Vec<ColumnLayout>, rows: Vec<RowLayout>, cells: Vec<Cell>, e: Error) -> (r: SheetGrid)
    ensures
        r.failure == Some(e),
        r.columns == columns,
        r.rows == rows,
        r.cells == cells,
{
    SheetGrid { columns, rows, cells, merges: Vec::new(), row_count: 1, column_count: 1, failure: Some(e) }
}

/// The `col` elements: their spans, the column styles they set, the
/// columns covered, and the error met.
fn lay_columns(root: &Node, workbook: &Workbook) -> (r: (Vec<ColumnLayout>, ColumnStyles, u32, Option<Error>))
    ensures
        r.1.wf(),
        r.3 is None ==> forall|c: int|
            0 <= c < MAX_COLUMNS ==> #[trigger] r.1.styles@[c] == column_style(
                sheet_cols(*root),
                sheet_cols(*root).len() as int,
                c,
                workbook.formats@.len(),
            ),
        1 <= r.2 <= MAX_COLUMNS,
        forall|k: int| #![trigger r.0@[k]] 0 <= k < r.0@.len() ==> r.0@[k].start <= r.0@[k].end < r.2,
{
    let mut column_count: u32 = 1;
    let mut columns: Vec<ColumnLayout> = Vec::new();
    let mut styles = ColumnStyles::new();
    let col_nodes: Vec<&Node> = match root.child("cols") {
        Some(c) => c.named("col"),
        None => Vec::new(),
    };
    let ghost cols = sheet_cols(*root);
    assert(col_nodes@.map_values(|n: &Node| *n) =~= cols);
    let mut i: usize = 0;
    while i < col_nodes.len()
        invariant
            i <= col_nodes@.len(),
            cols == sheet_cols(*root),
            col_nodes@.map_values(|n: &Node| *n) == cols,
            styles.wf(),
            forall|c: int|
                0 <= c < MAX_COLUMNS ==> #[trigger] styles.styles@[c] == column_style(
                    cols,
                    i as int,
                    c,
                    workbook.formats@.len(),
                ),
            1 <= column_count <= MAX_COLUMNS,
            forall|k: int| #![trigger columns@[k]] 0 <= k < columns@.len() ==> columns@[k].start
                <= columns@[k].end < column_count,
        decreases col_nodes.len() - i,
    {
        let col = col_nodes[i];
        assert(cols[i as int] == *col);
        let (start, end) = match column_span(col) {
            Ok(s) => s,
            Err(e) => return (columns, styles, column_count, Some(e)),
        };
        let style = match workbook.style_index(col.attr("style"), 0) {
            Ok(s) => s,
            Err(e) => return (columns, styles, column_count, Some(e)),
        };
        let hidden = match boolean(col.attr("hidden"), false) {
            Ok(h) => h,
            Err(e) => return (columns, styles, column_count, Some(e)),
        };
        if column_count < end + 1 {
            column_count = end + 1;
        }
        let ghost before = columns@;
        columns.push(ColumnLayout { start, end, hidden });
        assert forall|k: int| #![trigger columns@[k]] 0 <= k < columns@.len() implies columns@[k].start
            <= columns@[k].end < column_count by {
            if k < before.len() {
                assert(columns@[k] == before[k]);
            } else {
                assert(columns@[k] == ColumnLayout { start, end, hidden });
            }
        }
        styles.assign(start, end, style);
        i = i + 1;
    }
    assert(i == cols.len());
    (columns, styles, column_count, None)
}

/// The cells of one row, `index`, each falling back on the row's style or
/// its column's.
/// One `c` element of row `index`: placed, falling back on the row's or its
/// column's style, and read.
fn lay_cell(
    root: &Node,
    row: &Node,
    k: usize,
    node: &Node,
    index: u32,
    use_row_style: bool,
    row_style: u32,
    styles: &ColumnStyles,
    placement: &mut Placement,
    workbook: &mut Workbook,
    warnings: &mut Vec<String>,
    column_count: &mut u32,
    row_count: u32,
) -> (r: Result<Cell, Error>)
    requires
        k < row_cell_nodes(*row).len(),
        row_cell_nodes(*row)[k as int] == *node,
        styles.wf(),
        old(placement).wf(),
        old(placement).last_row > 0,
        old(placement).row == index,
        index < row_count <= MAX_ROWS,
        1 <= *old(column_count) <= MAX_COLUMNS,
        forall|c: int|
            0 <= c < MAX_COLUMNS ==> #[trigger] styles.styles@[c] == column_style(
                sheet_cols(*root),
                sheet_cols(*root).len() as int,
                c,
                old(workbook).formats@.len(),
            ),
        boolean_spec(attr_spec(*row, "customFormat"@), attr_spec(*row, "s"@).len() != 0) == Ok::<bool, Error>(use_row_style),
        use_row_style ==> style_index_spec(attr_spec(*row, "s"@), 0, old(workbook).formats@.len()) == Ok::<u32, Error>(row_style),
    ensures
        final(placement).wf(),
        final(placement).last_row > 0,
        final(placement).row == index,
        *old(column_count) <= *final(column_count) <= MAX_COLUMNS,
        r matches Ok(c) ==> c.row < row_count && c.column < *final(column_count) && styled_in_row(
            *row,
            sheet_cols(*root),
            c,
            old(workbook).formats@.len(),
        ),
        final(workbook).formats == old(workbook).formats,
        final(workbook).strings == old(workbook).strings,
        final(workbook).date1904 == old(workbook).date1904,
        final(workbook).budget.merges == old(workbook).budget.merges,
{
    let ghost len = workbook.formats@.len();
    let (r, column) = match placement.place(node) {
        Ok(p) => p,
        Err(e) => return Err(e),
    };
    assert(placement.placed@.contains((r, column)));
    if *column_count < column + 1 {
        *column_count = column + 1;
    }
    let style = if use_row_style {
        row_style
    } else {
        styles.get(column)
    };
    let cell = Cell { row: r, column, text: String::new(), style, numeric: false };
    match workbook.cell(node, cell, warnings) {
        Ok(out) => {
            proof {
                assert(style == fallback_style(
                    *row,
                    column_style(sheet_cols(*root), sheet_cols(*root).len() as int, column as int, len),
                    len,
                ));
                assert(styled_in_row(*row, sheet_cols(*root), out, len)) by {
                    assert(row_cell_nodes(*row)[k as int] == *node);
                }
            }
            Ok(out)
        },
        Err(e) => Err(e),
    }
}

#[verifier::spinoff_prover]
#[verifier::rlimit(80)]
fn lay_cells(
    root: &Node,
    row: &Node,
    index: u32,
    use_row_style: bool,
    row_style: u32,
    styles: &ColumnStyles,
    placement: &mut Placement,
    workbook: &mut Workbook,
    warnings: &mut Vec<String>,
    cells: &mut Vec<Cell>,
    column_count: &mut u32,
    row_count: u32,
) -> (r: Option<Error>)
    requires
        styles.wf(),
        old(placement).wf(),
        old(placement).last_row > 0,
        old(placement).row == index,
        index < row_count <= MAX_ROWS,
        1 <= *old(column_count) <= MAX_COLUMNS,
        forall|m: int| #![trigger old(cells)@[m]] 0 <= m < old(cells)@.len() ==> old(cells)@[m].row < row_count
            && old(cells)@[m].column < *old(column_count),
        forall|c: int|
            0 <= c < MAX_COLUMNS ==> #[trigger] styles.styles@[c] == column_style(
                sheet_cols(*root),
                sheet_cols(*root).len() as int,
                c,
                old(workbook).formats@.len(),
            ),
        boolean_spec(attr_spec(*row, "customFormat"@), attr_spec(*row, "s"@).len() != 0) == Ok::<bool, Error>(use_row_style),
        use_row_style ==> style_index_spec(attr_spec(*row, "s"@), 0, old(workbook).formats@.len()) == Ok::<u32, Error>(row_style),
    ensures
        final(cells)@.len() >= old(cells)@.len(),
        forall|m: int| #![trigger final(cells)@[m]] 0 <= m < old(cells)@.len() ==> final(cells)@[m] == old(cells)@[m],
        forall|m: int| #![trigger final(cells)@[m]] old(cells)@.len() <= m < final(cells)@.len() ==> styled_in_row(
            *row,
            sheet_cols(*root),
            final(cells)@[m],
            old(workbook).formats@.len(),
        ),
        final(placement).wf(),
        *old(column_count) <= *final(column_count) <= MAX_COLUMNS,
        forall|m: int| #![trigger final(cells)@[m]] 0 <= m < final(cells)@.len() ==> final(cells)@[m].row < row_count
            && final(cells)@[m].column < *final(column_count),
        final(workbook).formats == old(workbook).formats,
        final(workbook).strings == old(workbook).strings,
        final(workbook).date1904 == old(workbook).date1904,
        final(workbook).budget.merges == old(workbook).budget.merges,
{
    let cell_nodes = row.named("c");
    let ghost nodes = row_cell_nodes(*row);
    let ghost n0 = cells@.len();
    let ghost first = cells@;
    let ghost len = workbook.formats@.len();
    assert(cell_nodes@.map_values(|n: &Node| *n) =~= nodes);
    let mut k: usize = 0;
    while k < cell_nodes.len()
        invariant
            k <= cell_nodes@.len(),
            nodes == row_cell_nodes(*row),
            cell_nodes@.map_values(|n: &Node| *n) == nodes,
            len == old(workbook).formats@.len(),
            first == old(cells)@,
            n0 == first.len(),
            cells@.len() >= n0,
            forall|m: int| #![trigger cells@[m]] 0 <= m < n0 ==> cells@[m] == first[m],
            forall|m: int| #![trigger cells@[m]] n0 <= m < cells@.len() ==> styled_in_row(
                *row,
                sheet_cols(*root),
                cells@[m],
                len,
            ),
            styles.wf(),
            forall|c: int|
                0 <= c < MAX_COLUMNS ==> #[trigger] styles.styles@[c] == column_style(
                    sheet_cols(*root),
                    sheet_cols(*root).len() as int,
                    c,
                    len,
                ),
            boolean_spec(attr_spec(*row, "customFormat"@), attr_spec(*row, "s"@).len() != 0) == Ok::<bool, Error>(use_row_style),
            use_row_style ==> style_index_spec(attr_spec(*row, "s"@), 0, len) == Ok::<u32, Error>(row_style),
            placement.wf(),
            placement.last_row > 0,
            placement.row == index,
            index < row_count <= MAX_ROWS,
            1 <= *old(column_count),
            *old(column_count) <= *column_count <= MAX_COLUMNS,
            forall|m: int| #![trigger cells@[m]] 0 <= m < cells@.len() ==> cells@[m].row < row_count
                && cells@[m].column < *column_count,
            workbook.formats == old(workbook).formats,
            workbook.strings == old(workbook).strings,
            workbook.date1904 == old(workbook).date1904,
            workbook.budget.merges == old(workbook).budget.merges,
        decreases cell_nodes.len() - k,
    {
        let node = cell_nodes[k];
        assert(nodes[k as int] == *node);
        let ghost before = cells@;
        match lay_cell(root, row, k, node, index, use_row_style, row_style, styles, placement, workbook, warnings, column_count, row_count) {
            Ok(out) => {
                let ghost o = out;
                cells.push(out);
                assert forall|m: int| #![trigger cells@[m]] 0 <= m < cells@.len() implies cells@[m].row < row_count
                    && cells@[m].column < *column_count by {
                    if m < before.len() {
                        assert(cells@[m] == before[m]);
                    } else {
                        assert(cells@[m] == o);
                    }
                }
                assert forall|m: int| #![trigger cells@[m]] n0 <= m < cells@.len() implies styled_in_row(
                    *row,
                    sheet_cols(*root),
                    cells@[m],
                    len,
                ) by {
                    if m < before.len() {
                        assert(cells@[m] == before[m]);
                    } else {
                        assert(cells@[m] == o);
                    }
                }
                assert forall|m: int| #![trigger cells@[m]] 0 <= m < n0 implies cells@[m] == first[m] by {
                    assert(cells@[m] == before[m]);
                }
            },
            Err(e) => return Some(e),
        }
        k = k + 1;
    }
    None
}

/// The `row` elements and their cells.
fn lay_rows(
    root: &Node,
    default_hidden: bool,
    styles: &ColumnStyles,
    workbook: &mut Workbook,
    warnings: &mut Vec<String>,
    column_count: &mut u32,
) -> (r: (Vec<RowLayout>, Vec<Cell>, u32, Option<Error>))
    requires
        styles.wf(),
        1 <= *old(column_count) <= MAX_COLUMNS,
        forall|c: int|
            0 <= c < MAX_COLUMNS ==> #[trigger] styles.styles@[c] == column_style(
                sheet_cols(*root),
                sheet_cols(*root).len() as int,
                c,
                old(workbook).formats@.len(),
            ),
    ensures
        forall|k: int| #![trigger r.1@[k]] 0 <= k < r.1@.len() ==> styled_in_sheet(*root, r.1@[k], old(workbook).formats@.len()),
        *old(column_count) <= *final(column_count) <= MAX_COLUMNS,
        1 <= r.2 <= MAX_ROWS,
        forall|k: int| #![trigger r.0@[k]] 0 <= k < r.0@.len() ==> r.0@[k].index < r.2,
        forall|k: int| #![trigger r.1@[k]] 0 <= k < r.1@.len() ==> r.1@[k].row < r.2 && r.1@[k].column
            < *final(column_count),
        final(workbook).formats == old(workbook).formats,
        final(workbook).strings == old(workbook).strings,
        final(workbook).date1904 == old(workbook).date1904,
        final(workbook).budget.merges == old(workbook).budget.merges,
{
    let mut placement = Placement::new();
    let mut rows: Vec<RowLayout> = Vec::new();
    let mut cells: Vec<Cell> = Vec::new();
    let mut row_count: u32 = 1;
    let row_nodes: Vec<&Node> = match root.child("sheetData") {
        Some(d) => d.named("row"),
        None => Vec::new(),
    };
    let ghost all = sheet_rows(*root);
    let ghost len = workbook.formats@.len();
    assert(row_nodes@.map_values(|n: &Node| *n) =~= all);
    let mut j: usize = 0;
    while j < row_nodes.len()
        invariant
            j <= row_nodes@.len(),
            all == sheet_rows(*root),
            row_nodes@.map_values(|n: &Node| *n) == all,
            len == old(workbook).formats@.len(),
            forall|c: int|
                0 <= c < MAX_COLUMNS ==> #[trigger] styles.styles@[c] == column_style(
                    sheet_cols(*root),
                    sheet_cols(*root).len() as int,
                    c,
                    len,
                ),
            forall|k: int| #![trigger cells@[k]] 0 <= k < cells@.len() ==> styled_in_sheet(*root, cells@[k], len),
            styles.wf(),
            placement.wf(),
            1 <= *old(column_count),
            *old(column_count) <= *column_count <= MAX_COLUMNS,
            1 <= row_count <= MAX_ROWS,
            forall|k: int| #![trigger rows@[k]] 0 <= k < rows@.len() ==> rows@[k].index < row_count,
            forall|k: int| #![trigger cells@[k]] 0 <= k < cells@.len() ==> cells@[k].row < row_count
                && cells@[k].column < *column_count,
            workbook.formats == old(workbook).formats,
            workbook.strings == old(workbook).strings,
            workbook.date1904 == old(workbook).date1904,
            workbook.budget.merges == old(workbook).budget.merges,
        decreases row_nodes.len() - j,
    {
        let row = row_nodes[j];
        assert(all[j as int] == *row);
        let index = match placement.start_row(row) {
            Ok(x) => x,
            Err(e) => return (rows, cells, row_count, Some(e)),
        };
        let hidden = match boolean(row.attr("hidden"), default_hidden) {
            Ok(h) => h,
            Err(e) => return (rows, cells, row_count, Some(e)),
        };
        if row_count < index + 1 {
            row_count = index + 1;
        }
        let ghost before = rows@;
        rows.push(RowLayout { index, hidden });
        assert forall|k: int| #![trigger rows@[k]] 0 <= k < rows@.len() implies rows@[k].index < row_count by {
            if k < before.len() {
                assert(rows@[k] == before[k]);
            }
        }
        let row_style = match workbook.style_index(row.attr("s"), 0) {
            Ok(s) => s,
            Err(e) => return (rows, cells, row_count, Some(e)),
        };
        let s_attr = row.attr("s");
        proof {
            crate::text::lemma_empty_bytes(s_attr);
        }
        let custom = s_attr.as_bytes().len() != 0;
        let use_row_style = match boolean(row.attr("customFormat"), custom) {
            Ok(b) => b,
            Err(e) => return (rows, cells, row_count, Some(e)),
        };
        let ghost before = cells@;
        let failure = lay_cells(root, row, index, use_row_style, row_style, styles, &mut placement, workbook, warnings, &mut cells, column_count, row_count);
        assert forall|k: int| #![trigger cells@[k]] 0 <= k < cells@.len() implies styled_in_sheet(*root, cells@[k], len) by {
            if k < before.len() {
                assert(cells@[k] == before[k]);
            } else {
                assert(styled_in_row(all[j as int], sheet_cols(*root), cells@[k], len));
            }
        }
        match failure {
            None => {},
            Some(e) => return (rows, cells, row_count, Some(e)),
        }
        j = j + 1;
    }
    (rows, cells, row_count, None)
}

/// The merged ranges, which may not overlap.
fn lay_merges(root: &Node, workbook: &mut Workbook, row_count: &mut u32, column_count: &mut u32) -> (r: (Vec<CellRange>, Option<Error>))
    requires
        old(workbook).budget.merges <= super::grid::MAX_MERGES,
        1 <= *old(row_count) <= MAX_ROWS,
        1 <= *old(column_count) <= MAX_COLUMNS,
    ensures
        disjoint(r.0@),
        *old(row_count) <= *final(row_count) <= MAX_ROWS,
        *old(column_count) <= *final(column_count) <= MAX_COLUMNS,
        forall|q: int| #![trigger r.0@[q]] 0 <= q < r.0@.len() ==> r.0@[q].start_row <= r.0@[q].end_row
            < *final(row_count) && r.0@[q].start_column <= r.0@[q].end_column < *final(column_count),
        final(workbook).formats == old(workbook).formats,
        final(workbook).strings == old(workbook).strings,
        final(workbook).date1904 == old(workbook).date1904,
{
    let mut merges = Merges::new();
    let merge_nodes: Vec<&Node> = match root.child("mergeCells") {
        Some(m) => m.named("mergeCell"),
        None => Vec::new(),
    };
    let mut m: usize = 0;
    while m < merge_nodes.len()
        invariant
            m <= merge_nodes@.len(),
            merges.wf(),
            workbook.budget.merges <= super::grid::MAX_MERGES,
            *old(row_count) <= *row_count <= MAX_ROWS,
            *old(column_count) <= *column_count <= MAX_COLUMNS,
            forall|q: int| #![trigger merges.ranges@[q]] 0 <= q < merges.ranges@.len() ==> merges.ranges@[q].start_row
                <= merges.ranges@[q].end_row < *row_count && merges.ranges@[q].start_column
                <= merges.ranges@[q].end_column < *column_count,
            workbook.formats == old(workbook).formats,
            workbook.strings == old(workbook).strings,
            workbook.date1904 == old(workbook).date1904,
        decreases merge_nodes.len() - m,
    {
        let ghost before_ranges = merges.ranges@;
        let range = match merges.add(merge_nodes[m], &mut workbook.budget) {
            Ok(g) => g,
            Err(e) => return (merges.ranges, Some(e)),
        };
        if *row_count < range.end_row + 1 {
            *row_count = range.end_row + 1;
        }
        if *column_count < range.end_column + 1 {
            *column_count = range.end_column + 1;
        }
        assert forall|q: int| #![trigger merges.ranges@[q]] 0 <= q < merges.ranges@.len() implies merges.ranges@[q].start_row
            <= merges.ranges@[q].end_row < *row_count && merges.ranges@[q].start_column
            <= merges.ranges@[q].end_column < *column_count by {
            if q < merges.ranges@.len() - 1 {
                assert(merges.ranges@[q] == before_ranges[q]);
            }
        }
        m = m + 1;
    }
    (merges.ranges, None)
}

/// Lays out a worksheet: its columns with their styles, its rows and
/// cells (each cell falling back on its row's style when the row sets a
/// custom format, else on its column's), and its merged ranges, which may
/// not overlap; the cells come out sorted by row, then column.
pub fn sheet_grid(root: &Node, default_hidden: bool, workbook: &mut Workbook, warnings: &mut Vec<String>) -> (r: SheetGrid)
    requires
        old(workbook).budget.merges <= super::grid::MAX_MERGES,
    ensures
        final(workbook).formats == old(workbook).formats,
        final(workbook).strings == old(workbook).strings,
        final(workbook).date1904 == old(workbook).date1904,
        r.failure is None ==> cells_sorted(r.cells@) && disjoint(r.merges@) && within(r),
        r.failure is None ==> forall|k: int|
            #![trigger r.cells@[k]]
            0 <= k < r.cells@.len() ==> styled_in_sheet(*root, r.cells@[k], old(workbook).formats@.len()),
{
    let (columns, styles, column_count, failure) = lay_columns(root, workbook);
    if let Some(e) = failure {
        return failed(columns, Vec::new(), Vec::new(), e);
    }
    let mut column_count = column_count;
    let (rows, mut cells, row_count, failure) = lay_rows(root, default_hidden, &styles, workbook, warnings, &mut column_count);
    if let Some(e) = failure {
        return failed(columns, rows, cells, e);
    }
    let mut row_count = row_count;
    let (merges, failure) = lay_merges(root, workbook, &mut row_count, &mut column_count);
    if let Some(e) = failure {
        return failed(columns, rows, cells, e);
    }
    let ghost unsorted = cells@;
    sort_cells(&mut cells);
    proof {
        assert forall|k: int| #![trigger cells@[k]] 0 <= k < cells@.len() implies cells@[k].row < row_count
            && cells@[k].column < column_count by {
            broadcast use vstd::seq_lib::to_multiset_contains;

            assert(cells@.contains(cells@[k]));
            assert(unsorted.to_multiset().count(cells@[k]) > 0);
            assert(unsorted.contains(cells@[k]));
        }
        assert forall|k: int| #![trigger cells@[k]] 0 <= k < cells@.len() implies styled_in_sheet(
            *root,
            cells@[k],
            old(workbook).formats@.len(),
        ) by {
            broadcast use vstd::seq_lib::to_multiset_contains;

            assert(cells@.contains(cells@[k]));
            assert(unsorted.to_multiset().count(cells@[k]) > 0);
            assert(unsorted.contains(cells@[k]));
            let w = choose|w: int| 0 <= w < unsorted.len() && unsorted[w] == cells@[k];
            assert(styled_in_sheet(*root, unsorted[w], old(workbook).formats@.len()));
        }
    }
    SheetGrid { columns, rows, cells, merges, row_count, column_count, failure: None }
}

} // verus!
