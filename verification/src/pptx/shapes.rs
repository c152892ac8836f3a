//! Shape styles of a slide: the drawn kind of a shape from its geometry,
//! theme line references and the line features that are not drawn.
use super::chart_data::{parse_usize, parse_usize_spec};
use super::colors::Theme;
use super::{has_zero_corner_radius, zero_corner_radius_spec};
use crate::model::ElementType;
use crate::package::Package;
use crate::text::{contains, contains_spec, str_eq, utf8};
use crate::xml::{attr_spec, child_spec, Node};
use vstd::prelude::*;

verus! {

/// The geometry preset after one shape's properties are read: a preset
/// geometry names it (a `roundRect` without corner radius is a `rect`), and
/// a custom geometry makes it `custom`.
pub open spec fn preset_after(preset: Seq<char>, shape: Node) -> Seq<char> {
    match child_spec(shape, "spPr"@) {
        None => preset,
        Some(p) => {
            let named = match child_spec(p, "prstGeom"@) {
                Some(g) => if attr_spec(g, "prst"@) == "roundRect"@ && zero_corner_radius_spec(g) {
                    "rect"@
                } else {
                    attr_spec(g, "prst"@)
                },
                None => preset,
            };
            if child_spec(p, "custGeom"@) is Some {
                "custom"@
            } else {
                named
            }
        },
    }
}

/// The preset after the shapes of `chain` before index `n` are read over
/// `start`.
pub open spec fn preset_through(chain: Seq<&Node>, n: int, start: Seq<char>) -> Seq<char>
    decreases n,
{
    if n <= 0 || n > chain.len() {
        start
    } else {
        preset_after(preset_through(chain, n - 1, start), *chain[n - 1])
    }
}

/// A connector starts as a line, any other shape as a rectangle.
pub open spec fn initial_preset(chain: Seq<&Node>) -> Seq<char> {
    if chain.len() > 0 && chain.last().name@ == "cxnSp"@ {
        "line"@
    } else {
        "rect"@
    }
}

/// The drawn kind of a shape whose inheritance chain (placeholders first,
/// the shape last) is `chain`: rectangles, ellipses and lines are drawn;
/// any other geometry is not.
pub open spec fn shape_kind_spec(chain: Seq<&Node>) -> Option<ElementType> {
    let p = preset_through(chain, chain.len() as int, initial_preset(chain));
    if p == "rect"@ {
        Some(ElementType::RECT)
    } else if p == "ellipse"@ {
        Some(ElementType::ELLIPSE)
    } else if p == "line"@ {
        Some(ElementType::LINE)
    } else {
        None
    }
}

/// The drawn kind of a shape from the geometry along its inheritance
/// chain; `None` for geometry that is not drawn.
pub fn shape_kind(chain: &[&Node]) -> (r: Option<ElementType>)
    ensures
        r == shape_kind_spec(chain@),
{
    let mut preset: &str = "rect";
    proof {
        reveal_strlit("rect");
        reveal_strlit("line");
    }
    if chain.len() > 0 && str_eq(chain[chain.len() - 1].name.as_str(), "cxnSp") {
        preset = "line";
    }
    let ghost start = preset@;
    assert(start == initial_preset(chain@));
    let mut i: usize = 0;
    while i < chain.len()
        invariant
            i <= chain@.len(),
            preset@ == preset_through(chain@, i as int, start),
        decreases chain.len() - i,
    {
        let shape = chain[i];
        if let Some(properties) = shape.child("spPr") {
            if let Some(geometry) = properties.child("prstGeom") {
                preset = geometry.attr("prst");
                if str_eq(preset, "roundRect") && has_zero_corner_radius(geometry) {
                    preset = "rect";
                }
            }
            if properties.child("custGeom").is_some() {
                preset = "custom";
                proof {
                    reveal_strlit("custom");
                }
            }
        }
        i = i + 1;
    }
    proof {
        reveal_strlit("ellipse");
    }
    if str_eq(preset, "rect") {
        Some(ElementType::RECT)
    } else if str_eq(preset, "ellipse") {
        Some(ElementType::ELLIPSE)
    } else if str_eq(preset, "line") {
        Some(ElementType::LINE)
    } else {
        None
    }
}

/// Whether a style's `effectRef` names a theme effect (its `idx` is
/// neither empty nor `0`); effects are not drawn.
pub fn has_theme_effect(style: &Node) -> (r: bool)
    ensures
        r == match child_spec(*style, "effectRef"@) {
            Some(e) => attr_spec(e, "idx"@) != ""@ && attr_spec(e, "idx"@) != "0"@,
            None => false,
        },
{
    match style.child("effectRef") {
        Some(e) => {
            let idx = e.attr("idx");
            !(str_eq(idx, "") || str_eq(idx, "0"))
        },
        None => false,
    }
}

/// What a theme line reference selects from the line styles.
pub enum LineStyle<'a> {
    /// Index 0: no line, without reading any colour.
    Clear,
    /// The line style it names, over the reference's own colour.
    Style(&'a Node),
    /// A style that does not exist: the reference's colour alone, with a
    /// warning.
    Missing,
}

/// The reference's `idx` (0 when it is not a `usize`).
pub open spec fn line_index(reference: Node) -> usize {
    match parse_usize_spec(utf8(attr_spec(reference, "idx"@))) {
        Some(i) => i,
        None => 0,
    }
}

/// What a line reference selects: nothing for index 0, else the style at
/// `index - 1` in the theme's `lnStyleLst`.
pub open spec fn line_style_spec<'a>(theme: Theme, reference: Node) -> LineStyle<'a> {
    let index = line_index(reference);
    if index == 0 {
        LineStyle::Clear
    } else {
        match theme.scheme_list("lnStyleLst"@) {
            Some(l) => if index - 1 < l.children@.len() {
                LineStyle::Style(&l.children@[index - 1])
            } else {
                LineStyle::Missing
            },
            None => LineStyle::Missing,
        }
    }
}

/// The line style a theme line reference (`lnRef`) selects.
pub fn line_style<'a>(theme: &'a Theme, reference: &Node) -> (r: LineStyle<'a>)
    ensures
        r == line_style_spec(*theme, *reference),
{
    let index = match parse_usize(reference.attr("idx")) {
        Some(i) => i,
        None => 0,
    };
    if index == 0 {
        return LineStyle::Clear;
    }
    proof {
        reveal_strlit("lnStyleLst");
    }
    match theme.format_list("lnStyleLst") {
        Some(l) => if index - 1 < l.children.len() {
            LineStyle::Style(&l.children[index - 1])
        } else {
            LineStyle::Missing
        },
        None => LineStyle::Missing,
    }
}

/// A dash that is not solid, a custom dash, or a head or tail end of some
/// type: features of a line that are not drawn.
pub open spec fn undrawn_line_spec(line: Node) -> bool {
    let end = |name: Seq<char>|
        match child_spec(line, name) {
            Some(e) => attr_spec(e, "type"@) != ""@ && attr_spec(e, "type"@) != "none"@,
            None => false,
        };
    (match child_spec(line, "prstDash"@) {
        Some(d) => attr_spec(d, "val"@) != "solid"@,
        None => false,
    }) || child_spec(line, "custDash"@) is Some || end("headEnd"@) || end("tailEnd"@)
}

/// Whether the line element `ln` asks for dashes or arrowheads, which are
/// not drawn.
pub fn undrawn_line(line: &Node) -> (r: bool)
    ensures
        r == undrawn_line_spec(*line),
{
    let dashed = match line.child("prstDash") {
        Some(d) => !str_eq(d.attr("val"), "solid"),
        None => false,
    };
    let head = match line.child("headEnd") {
        Some(e) => !(str_eq(e.attr("type"), "") || str_eq(e.attr("type"), "none")),
        None => false,
    };
    let tail = match line.child("tailEnd") {
        Some(e) => !(str_eq(e.attr("type"), "") || str_eq(e.attr("type"), "none")),
        None => false,
    };
    dashed || line.child("custDash").is_some() || head || tail
}

/// What a graphic frame holds.
pub enum Frame<'a> {
    /// A chart reference.
    Chart(&'a Node),
    /// A table and its column grid.
    Table(&'a Node, &'a Node),
    /// A table without a column grid, which is omitted.
    MissingGrid,
    /// A diagram (SmartArt), which is omitted.
    Diagram,
    /// Anything else, which is omitted.
    Unsupported,
}

/// What a `graphicFrame` holds: a chart first, then a table (with its
/// grid); otherwise a diagram when the data's `uri` mentions one.
pub open spec fn frame_spec<'a>(shape: Node) -> Frame<'a> {
    let data = match child_spec(shape, "graphic"@) {
        Some(g) => child_spec(g, "graphicData"@),
        None => None,
    };
    match data {
        None => Frame::Unsupported,
        Some(d) => match child_spec(d, "chart"@) {
            Some(c) => Frame::Chart(&c),
            None => match child_spec(d, "tbl"@) {
                Some(t) => match child_spec(t, "tblGrid"@) {
                    Some(grid) => Frame::Table(&t, &grid),
                    None => Frame::MissingGrid,
                },
                None => if contains_spec(attr_spec(d, "uri"@), "diagram"@) {
                    Frame::Diagram
                } else {
                    Frame::Unsupported
                },
            },
        },
    }
}

/// What a `graphicFrame` holds.
pub fn frame(shape: &Node) -> (r: Frame<'_>)
    ensures
        r == frame_spec(*shape),
{
    let data = match shape.child("graphic") {
        Some(g) => g.child("graphicData"),
        None => None,
    };
    match data {
        None => Frame::Unsupported,
        Some(d) => match d.child("chart") {
            Some(c) => Frame::Chart(c),
            None => match d.child("tbl") {
                Some(t) => match t.child("tblGrid") {
                    Some(grid) => Frame::Table(t, grid),
                    None => Frame::MissingGrid,
                },
                None => if contains(d.attr("uri"), "diagram") {
                    Frame::Diagram
                } else {
                    Frame::Unsupported
                },
            },
        },
    }
}

/// A table cell that spans or continues others (`gridSpan` or `rowSpan`
/// other than 1, or `hMerge`/`vMerge` set); it is shown as a separate cell.
pub open spec fn merged_cell_spec(cell: Node) -> bool {
    let grid = attr_spec(cell, "gridSpan"@);
    let rows = attr_spec(cell, "rowSpan"@);
    !(grid == ""@ || grid == "1"@) || !(rows == ""@ || rows == "1"@) || super::flag_spec(
        attr_spec(cell, "hMerge"@),
        false,
    ) || super::flag_spec(attr_spec(cell, "vMerge"@), false)
}

/// Whether a table cell spans or continues others.
pub fn merged_cell(cell: &Node) -> (r: bool)
    ensures
        r == merged_cell_spec(*cell),
{
    let grid = cell.attr("gridSpan");
    let rows = cell.attr("rowSpan");
    !(str_eq(grid, "") || str_eq(grid, "1")) || !(str_eq(rows, "") || str_eq(rows, "1"))
        || super::flag(cell.attr("hMerge"), false) || super::flag(cell.attr("vMerge"), false)
}

/// The `blip` of a picture's fill.
pub open spec fn picture_blip(shape: Node) -> Option<Node> {
    match child_spec(shape, "blipFill"@) {
        Some(f) => child_spec(f, "blip"@),
        None => None,
    }
}

/// The package part a picture shows: the target of its blip's `embed`
/// relationship, when the package holds it.
pub open spec fn picture_part_spec(shape: Node, rels: Seq<(String, String)>, package: Package) -> Option<
    String,
> {
    match picture_blip(shape) {
        None => None,
        Some(b) => match crate::assoc::get_spec(rels, super::relation_id_spec(b, "embed"@)) {
            Some(t) => if package.holds(t@) {
                Some(t)
            } else {
                None
            },
            None => None,
        },
    }
}

/// The package part a picture shows, if it is there.
pub fn picture_part<'a>(shape: &Node, rels: &'a Vec<(String, String)>, package: &Package) -> (r:
    Option<&'a String>)
    ensures
        match picture_part_spec(*shape, rels@, *package) {
            Some(t) => r == Some(&t),
            None => r is None,
        },
{
    let blip = match shape.child("blipFill") {
        Some(f) => f.child("blip"),
        None => None,
    };
    match blip {
        None => None,
        Some(b) => match crate::assoc::get(rels, super::relation_id(b, "embed")) {
            Some(t) => if package.has(t.as_str()) {
                Some(t)
            } else {
                None
            },
            None => None,
        },
    }
}

/// A picture that is tiled or has blip effects, which are not drawn.
pub fn picture_effects(shape: &Node) -> (r: bool)
    ensures
        r == ((match child_spec(*shape, "blipFill"@) {
            Some(f) => child_spec(f, "tile"@) is Some,
            None => false,
        }) || (match picture_blip(*shape) {
            Some(b) => b.children@.len() > 0,
            None => false,
        })),
{
    let fill = shape.child("blipFill");
    let tiled = match fill {
        Some(f) => f.child("tile").is_some(),
        None => false,
    };
    let effects = match fill {
        Some(f) => match f.child("blip") {
            Some(b) => b.children.len() > 0,
            None => false,
        },
        None => false,
    };
    tiled || effects
}

/// A picture masked by a geometry other than a rectangle (drawn with
/// rectangular bounds).
pub fn picture_masked(shape: &Node) -> (r: bool)
    ensures
        r == match child_spec(*shape, "spPr"@) {
            Some(p) => child_spec(p, "custGeom"@) is Some || match child_spec(p, "prstGeom"@) {
                Some(g) => attr_spec(g, "prst"@) != "rect"@,
                None => false,
            },
            None => false,
        },
{
    match shape.child("spPr") {
        Some(p) => p.child("custGeom").is_some() || match p.child("prstGeom") {
            Some(g) => !str_eq(g.attr("prst"), "rect"),
            None => false,
        },
        None => false,
    }
}

/// Columns a table may have.
pub const MAX_TABLE_COLUMNS: usize = 32;

/// Rows a table may have.
pub const MAX_TABLE_ROWS: usize = 500;

/// The layout of a table's rows: how many cells of each row are taken, and
/// the error met right after them, if any.
pub struct TableShape {
    pub cells: Vec<usize>,
    pub failure: Option<crate::error::Error>,
}

/// One row of `n` cells in a table of `g` columns with `o` objects counted:
/// the cells taken (each counted as an object), the count afterwards, and
/// the error met: the object limit at the first cell past it, or a row that
/// does not have exactly `g` cells.
pub open spec fn row_step(n: int, g: int, o: int) -> (int, int, Option<crate::error::Error>) {
    let k = if n < g {
        n
    } else {
        g
    };
    if k > 0 && o + k > crate::pptx::MAX_OBJECTS {
        let laid = if o >= crate::pptx::MAX_OBJECTS {
            0
        } else {
            crate::pptx::MAX_OBJECTS - o
        };
        (laid, o + laid, Some(crate::error::Error::Limit("PPTX exceeds 5000 elements and table cells")))
    } else if n != g {
        (k, o + k, Some(crate::error::Error::Invalid("PPTX table is not rectangular")))
    } else {
        (k, o + k, None)
    }
}

/// Rows from index `i` on, with `o` objects counted: the cells taken per
/// row, the count afterwards and the error that stops the table.
pub open spec fn shape_from(counts: Seq<int>, i: int, g: int, o: int) -> (Seq<int>, int, Option<crate::error::Error>)
    decreases counts.len() - i,
{
    if i < 0 || i >= counts.len() {
        (Seq::empty(), o, None)
    } else if i >= MAX_TABLE_ROWS {
        (Seq::empty(), o, Some(crate::error::Error::Limit("PPTX table exceeds 500 rows")))
    } else {
        let (laid, o2, e) = row_step(counts[i], g, o);
        if e is Some {
            (seq![laid], o2, e)
        } else {
            let rest = shape_from(counts, i + 1, g, o2);
            (seq![laid] + rest.0, rest.1, rest.2)
        }
    }
}

/// The number of `tc` cells of each `tr` row of a table.
pub open spec fn cell_counts(table: Node) -> Seq<int> {
    table.children@.filter(|c: Node| c.name@ == "tr"@).map_values(
        |r: Node| r.children@.filter(|c: Node| c.name@ == "tc"@).len() as int,
    )
}

/// The layout of a table with this grid: a grid of more than 32 or of no
/// columns stops it first; then its rows as `shape_from` takes them.
pub open spec fn table_shape_spec(table: Node, grid: Node, o: int) -> (Seq<int>, int, Option<crate::error::Error>) {
    let g = grid.children@.filter(|c: Node| c.name@ == "gridCol"@).len() as int;
    if g > MAX_TABLE_COLUMNS {
        (Seq::empty(), o, Some(crate::error::Error::Limit("PPTX table exceeds 32 columns")))
    } else if g == 0 {
        (Seq::empty(), o, Some(crate::error::Error::Invalid("PPTX table has no columns")))
    } else {
        shape_from(cell_counts(table), 0, g, o)
    }
}

/// Lays out a table: every row must have exactly one cell per grid column,
/// at most 500 rows, and each cell counts as an object.
#[verifier::loop_isolation(false)]
pub fn table_shape(table: &Node, grid: &Node, budget: &mut crate::pptx::Budget) -> (r: TableShape)
    ensures
        (r.cells@.map_values(|c: usize| c as int), final(budget).objects as int, r.failure)
            == table_shape_spec(*table, *grid, old(budget).objects as int),
        final(budget).text_bytes == old(budget).text_bytes,
        final(budget).path_commands == old(budget).path_commands,
{
    let columns = grid.named("gridCol");
    let g = columns.len();
    proof {
        assert(columns@.map_values(|c: &Node| *c).len() == g);
    }
    if g > MAX_TABLE_COLUMNS {
        return TableShape {
            cells: Vec::new(),
            failure: Some(crate::error::Error::Limit("PPTX table exceeds 32 columns")),
        };
    }
    if g == 0 {
        return TableShape {
            cells: Vec::new(),
            failure: Some(crate::error::Error::Invalid("PPTX table has no columns")),
        };
    }
    let rows = table.named("tr");
    let ghost counts = cell_counts(*table);
    let ghost rv = rows@.map_values(|c: &Node| *c);
    assert(rv.len() == rows@.len());
    assert(counts.len() == rv.len());
    let mut cells: Vec<usize> = Vec::new();
    let mut i: usize = 0;
    assert(cells@.map_values(|c: usize| c as int) + shape_from(counts, 0, g as int, budget.objects as int).0
        =~= shape_from(counts, 0, g as int, budget.objects as int).0);
    while i < rows.len()
        invariant
            i <= rows@.len(),
            rv == rows@.map_values(|c: &Node| *c),
            rv == table.children@.filter(|c: Node| c.name@ == "tr"@),
            counts == cell_counts(*table),
            counts.len() == rows@.len(),
            1 <= g <= MAX_TABLE_COLUMNS,
            g == grid.children@.filter(|c: Node| c.name@ == "gridCol"@).len(),
            budget.text_bytes == old(budget).text_bytes,
            budget.path_commands == old(budget).path_commands,
            table_shape_spec(*table, *grid, old(budget).objects as int) == (
                cells@.map_values(|c: usize| c as int) + shape_from(counts, i as int, g as int, budget.objects as int).0,
                shape_from(counts, i as int, g as int, budget.objects as int).1,
                shape_from(counts, i as int, g as int, budget.objects as int).2,
            ),
        decreases rows.len() - i,
    {
        let ghost o = budget.objects as int;
        let ghost before = cells@.map_values(|c: usize| c as int);
        if i >= MAX_TABLE_ROWS {
            assert(before + Seq::<int>::empty() =~= before);
            return TableShape {
                cells,
                failure: Some(crate::error::Error::Limit("PPTX table exceeds 500 rows")),
            };
        }
        let row = rows[i];
        let tcs = row.named("tc");
        let n = tcs.len();
        proof {
            assert(rv[i as int] == *row);
            assert(tcs@.map_values(|c: &Node| *c).len() == n);
            assert(counts[i as int] == n as int);
        }
        let k: usize = if n < g {
            n
        } else {
            g
        };
        let mut j: usize = 0;
        while j < k
            invariant
                j <= k,
                k <= MAX_TABLE_COLUMNS,
                budget.objects == o + j,
                o + j <= crate::pptx::MAX_OBJECTS || j == 0,
                cells@.map_values(|c: usize| c as int) == before,
                budget.text_bytes == old(budget).text_bytes,
                budget.path_commands == old(budget).path_commands,
            decreases k - j,
        {
            match budget.object() {
                Ok(()) => {},
                Err(e) => {
                    let ghost laid = j as int;
                    cells.push(j);
                    proof {
                        assert(cells@.map_values(|c: usize| c as int) =~= before.push(laid));
                        assert(before + seq![laid] =~= before.push(laid));
                    }
                    return TableShape { cells, failure: Some(e) };
                },
            }
            j = j + 1;
        }
        if n != g {
            cells.push(k);
            proof {
                assert(cells@.map_values(|c: usize| c as int) =~= before + seq![k as int]);
            }
            return TableShape {
                cells,
                failure: Some(crate::error::Error::Invalid("PPTX table is not rectangular")),
            };
        }
        cells.push(n);
        proof {
            let rest = shape_from(counts, i + 1, g as int, budget.objects as int);
            assert(cells@.map_values(|c: usize| c as int) =~= before.push(n as int));
            assert(before + (seq![n as int] + rest.0) =~= before.push(n as int) + rest.0);
        }
        i = i + 1;
    }
    assert(cells@.map_values(|c: usize| c as int) + Seq::<int>::empty() =~= cells@.map_values(
        |c: usize| c as int,
    ));
    TableShape { cells, failure: None }
}

} // verus!
