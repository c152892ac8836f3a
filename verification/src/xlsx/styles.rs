//! XLSX cell style tables: component references and cell alignment.
use super::{boolean, boolean_spec, unsigned, unsigned_spec};
use crate::error::Error;
use crate::model::{texts, warn, warned, VerticalAlignment};
use crate::text::{str_eq, utf8};
use crate::xml::{attr_spec, Node};
use vstd::prelude::*;
use vstd::string::StrSliceExecFns;

verus! {

/// A style component reference: empty names the first entry.
pub open spec fn lookup_spec(len: nat, value: Seq<char>) -> Result<int, Error> {
    let index = if value.len() == 0 {
        Ok(0u32)
    } else {
        unsigned_spec(utf8(value))
    };
    match index {
        Err(e) => Err(e),
        Ok(i) => if i < len {
            Ok(i as int)
        } else {
            Err(Error::Invalid("Invalid XLSX style component reference"))
        },
    }
}

/// The entry of a style table (fonts, fills, borders, base styles) that a
/// reference names.
pub fn lookup<'a, T>(items: &'a [T], value: &str) -> (r: Result<&'a T, Error>)
    ensures
        match lookup_spec(items@.len(), value@) {
            Ok(i) => r == Ok::<&T, Error>(&items@[i]),
            Err(e) => r == Err::<&T, Error>(e),
        },
{
    proof {
        crate::text::lemma_empty_bytes(value);
    }
    let index = if value.as_bytes().len() == 0 {
        0
    } else {
        unsigned(value)?
    };
    if (index as usize) < items.len() {
        Ok(&items[index as usize])
    } else {
        Err(Error::Invalid("Invalid XLSX style component reference"))
    }
}

/// How a cell places its text.
#[derive(Debug, Clone, Copy, PartialEq, Eq, Structural)]
pub struct Alignment {
    /// 0 left, 1 center, 2 right, 3 general.
    pub horizontal: u8,
    pub vertical: VerticalAlignment,
    pub wrap: bool,
}

/// A horizontal alignment value, and whether it is unsupported.
pub open spec fn horizontal_spec(v: Seq<char>) -> (u8, bool) {
    if v == "left"@ {
        (0, false)
    } else if v == "center"@ {
        (1, false)
    } else if v == "right"@ {
        (2, false)
    } else if v == "general"@ {
        (3, false)
    } else {
        (3, true)
    }
}

/// Each supported horizontal value has its own code, in the order the
/// text sits along the line: `left` 0, `center` 1, `right` 2 (and only
/// they give those codes); `general` and anything unsupported give 3.
pub proof fn law_horizontal_codes(v: Seq<char>)
    ensures
        (horizontal_spec(v).0 == 0) == (v == "left"@),
        (horizontal_spec(v).0 == 1) == (v == "center"@),
        (horizontal_spec(v).0 == 2) == (v == "right"@),
        horizontal_spec(v).0 <= 3,
        horizontal_spec("left"@).0 < horizontal_spec("center"@).0 < horizontal_spec("right"@).0,
        !horizontal_spec(v).1 == (v == "left"@ || v == "center"@ || v == "right"@ || v == "general"@),
{
    reveal_strlit("left");
    reveal_strlit("center");
    reveal_strlit("right");
    reveal_strlit("general");
    assert("left"@.len() != "center"@.len());
    assert("left"@ != "center"@);
    assert("left"@.len() != "right"@.len());
    assert("left"@ != "right"@);
    assert("center"@.len() != "right"@.len());
    assert("center"@ != "right"@);
    assert("left"@.len() != "general"@.len());
    assert("left"@ != "general"@);
    assert("center"@.len() != "general"@.len());
    assert("center"@ != "general"@);
    assert("right"@.len() != "general"@.len());
    assert("right"@ != "general"@);
}

/// Each supported vertical value has its own placement: `top`, `center`
/// and `bottom` give theirs (and only `top` and `center` give those two);
/// anything else falls back to the bottom, marked unsupported.
pub proof fn law_vertical_codes(v: Seq<char>)
    ensures
        (vertical_spec(v).0 == VerticalAlignment::Top) == (v == "top"@),
        (vertical_spec(v).0 == VerticalAlignment::Center) == (v == "center"@),
        !vertical_spec(v).1 == (v == "top"@ || v == "center"@ || v == "bottom"@),
{
    reveal_strlit("top");
    reveal_strlit("center");
    reveal_strlit("bottom");
    assert("top"@.len() != "center"@.len());
    assert("top"@.len() != "bottom"@.len());
    assert("center"@ != "bottom"@) by {
        assert("center"@[0] != "bottom"@[0]);
    }
}

/// A vertical alignment value, and whether it is unsupported.
pub open spec fn vertical_spec(v: Seq<char>) -> (VerticalAlignment, bool) {
    if v == "top"@ {
        (VerticalAlignment::Top, false)
    } else if v == "center"@ {
        (VerticalAlignment::Center, false)
    } else if v == "bottom"@ {
        (VerticalAlignment::Bottom, false)
    } else {
        (VerticalAlignment::Bottom, true)
    }
}

/// An attribute that asks for a feature the viewer lacks.
pub open spec fn set_flag(v: Seq<char>) -> bool {
    v.len() != 0 && v != "0"@ && v != "false"@
}

pub open spec fn unsupported_layout(node: Node) -> bool {
    set_flag(attr_spec(node, "textRotation"@)) || set_flag(attr_spec(node, "indent"@)) || set_flag(
        attr_spec(node, "readingOrder"@),
    ) || set_flag(attr_spec(node, "shrinkToFit"@))
}

pub const HORIZONTAL_WARNING: &'static str = "Unsupported cell alignment uses general alignment";

pub const VERTICAL_WARNING: &'static str = "Unsupported vertical alignment uses bottom alignment";

pub const LAYOUT_WARNING: &'static str = "Text rotation, indentation, reading order and shrink-to-fit are not supported";

fn horizontal(v: &str) -> (r: (u8, bool))
    ensures
        r == horizontal_spec(v@),
{
    if str_eq(v, "left") {
        (0, false)
    } else if str_eq(v, "center") {
        (1, false)
    } else if str_eq(v, "right") {
        (2, false)
    } else if str_eq(v, "general") {
        (3, false)
    } else {
        (3, true)
    }
}

fn vertical(v: &str) -> (r: (VerticalAlignment, bool))
    ensures
        r == vertical_spec(v@),
{
    if str_eq(v, "top") {
        (VerticalAlignment::Top, false)
    } else if str_eq(v, "center") {
        (VerticalAlignment::Center, false)
    } else if str_eq(v, "bottom") {
        (VerticalAlignment::Bottom, false)
    } else {
        (VerticalAlignment::Bottom, true)
    }
}

fn flag_set(v: &str) -> (r: bool)
    ensures
        r == set_flag(v@),
{
    proof {
        crate::text::lemma_empty_bytes(v);
    }
    v.as_bytes().len() != 0 && !str_eq(v, "0") && !str_eq(v, "false")
}

/// Applies an `alignment` element to a cell's alignment: horizontal and
/// vertical placement where given (unsupported values fall back with a
/// warning), wrapping, and a warning for rotation, indentation, reading
/// order or shrink-to-fit.
pub fn alignment(current: Alignment, node: &Node, warnings: &mut Vec<String>) -> (r: Result<Alignment, Error>)
    ensures
        ({
            let h = attr_spec(*node, "horizontal"@);
            let v = attr_spec(*node, "vertical"@);
            let w1 = if h.len() != 0 && horizontal_spec(h).1 {
                warned(texts(old(warnings)@), HORIZONTAL_WARNING@)
            } else {
                texts(old(warnings)@)
            };
            let w2 = if v.len() != 0 && vertical_spec(v).1 {
                warned(w1, VERTICAL_WARNING@)
            } else {
                w1
            };
            match boolean_spec(attr_spec(*node, "wrapText"@), current.wrap) {
                Err(e) => r == Err::<Alignment, Error>(e) && texts(final(warnings)@) == w2,
                Ok(wrap) => r == Ok::<Alignment, Error>(
                    Alignment {
                        horizontal: if h.len() != 0 {
                            horizontal_spec(h).0
                        } else {
                            current.horizontal
                        },
                        vertical: if v.len() != 0 {
                            vertical_spec(v).0
                        } else {
                            current.vertical
                        },
                        wrap,
                    },
                ) && texts(final(warnings)@) == if unsupported_layout(*node) {
                    warned(w2, LAYOUT_WARNING@)
                } else {
                    w2
                },
            }
        }),
{
    let mut result = current;
    let h = node.attr("horizontal");
    let v = node.attr("vertical");
    proof {
        crate::text::lemma_empty_bytes(h);
        crate::text::lemma_empty_bytes(v);
    }
    if h.as_bytes().len() != 0 {
        let (value, unsupported) = horizontal(h);
        if unsupported {
            warn(warnings, HORIZONTAL_WARNING);
        }
        result.horizontal = value;
    }
    if v.as_bytes().len() != 0 {
        let (value, unsupported) = vertical(v);
        if unsupported {
            warn(warnings, VERTICAL_WARNING);
        }
        result.vertical = value;
    }
    result.wrap = boolean(node.attr("wrapText"), result.wrap)?;
    if flag_set(node.attr("textRotation")) || flag_set(node.attr("indent")) || flag_set(
        node.attr("readingOrder"),
    ) || flag_set(node.attr("shrinkToFit")) {
        warn(warnings, LAYOUT_WARNING);
    }
    Ok(result)
}

/// The switches of a font: bold, italic, underline, and whether it asks
/// for strikethrough or a superscript/subscript position, which are not
/// drawn.
pub struct FontFlags {
    pub bold: bool,
    pub italic: bool,
    pub underline: bool,
    pub unsupported: bool,
}

/// A font switch: off when the element is absent, else its `val` read as a
/// boolean that defaults to on.
pub open spec fn switch_spec(font: Node, name: Seq<char>) -> Result<bool, Error> {
    match crate::xml::child_spec(font, name) {
        Some(n) => boolean_spec(attr_spec(n, "val"@), true),
        None => Ok(false),
    }
}

/// The switches of a font element (bold is read before italic).
pub open spec fn font_flags_spec(font: Node) -> Result<FontFlags, Error> {
    match switch_spec(font, "b"@) {
        Err(e) => Err(e),
        Ok(bold) => match switch_spec(font, "i"@) {
            Err(e) => Err(e),
            Ok(italic) => Ok(
                FontFlags {
                    bold,
                    italic,
                    underline: match crate::xml::child_spec(font, "u"@) {
                        Some(u) => attr_spec(u, "val"@) != "none"@,
                        None => false,
                    },
                    unsupported: crate::xml::child_spec(font, "strike"@) is Some
                        || crate::xml::child_spec(font, "vertAlign"@) is Some,
                },
            ),
        },
    }
}

fn switch(font: &Node, name: &str) -> (r: Result<bool, Error>)
    ensures
        r == switch_spec(*font, name@),
{
    match font.child(name) {
        Some(n) => boolean(n.attr("val"), true),
        None => Ok(false),
    }
}

/// The bold, italic and underline switches of a font, and whether it asks
/// for strikethrough or a vertical position; an invalid switch is an error.
pub fn font_flags(font: &Node) -> (r: Result<FontFlags, Error>)
    ensures
        r == font_flags_spec(*font),
{
    let bold = switch(font, "b")?;
    let italic = switch(font, "i")?;
    let underline = match font.child("u") {
        Some(u) => !str_eq(u.attr("val"), "none"),
        None => false,
    };
    let unsupported = font.child("strike").is_some() || font.child("vertAlign").is_some();
    Ok(FontFlags { bold, italic, underline, unsupported })
}

/// The colour source of a cell fill.
pub enum CellFill<'a> {
    /// A solid pattern: its foreground colour element.
    Solid(Option<&'a Node>),
    /// No fill: none given, or an empty, `none` or `gray125` pattern.
    Clear,
    /// Another pattern, which is not drawn (warned about).
    UnsupportedPattern,
    /// A gradient, which is not drawn (warned about).
    Gradient,
}

/// The fill a `fill` element describes: its pattern when it has one, else
/// whether it is a gradient.
pub open spec fn cell_fill_spec<'a>(fill: Node) -> CellFill<'a> {
    match crate::xml::child_spec(fill, "patternFill"@) {
        Some(p) => {
            let t = attr_spec(p, "patternType"@);
            if t == "solid"@ {
                match crate::xml::child_spec(p, "fgColor"@) {
                    Some(c) => CellFill::Solid(Some(&c)),
                    None => CellFill::Solid(None),
                }
            } else if t == ""@ || t == "none"@ || t == "gray125"@ {
                CellFill::Clear
            } else {
                CellFill::UnsupportedPattern
            }
        },
        None => if crate::xml::child_spec(fill, "gradientFill"@) is Some {
            CellFill::Gradient
        } else {
            CellFill::Clear
        },
    }
}

/// The fill a `fill` element describes.
pub fn cell_fill(fill: &Node) -> (r: CellFill<'_>)
    ensures
        r == cell_fill_spec(*fill),
{
    match fill.child("patternFill") {
        Some(p) => {
            let t = p.attr("patternType");
            if str_eq(t, "solid") {
                CellFill::Solid(p.child("fgColor"))
            } else if str_eq(t, "") || str_eq(t, "none") || str_eq(t, "gray125") {
                CellFill::Clear
            } else {
                CellFill::UnsupportedPattern
            }
        },
        None => if fill.child("gradientFill").is_some() {
            CellFill::Gradient
        } else {
            CellFill::Clear
        },
    }
}

/// A drawn border edge: its colour element and whether it is thin (other
/// weights and dashes are drawn thin, with a warning). An edge that is
/// absent, or whose style is empty or `none`, is not drawn.
pub open spec fn edge_spec<'a>(border: Node, name: Seq<char>) -> Option<(Option<&'a Node>, bool)> {
    match crate::xml::child_spec(border, name) {
        None => None,
        Some(e) => {
            let style = attr_spec(e, "style"@);
            if style == ""@ || style == "none"@ {
                None
            } else {
                Some(
                    (
                        match crate::xml::child_spec(e, "color"@) {
                            Some(c) => Some(&c),
                            None => None,
                        },
                        style == "thin"@,
                    ),
                )
            }
        },
    }
}

/// The edge `name` (`left`, `top`, `right`, `bottom`) of a border.
pub fn edge<'a>(border: &'a Node, name: &str) -> (r: Option<(Option<&'a Node>, bool)>)
    ensures
        r == edge_spec(*border, name@),
{
    match border.child(name) {
        None => None,
        Some(e) => {
            let style = e.attr("style");
            if str_eq(style, "") || str_eq(style, "none") {
                None
            } else {
                Some((e.child("color"), str_eq(style, "thin")))
            }
        },
    }
}

/// Whether a border has a diagonal of some style, which is not drawn.
pub fn diagonal(border: &Node) -> (r: bool)
    ensures
        r == (edge_spec(*border, "diagonal"@) is Some),
{
    edge(border, "diagonal").is_some()
}

/// A style table element that holds more than 2048 entries.
pub open spec fn oversized(root: Node, name: Seq<char>) -> bool {
    match crate::xml::child_spec(root, name) {
        Some(t) => t.children@.len() > super::MAX_STYLES,
        None => false,
    }
}

/// A style sheet is a `styleSheet` element whose font, fill, border,
/// number format, cell format and base format tables hold at most 2048
/// entries each.
pub open spec fn style_sheet_spec(root: Node) -> Result<(), Error> {
    if root.name@ != "styleSheet"@ {
        Err(Error::Invalid("Invalid XLSX styles part"))
    } else if oversized(root, "fonts"@) || oversized(root, "fills"@) || oversized(root, "borders"@)
        || oversized(root, "numFmts"@) || oversized(root, "cellXfs"@) || oversized(
        root,
        "cellStyleXfs"@,
    ) {
        Err(Error::Limit("XLSX style table exceeds 2048 entries"))
    } else {
        Ok(())
    }
}

fn table_fits(root: &Node, name: &str) -> (r: bool)
    ensures
        r == !oversized(*root, name@),
{
    match root.child(name) {
        Some(t) => t.children.len() <= super::MAX_STYLES,
        None => true,
    }
}

/// Checks the style sheet's root element and the size of its tables.
pub fn style_sheet(root: &Node) -> (r: Result<(), Error>)
    ensures
        r == style_sheet_spec(*root),
{
    if !str_eq(root.name.as_str(), "styleSheet") {
        return Err(Error::Invalid("Invalid XLSX styles part"));
    }
    if table_fits(root, "fonts") && table_fits(root, "fills") && table_fits(root, "borders")
        && table_fits(root, "numFmts") && table_fits(root, "cellXfs") && table_fits(
        root,
        "cellStyleXfs",
    ) {
        Ok(())
    } else {
        Err(Error::Limit("XLSX style table exceeds 2048 entries"))
    }
}

/// The custom number formats as (id, code) pairs.
pub open spec fn format_pairs(v: Seq<(u32, String)>) -> Seq<(u32, Seq<char>)> {
    v.map_values(|p: (u32, String)| (p.0, p.1@))
}

/// Whether a format id is taken.
pub open spec fn has_format(pairs: Seq<(u32, Seq<char>)>, id: u32) -> bool {
    exists|j: int| 0 <= j < pairs.len() && pairs[j].0 == id
}

/// The custom number formats after the `numFmt` entries from index `i` on
/// are added to `acc` in order: each needs an integer id that is not taken
/// yet and a non-empty code.
pub open spec fn formats_from(fmts: Seq<Node>, i: int, acc: Seq<(u32, Seq<char>)>) -> Result<
    Seq<(u32, Seq<char>)>,
    Error,
>
    decreases fmts.len() - i,
{
    if i < 0 || i >= fmts.len() {
        Ok(acc)
    } else {
        let n = fmts[i];
        match super::unsigned_spec(utf8(attr_spec(n, "numFmtId"@))) {
            Err(e) => Err(e),
            Ok(id) => if attr_spec(n, "formatCode"@).len() == 0 || has_format(acc, id) {
                Err(Error::Invalid("Missing or duplicate XLSX number format"))
            } else {
                formats_from(fmts, i + 1, acc.push((id, attr_spec(n, "formatCode"@))))
            },
        }
    }
}

/// The `numFmt` entries of a number format table.
pub open spec fn format_entries(table: Option<Node>) -> Seq<Node> {
    match table {
        Some(t) => t.children@.filter(|c: Node| c.name@ == "numFmt"@),
        None => Seq::<Node>::empty(),
    }
}

/// The custom number formats of a `numFmts` table, in order.
#[verifier::loop_isolation(false)]
pub fn number_formats(table: Option<&Node>) -> (r: Result<Vec<(u32, String)>, Error>)
    ensures
        match formats_from(
            format_entries(
                match table {
                    Some(t) => Some(*t),
                    None => None,
                },
            ),
            0,
            Seq::empty(),
        ) {
            Ok(pairs) => r matches Ok(v) && format_pairs(v@) == pairs,
            Err(e) => r == Err::<Vec<(u32, String)>, Error>(e),
        },
{
    let mut result: Vec<(u32, String)> = Vec::new();
    let t = match table {
        Some(t) => t,
        None => {
            assert(format_pairs(result@) =~= Seq::<(u32, Seq<char>)>::empty());
            return Ok(result);
        },
    };
    let entries = t.named("numFmt");
    let ghost fmts = format_entries(Some(*t));
    assert(entries@.map_values(|c: &Node| *c) == fmts);
    assert(format_pairs(result@) =~= Seq::<(u32, Seq<char>)>::empty());
    let mut i: usize = 0;
    while i < entries.len()
        invariant
            i <= entries@.len(),
            entries@.len() == fmts.len(),
            forall|k: int| 0 <= k < fmts.len() ==> *entries@[k] == fmts[k],
            formats_from(fmts, 0, Seq::empty()) == formats_from(fmts, i as int, format_pairs(result@)),
        decreases entries.len() - i,
    {
        assert(entries@.map_values(|c: &Node| *c)[i as int] == *entries@[i as int]);
        let n = entries[i];
        let id = unsigned(n.attr("numFmtId"))?;
        let code = n.attr("formatCode");
        if code.unicode_len() == 0 {
            return Err(Error::Invalid("Missing or duplicate XLSX number format"));
        }
        let mut j: usize = 0;
        while j < result.len()
            invariant
                j <= result@.len(),
                forall|k: int| 0 <= k < j ==> format_pairs(result@)[k].0 != id,
            decreases result.len() - j,
        {
            if result[j].0 == id {
                assert(format_pairs(result@)[j as int].0 == id);
                assert(has_format(format_pairs(result@), id));
                return Err(Error::Invalid("Missing or duplicate XLSX number format"));
            }
            j = j + 1;
        }
        assert(!has_format(format_pairs(result@), id));
        let ghost before = format_pairs(result@);
        result.push((id, code.to_string()));
        assert(format_pairs(result@) =~= before.push((id, code@)));
        i = i + 1;
    }
    Ok(result)
}

/// Whether a cell format applies one of its components: it names the
/// component and its `apply` switch is on (an absent switch is on); the
/// switch is read only when the component is named.
pub open spec fn applies_spec(xf: Node, id: Seq<char>, apply: Seq<char>) -> Result<bool, Error> {
    if attr_spec(xf, id).len() == 0 {
        Ok(false)
    } else {
        boolean_spec(attr_spec(xf, apply), true)
    }
}

/// Whether a cell format applies the component named by attribute `id`,
/// given its switch `apply`.
pub fn applies(xf: &Node, id: &str, apply: &str) -> (r: Result<bool, Error>)
    ensures
        r == applies_spec(*xf, id@, apply@),
{
    if xf.attr(id).unicode_len() == 0 {
        Ok(false)
    } else {
        boolean(xf.attr(apply), true)
    }
}

/// A custom number format by id.
pub open spec fn format_of(pairs: Seq<(u32, Seq<char>)>, id: u32) -> Option<Seq<char>>
    decreases pairs.len(),
{
    if pairs.len() == 0 {
        None
    } else if pairs[0].0 == id {
        Some(pairs[0].1)
    } else {
        format_of(pairs.drop_first(), id)
    }
}

/// The number format after a cell format is read over `current`: with a
/// `numFmtId` (which must be an integer) that is applied, the custom format
/// of that id, else the built-in one, else none.
pub open spec fn number_format_spec(
    pairs: Seq<(u32, Seq<char>)>,
    xf: Node,
    current: Option<Seq<char>>,
) -> Result<Option<Seq<char>>, Error> {
    if attr_spec(xf, "numFmtId"@).len() == 0 {
        Ok(current)
    } else {
        match super::unsigned_spec(utf8(attr_spec(xf, "numFmtId"@))) {
            Err(e) => Err(e),
            Ok(id) => match boolean_spec(attr_spec(xf, "applyNumberFormat"@), true) {
                Err(e) => Err(e),
                Ok(false) => Ok(current),
                Ok(true) => Ok(
                    match format_of(pairs, id) {
                        Some(c) => Some(c),
                        None => crate::xlsx::format::builtin_spec(id),
                    },
                ),
            },
        }
    }
}

/// The view of an optional string.
pub open spec fn text_of(o: Option<String>) -> Option<Seq<char>> {
    match o {
        Some(s) => Some(s@),
        None => None,
    }
}

/// The number format a cell format gives, over the `current` one.
#[verifier::loop_isolation(false)]
pub fn number_format(formats: &Vec<(u32, String)>, xf: &Node, current: Option<String>) -> (r:
    Result<Option<String>, Error>)
    ensures
        match number_format_spec(format_pairs(formats@), *xf, text_of(current)) {
            Ok(f) => r matches Ok(o) && text_of(o) == f,
            Err(e) => r matches Err(x) && x == e,
        },
{
    let value = xf.attr("numFmtId");
    if value.unicode_len() == 0 {
        return Ok(current);
    }
    let id = unsigned(value)?;
    if !boolean(xf.attr("applyNumberFormat"), true)? {
        return Ok(current);
    }
    let mut j: usize = 0;
    assert(format_pairs(formats@).skip(0) =~= format_pairs(formats@));
    while j < formats.len()
        invariant
            j <= formats@.len(),
            format_of(format_pairs(formats@), id) == format_of(
                format_pairs(formats@).skip(j as int),
                id,
            ),
        decreases formats.len() - j,
    {
        assert(format_pairs(formats@).skip(j as int).drop_first() =~= format_pairs(formats@).skip(
            j + 1,
        ));
        assert(format_pairs(formats@).skip(j as int)[0] == (formats@[j as int].0, formats@[j as int].1@));
        if formats[j].0 == id {
            let code = formats[j].1.clone();
            return Ok(Some(code));
        }
        j = j + 1;
    }
    match crate::xlsx::format::builtin(id) {
        Some(code) => Ok(Some(code.to_string())),
        None => Ok(None),
    }
}

} // verus!
