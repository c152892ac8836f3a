//! The warnings a DOCX element raises about what the flow view leaves out.
use crate::docx::{enabled, enabled_spec};
use crate::text::str_eq;
use crate::xml::{attr_spec, Node};
use vstd::prelude::*;
use vstd::string::StrSliceExecFns;

verus! {

/// The message for merged or irregular table cells.
pub open spec fn merged_cells() -> Seq<char> {
    "Merged or irregular table cells use an unmerged rectangular approximation."@
}

/// The warning an element raises by itself. `wide` tells whether its count
/// (`val` of `gridSpan`, `num` of `cols`) reads as a number above one.
pub open spec fn element_warning(node: Node, wide: bool) -> Option<Seq<char>> {
    let n = node.name@;
    if n == "headerReference"@ || n == "footerReference"@ {
        Some("Headers and footers are omitted."@)
    } else if n == "footnoteReference"@ || n == "endnoteReference"@ {
        Some("Footnotes and endnotes are omitted."@)
    } else if n == "oMath"@ || n == "oMathPara"@ {
        Some("Mathematical equations are omitted."@)
    } else if n == "anchor"@ {
        Some("Floating drawings use document flow; anchors and wrapping are ignored."@)
    } else if n == "vMerge"@ || n == "hMerge"@ || n == "gridBefore"@ || n == "gridAfter"@ {
        Some(merged_cells())
    } else if n == "gridSpan"@ && wide {
        Some(merged_cells())
    } else if n == "pict"@ || n == "object"@ || n == "txbxContent"@ {
        Some("Legacy drawings, embedded objects and text boxes are omitted."@)
    } else if n == "altChunk"@ {
        Some("Embedded document content is omitted."@)
    } else if n == "ins"@ || n == "del"@ || n == "moveFrom"@ || n == "moveTo"@ {
        Some("Tracked changes show inserted content and omit deleted content."@)
    } else if n == "fldSimple"@ || n == "fldChar"@ {
        Some("Fields display saved results and are not recalculated."@)
    } else if n == "AlternateContent"@ {
        Some("Alternate content uses one saved representation; unsupported features may be lost."@)
    } else if n == "cols"@ && wide {
        Some("Multiple columns are rendered in a single continuous flow."@)
    } else if n == "rFonts"@ {
        Some("Font families use the viewer's default font."@)
    } else if n == "color"@ && attr_spec(node, "themeColor"@).len() > 0 {
        Some("Theme colors use saved colors or inherited fallbacks."@)
    } else if n == "vertAlign"@ || n == "strike"@ || n == "dstrike"@ || n == "highlight"@ || n
        == "vanish"@ {
        Some("Some advanced run formatting is not reproduced."@)
    } else if n == "jc"@ && (attr_spec(node, "val"@) == "both"@ || attr_spec(node, "val"@)
        == "distribute"@) {
        Some("Justified paragraphs are left aligned."@)
    } else if n == "spacing"@ && (attr_spec(node, "line"@).len() > 0 || attr_spec(
        node,
        "beforeLines"@,
    ).len() > 0 || attr_spec(node, "afterLines"@).len() > 0) {
        Some("Line-based spacing uses the viewer's default line spacing."@)
    } else if n == "ind"@ && (attr_spec(node, "hanging"@).len() > 0 || attr_spec(
        node,
        "firstLine"@,
    ).len() > 0 || attr_spec(node, "right"@).len() > 0 || attr_spec(node, "end"@).len() > 0) {
        Some("First-line, hanging and right indents are not reproduced exactly."@)
    } else if n == "pageBreakBefore"@ && enabled_spec(attr_spec(node, "val"@)) {
        Some("Paragraph page breaks are ignored in continuous flow."@)
    } else if n == "srcRect"@ || n == "effectLst"@ {
        Some("Image cropping and drawing effects are not reproduced."@)
    } else if n == "tblStyle"@ {
        Some("Table styles use the viewer's default cell appearance."@)
    } else {
        None
    }
}

/// Whether the attribute is present with a value.
fn has(node: &Node, key: &str) -> (r: bool)
    ensures
        r == (attr_spec(*node, key@).len() > 0),
{
    node.attr(key).unicode_len() > 0
}

/// The warning an element raises about content the flow view omits or
/// approximates: headers, notes, equations, anchors, merged cells, legacy
/// drawings, tracked changes, fields, alternate content, multiple columns,
/// fonts, theme colours, advanced run formatting, justification, line-based
/// spacing, special indents, page breaks, cropping and table styles.
/// `wide` is whether the element's count (`val` of `gridSpan`, `num` of
/// `cols`) reads as a number above one.
pub fn inspect_message(node: &Node, wide: bool) -> (r: Option<&'static str>)
    ensures
        match element_warning(*node, wide) {
            Some(m) => r matches Some(s) && s@ == m,
            None => r is None,
        },
{
    let n = node.name.as_str();
    let merged = "Merged or irregular table cells use an unmerged rectangular approximation.";
    proof {
        assert(merged@ == merged_cells());
    }
    if str_eq(n, "headerReference") || str_eq(n, "footerReference") {
        Some("Headers and footers are omitted.")
    } else if str_eq(n, "footnoteReference") || str_eq(n, "endnoteReference") {
        Some("Footnotes and endnotes are omitted.")
    } else if str_eq(n, "oMath") || str_eq(n, "oMathPara") {
        Some("Mathematical equations are omitted.")
    } else if str_eq(n, "anchor") {
        Some("Floating drawings use document flow; anchors and wrapping are ignored.")
    } else if str_eq(n, "vMerge") || str_eq(n, "hMerge") || str_eq(n, "gridBefore") || str_eq(
        n,
        "gridAfter",
    ) {
        Some(merged)
    } else if str_eq(n, "gridSpan") && wide {
        Some(merged)
    } else if str_eq(n, "pict") || str_eq(n, "object") || str_eq(n, "txbxContent") {
        Some("Legacy drawings, embedded objects and text boxes are omitted.")
    } else if str_eq(n, "altChunk") {
        Some("Embedded document content is omitted.")
    } else if str_eq(n, "ins") || str_eq(n, "del") || str_eq(n, "moveFrom") || str_eq(
        n,
        "moveTo",
    ) {
        Some("Tracked changes show inserted content and omit deleted content.")
    } else if str_eq(n, "fldSimple") || str_eq(n, "fldChar") {
        Some("Fields display saved results and are not recalculated.")
    } else if str_eq(n, "AlternateContent") {
        Some("Alternate content uses one saved representation; unsupported features may be lost.")
    } else if str_eq(n, "cols") && wide {
        Some("Multiple columns are rendered in a single continuous flow.")
    } else if str_eq(n, "rFonts") {
        Some("Font families use the viewer's default font.")
    } else if str_eq(n, "color") && has(node, "themeColor") {
        Some("Theme colors use saved colors or inherited fallbacks.")
    } else if str_eq(n, "vertAlign") || str_eq(n, "strike") || str_eq(n, "dstrike") || str_eq(
        n,
        "highlight",
    ) || str_eq(n, "vanish") {
        Some("Some advanced run formatting is not reproduced.")
    } else if str_eq(n, "jc") && (str_eq(node.attr("val"), "both") || str_eq(
        node.attr("val"),
        "distribute",
    )) {
        Some("Justified paragraphs are left aligned.")
    } else if str_eq(n, "spacing") && (has(node, "line") || has(node, "beforeLines") || has(
        node,
        "afterLines",
    )) {
        Some("Line-based spacing uses the viewer's default line spacing.")
    } else if str_eq(n, "ind") && (has(node, "hanging") || has(node, "firstLine") || has(
        node,
        "right",
    ) || has(node, "end")) {
        Some("First-line, hanging and right indents are not reproduced exactly.")
    } else if str_eq(n, "pageBreakBefore") && enabled(node.attr("val")) {
        Some("Paragraph page breaks are ignored in continuous flow.")
    } else if str_eq(n, "srcRect") || str_eq(n, "effectLst") {
        Some("Image cropping and drawing effects are not reproduced.")
    } else if str_eq(n, "tblStyle") {
        Some("Table styles use the viewer's default cell appearance.")
    } else {
        None
    }
}

} // verus!
