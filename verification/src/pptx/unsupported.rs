//! Warnings for slide content that the viewer does not show.
use crate::model::{texts, warn as record, warned};
use crate::text::str_eq;
use crate::xml::Node;
use vstd::prelude::*;

verus! {

/// The warning one element raises by itself.
pub open spec fn unsupported_message(node: Node) -> Option<Seq<char>> {
    let n = node.name@;
    if n == "chart"@ {
        Some("PPTX charts are omitted."@)
    } else if n == "relIds"@ {
        Some("PPTX SmartArt is omitted."@)
    } else if n == "oMath"@ || n == "oMathPara"@ {
        Some("PPTX mathematical equations are omitted."@)
    } else if n == "timing"@ {
        Some("PPTX animations and timing are not supported."@)
    } else if n == "transition"@ {
        Some("PPTX transitions are not supported."@)
    } else if n == "AlternateContent"@ {
        Some("PPTX alternate content is omitted."@)
    } else if n == "audioFile"@ || n == "videoFile"@ || n == "media"@ || n == "oleObj"@ {
        Some("PPTX multimedia and embedded objects are not supported."@)
    } else if (n == "effectLst"@ || n == "effectDag"@ || n == "scene3d"@ || n == "sp3d"@)
        && node.children@.len() > 0 {
        Some("PPTX shape effects and 3D styling are not supported."@)
    } else {
        None
    }
}

/// The warning list after an element and then its subtree are inspected.
pub open spec fn warned_tree(before: Seq<Seq<char>>, node: Node) -> Seq<Seq<char>>
    decreases node, 1int,
{
    let first = match unsupported_message(node) {
        Some(m) => warned(before, m),
        None => before,
    };
    warned_children(first, node, 0)
}

/// The warning list after the children from index `i` on are inspected.
pub open spec fn warned_children(before: Seq<Seq<char>>, node: Node, i: int) -> Seq<Seq<char>>
    decreases node, 0int, node.children@.len() - i,
{
    if i < 0 || i >= node.children@.len() {
        before
    } else {
        proof {
            assert(decreases_to!(node => node.children));
            assert(decreases_to!(node.children => node.children@));
            assert(decreases_to!(node.children@ => node.children@[i]));
        }
        warned_children(warned_tree(before, node.children@[i]), node, i + 1)
    }
}

fn message(node: &Node) -> (r: Option<&'static str>)
    ensures
        match unsupported_message(*node) {
            Some(m) => r matches Some(s) && s@ == m,
            None => r is None,
        },
{
    let n = node.name.as_str();
    if str_eq(n, "chart") {
        Some("PPTX charts are omitted.")
    } else if str_eq(n, "relIds") {
        Some("PPTX SmartArt is omitted.")
    } else if str_eq(n, "oMath") || str_eq(n, "oMathPara") {
        Some("PPTX mathematical equations are omitted.")
    } else if str_eq(n, "timing") {
        Some("PPTX animations and timing are not supported.")
    } else if str_eq(n, "transition") {
        Some("PPTX transitions are not supported.")
    } else if str_eq(n, "AlternateContent") {
        Some("PPTX alternate content is omitted.")
    } else if str_eq(n, "audioFile") || str_eq(n, "videoFile") || str_eq(n, "media") || str_eq(
        n,
        "oleObj",
    ) {
        Some("PPTX multimedia and embedded objects are not supported.")
    } else if (str_eq(n, "effectLst") || str_eq(n, "effectDag") || str_eq(n, "scene3d") || str_eq(
        n,
        "sp3d",
    )) && node.children.len() > 0 {
        Some("PPTX shape effects and 3D styling are not supported.")
    } else {
        None
    }
}

/// Warns about charts, SmartArt, equations, animations, transitions,
/// alternate content, media and shape effects anywhere in the tree, in
/// document order.
pub fn warn(node: &Node, warnings: &mut Vec<String>)
    ensures
        texts(final(warnings)@) == warned_tree(texts(old(warnings)@), *node),
    decreases *node, 1int,
{
    if let Some(m) = message(node) {
        record(warnings, m);
    }
    warn_children(node, warnings, 0);
}

fn warn_children(node: &Node, warnings: &mut Vec<String>, start: usize)
    requires
        start <= node.children@.len(),
    ensures
        texts(final(warnings)@) == warned_children(texts(old(warnings)@), *node, start as int),
    decreases *node, 0int, node.children@.len() - start,
{
    if start >= node.children.len() {
        return;
    }
    proof {
        assert(decreases_to!(*node => node.children));
        assert(decreases_to!(node.children => node.children@));
        assert(decreases_to!(node.children@ => node.children@[start as int]));
    }
    warn(&node.children[start], warnings);
    warn_children(node, warnings, start + 1);
}

} // verus!
