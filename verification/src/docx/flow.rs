//! How the DOCX flow reads the elements of a body, a table cell and a
//! paragraph.
use crate::docx::{alternate, skipped, skipped_names};
use crate::assoc::{get, get_spec};
use crate::package::Package;
use crate::text::str_eq;
use crate::xml::{attr_spec, child_spec, descendant_spec, Node};
use vstd::prelude::*;
use vstd::string::StrSliceExecFns;

verus! {

/// What the flow makes of an element of a body or a table cell.
pub enum Block<'a> {
    /// A paragraph.
    Paragraph,
    /// A table.
    Table,
    /// Content to read in its place: that of a content control, or the
    /// chosen branch of alternate content (none when absent).
    Inside(Option<&'a Node>),
    /// An element skipped with its content.
    Skip,
    /// Any other element, whose children are read in its place.
    Descend,
}

/// The content read in place of a content control or alternate content.
pub open spec fn inside_spec<'a>(node: Node) -> Option<&'a Node> {
    if node.name@ == "sdt"@ {
        match child_spec(node, "sdtContent"@) {
            Some(c) => Some(&c),
            None => None,
        }
    } else {
        match child_spec(node, "Choice"@) {
            Some(c) => Some(&c),
            None => match child_spec(node, "Fallback"@) {
                Some(f) => Some(&f),
                None => None,
            },
        }
    }
}

/// What the flow makes of an element of a body or table cell.
pub open spec fn block_spec<'a>(node: Node) -> Block<'a> {
    let n = node.name@;
    if n == "p"@ {
        Block::Paragraph
    } else if n == "tbl"@ {
        Block::Table
    } else if n == "sdt"@ || n == "AlternateContent"@ {
        Block::Inside(inside_spec(node))
    } else if skipped_names().contains(n) {
        Block::Skip
    } else {
        Block::Descend
    }
}

fn inside(node: &Node) -> (r: Option<&Node>)
    ensures
        r == inside_spec(*node),
{
    if str_eq(node.name.as_str(), "sdt") {
        node.child("sdtContent")
    } else {
        alternate(node)
    }
}

/// What the flow makes of an element of a body or a table cell.
pub fn block(node: &Node) -> (r: Block<'_>)
    ensures
        r == block_spec(*node),
{
    let n = node.name.as_str();
    if str_eq(n, "p") {
        Block::Paragraph
    } else if str_eq(n, "tbl") {
        Block::Table
    } else if str_eq(n, "sdt") || str_eq(n, "AlternateContent") {
        Block::Inside(inside(node))
    } else if skipped(n) {
        Block::Skip
    } else {
        Block::Descend
    }
}

/// What the flow makes of an element inside a paragraph.
pub enum Inline<'a> {
    /// A run, read with its own formatting.
    Run,
    /// Its text, in the current formatting.
    Text,
    /// A tab character.
    Tab,
    /// A line break; `true` for a page or column break, which is warned
    /// about.
    Break(bool),
    /// A non-breaking hyphen (U+2011).
    NonBreakingHyphen,
    /// A soft hyphen (U+00AD).
    SoftHyphen,
    /// A drawing.
    Drawing,
    /// Content to read in its place (see `Block::Inside`).
    Inside(Option<&'a Node>),
    /// A symbol character, which is left out with a warning.
    Symbol,
    /// An element skipped with its content.
    Skip,
    /// Any other element, whose children are read in its place.
    Descend,
}

/// What the flow makes of an element inside a paragraph: runs, text,
/// tabs, breaks, non-breaking and soft hyphens, drawings, content controls,
/// alternate content and symbols.
pub open spec fn inline_spec<'a>(node: Node) -> Inline<'a> {
    let n = node.name@;
    if n == "r"@ {
        Inline::Run
    } else if n == "t"@ {
        Inline::Text
    } else if n == "tab"@ || n == "ptab"@ {
        Inline::Tab
    } else if n == "br"@ || n == "cr"@ {
        Inline::Break(attr_spec(node, "type"@) == "page"@ || attr_spec(node, "type"@) == "column"@)
    } else if n == "noBreakHyphen"@ {
        Inline::NonBreakingHyphen
    } else if n == "softHyphen"@ {
        Inline::SoftHyphen
    } else if n == "drawing"@ {
        Inline::Drawing
    } else if n == "sdt"@ || n == "AlternateContent"@ {
        Inline::Inside(inside_spec(node))
    } else if n == "sym"@ {
        Inline::Symbol
    } else if skipped_names().contains(n) {
        Inline::Skip
    } else {
        Inline::Descend
    }
}

/// What the flow makes of an element inside a paragraph.
pub fn inline_item(node: &Node) -> (r: Inline<'_>)
    ensures
        r == inline_spec(*node),
{
    let n = node.name.as_str();
    if str_eq(n, "r") {
        Inline::Run
    } else if str_eq(n, "t") {
        Inline::Text
    } else if str_eq(n, "tab") || str_eq(n, "ptab") {
        Inline::Tab
    } else if str_eq(n, "br") || str_eq(n, "cr") {
        let t = node.attr("type");
        Inline::Break(str_eq(t, "page") || str_eq(t, "column"))
    } else if str_eq(n, "noBreakHyphen") {
        Inline::NonBreakingHyphen
    } else if str_eq(n, "softHyphen") {
        Inline::SoftHyphen
    } else if str_eq(n, "drawing") {
        Inline::Drawing
    } else if str_eq(n, "sdt") || str_eq(n, "AlternateContent") {
        Inline::Inside(inside(node))
    } else if str_eq(n, "sym") {
        Inline::Symbol
    } else if skipped(n) {
        Inline::Skip
    } else {
        Inline::Descend
    }
}

/// Where the picture of a drawing container (`inline` or `anchor`) comes
/// from.
pub enum ImageSource<'a> {
    /// The package part its relationship names.
    Part(&'a String),
    /// No picture: a chart, diagram or other drawing.
    NotImage,
    /// A picture whose relationship is missing, empty or external.
    Unresolved,
    /// A picture whose part is not in the package.
    MissingPart,
}

/// The relationship id of a picture: `r:embed`, else `embed`.
pub open spec fn embed_id(blip: Node) -> Seq<char> {
    if attr_spec(blip, "r:embed"@).len() == 0 {
        attr_spec(blip, "embed"@)
    } else {
        attr_spec(blip, "r:embed"@)
    }
}

/// Where the picture of a drawing container comes from: its first `blip`,
/// through the part's relationships, to a part of the package.
pub open spec fn image_source_spec<'a>(
    container: Node,
    rels: Seq<(String, String)>,
    package: Package,
) -> ImageSource<'a> {
    match descendant_spec(container, "blip"@) {
        None => ImageSource::NotImage,
        Some(blip) => {
            let id = embed_id(blip);
            match get_spec(rels, id) {
                None => ImageSource::Unresolved,
                Some(t) => if id.len() == 0 {
                    ImageSource::Unresolved
                } else if !package.holds(t@) {
                    ImageSource::MissingPart
                } else {
                    ImageSource::Part(&t)
                },
            }
        },
    }
}

/// Where the picture of a drawing container comes from.
pub fn image_source<'a>(container: &Node, rels: &'a Vec<(String, String)>, package: &Package) -> (r:
    ImageSource<'a>)
    ensures
        r == image_source_spec(*container, rels@, *package),
{
    let blip = match container.descendant("blip") {
        Some(b) => b,
        None => return ImageSource::NotImage,
    };
    let embedded = blip.attr("r:embed");
    let id = if embedded.unicode_len() == 0 {
        blip.attr("embed")
    } else {
        embedded
    };
    match get(rels, id) {
        None => ImageSource::Unresolved,
        Some(t) => if id.unicode_len() == 0 {
            ImageSource::Unresolved
        } else if !package.has(t.as_str()) {
            ImageSource::MissingPart
        } else {
            ImageSource::Part(t)
        },
    }
}

/// A drawing container: `inline` or `anchor`.
pub fn is_container(node: &Node) -> (r: bool)
    ensures
        r == (node.name@ == "inline"@ || node.name@ == "anchor"@),
{
    str_eq(node.name.as_str(), "inline") || str_eq(node.name.as_str(), "anchor")
}

} // verus!
