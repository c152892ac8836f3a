//! PPTX presentations: placeholder inheritance, theme colour mapping,
//! list numbering, chart data caches and the presentation-wide budgets.
pub mod chart_data;
pub mod colors;
pub mod inheritance;
pub mod line_chart;
pub mod numbering;
pub mod paragraphs;
pub mod parts;
pub mod shapes;
pub mod unsupported;

use crate::error::Error;
use crate::text::str_eq;
use crate::xml::{attr_spec, child_spec, lookup, Node};
use chart_data::{parse_usize, parse_usize_spec, value, value_spec};
use vstd::string::StringSliceAdditionalSpecFns;
use vstd::prelude::*;

verus! {

/// Elements, group nodes and table cells a presentation may produce.
pub const MAX_OBJECTS: usize = 5000;

/// Bytes of rendered text a presentation may produce.
pub const MAX_TEXT_BYTES: usize = 8_388_608;

/// Running totals checked against the presentation limits.
#[derive(Default)]
pub struct Budget {
    pub objects: usize,
    pub text_bytes: usize,
    pub path_commands: usize,
}

impl Budget {
    /// Counts one element; fails once 5000 have been counted.
    pub fn object(&mut self) -> (r: Result<(), Error>)
        ensures
            old(self).objects >= MAX_OBJECTS ==> r == Err::<(), Error>(
                Error::Limit("PPTX exceeds 5000 elements and table cells"),
            ) && *final(self) == *old(self),
            old(self).objects < MAX_OBJECTS ==> r is Ok && final(self).objects == old(self).objects + 1
                && final(self).text_bytes == old(self).text_bytes && final(self).path_commands
                == old(self).path_commands,
    {
        if self.objects >= MAX_OBJECTS {
            return Err(Error::Limit("PPTX exceeds 5000 elements and table cells"));
        }
        self.objects = self.objects + 1;
        Ok(())
    }

    /// Counts rendered text bytes (saturating); fails beyond 8 MiB.
    pub fn text(&mut self, bytes: usize) -> (r: Result<(), Error>)
        ensures
            final(self).objects == old(self).objects,
            final(self).path_commands == old(self).path_commands,
            final(self).text_bytes == if old(self).text_bytes + bytes <= usize::MAX {
                old(self).text_bytes + bytes
            } else {
                usize::MAX as int
            },
            r is Ok <==> final(self).text_bytes <= MAX_TEXT_BYTES,
            r is Err ==> r == Err::<(), Error>(Error::Limit("PPTX rendered text exceeds 8 MiB")),
    {
        self.text_bytes = self.text_bytes.saturating_add(bytes);
        if self.text_bytes > MAX_TEXT_BYTES {
            return Err(Error::Limit("PPTX rendered text exceeds 8 MiB"));
        }
        Ok(())
    }
}

/// The `r:`-qualified attribute when present, else the plain one.
pub open spec fn relation_id_spec(node: Node, name: Seq<char>) -> Seq<char> {
    match lookup(node.attrs@, "r:"@ + name) {
        Some(v) => v,
        None => attr_spec(node, name),
    }
}

/// The relationship id in attribute `name`, preferring its `r:` form.
pub fn relation_id<'a>(node: &'a Node, name: &str) -> (r: &'a str)
    ensures
        r@ == relation_id_spec(*node, name@),
{
    let mut key = String::new();
    key.append("r:");
    key.append(name);
    proof {
        reveal_strlit("r:");
    }
    let mut i: usize = 0;
    while i < node.attrs.len()
        invariant
            i <= node.attrs@.len(),
            key@ == "r:"@ + name@,
            forall|j: int| 0 <= j < i ==> node.attrs@[j].0@ != key@,
        decreases node.attrs.len() - i,
    {
        if str_eq(node.attrs[i].0.as_str(), key.as_str()) {
            proof {
                crate::xml::lemma_lookup_index_pub(node.attrs@, key@, i as int);
            }
            return node.attrs[i].1.as_str();
        }
        i = i + 1;
    }
    proof {
        crate::xml::lemma_lookup_none_pub(node.attrs@, key@);
    }
    node.attr(name)
}

/// An on/off attribute: `1`/`true`/`on`, `0`/`false`/`off`, else the default.
pub open spec fn flag_spec(value: Seq<char>, default: bool) -> bool {
    if value == "1"@ || value == "true"@ || value == "on"@ {
        true
    } else if value == "0"@ || value == "false"@ || value == "off"@ {
        false
    } else {
        default
    }
}

pub fn flag(value: &str, default: bool) -> (r: bool)
    ensures
        r == flag_spec(value@, default),
{
    if str_eq(value, "1") || str_eq(value, "true") || str_eq(value, "on") {
        true
    } else if str_eq(value, "0") || str_eq(value, "false") || str_eq(value, "off") {
        false
    } else {
        default
    }
}


/// Slides a presentation may have.
pub const MAX_SLIDES: usize = 100;

/// The `sldId` entries of a slide list, in order.
pub open spec fn slide_entries(list: Node) -> Seq<Node> {
    list.children@.filter(|c: Node| c.name@ == "sldId"@)
}

/// The slides a `presentation` element lists: it must have a slide list of
/// 1 to 100 entries.
pub fn slide_list(root: &Node) -> (r: Result<Vec<&Node>, Error>)
    ensures
        match child_spec(*root, "sldIdLst"@) {
            None => r == Err::<Vec<&Node>, Error>(Error::Invalid("PPTX has no slide list")),
            Some(l) => if slide_entries(l).len() == 0 {
                r == Err::<Vec<&Node>, Error>(Error::Invalid("PPTX has no slides"))
            } else if slide_entries(l).len() > MAX_SLIDES {
                r == Err::<Vec<&Node>, Error>(Error::Limit("PPTX exceeds 100 slides"))
            } else {
                r matches Ok(v) && v@.map_values(|c: &Node| *c) == slide_entries(l)
            },
        },
{
    let list = match root.child("sldIdLst") {
        Some(l) => l,
        None => return Err(Error::Invalid("PPTX has no slide list")),
    };
    let ids = list.named("sldId");
    assert(ids@.map_values(|c: &Node| *c).len() == ids@.len());
    if ids.len() == 0 {
        return Err(Error::Invalid("PPTX has no slides"));
    }
    if ids.len() > MAX_SLIDES {
        return Err(Error::Limit("PPTX exceeds 100 slides"));
    }
    Ok(ids)
}

/// The part a slide list entry points at through the presentation's
/// relationships.
pub fn slide_part<'a>(rels: &'a Vec<(String, String)>, id: &Node) -> (r: Result<&'a str, Error>)
    ensures
        match crate::assoc::get_spec(rels@, relation_id_spec(*id, "id"@)) {
            Some(p) => r matches Ok(s) && s@ == p@,
            None => r == Err::<&str, Error>(Error::Invalid("Missing PPTX slide relationship")),
        },
{
    match crate::assoc::get(rels, relation_id(id, "id")) {
        Some(p) => Ok(p.as_str()),
        None => Err(Error::Invalid("Missing PPTX slide relationship")),
    }
}

/// Which shape trees of the master and the layout a slide shows before its
/// own: the master's when the slide and its layout both show master shapes
/// (`showMasterSp`, on by default), the layout's when the slide does.
pub fn shown_layers(slide: &Node, layout: Option<&Node>) -> (r: (bool, bool))
    ensures
        r.1 == flag_spec(attr_spec(*slide, "showMasterSp"@), true),
        r.0 == (r.1 && match layout {
            Some(l) => flag_spec(attr_spec(*l, "showMasterSp"@), true),
            None => true,
        }),
{
    let slide_shows = flag(slide.attr("showMasterSp"), true);
    let layout_shows = match layout {
        Some(l) => flag(l.attr("showMasterSp"), true),
        None => true,
    };
    (slide_shows && layout_shows, slide_shows)
}

/// A group drawn mirrored: its transform sets `flipH` or `flipV`.
pub open spec fn flipped_spec(group: Node) -> bool {
    match child_spec(group, "grpSpPr"@) {
        None => false,
        Some(p) => match child_spec(p, "xfrm"@) {
            None => false,
            Some(x) => flag_spec(attr_spec(x, "flipH"@), false) || flag_spec(attr_spec(x, "flipV"@), false),
        },
    }
}

pub fn flipped(group: &Node) -> (r: bool)
    ensures
        r == flipped_spec(*group),
{
    match group.child("grpSpPr") {
        None => false,
        Some(p) => match p.child("xfrm") {
            None => false,
            Some(x) => flag(x.attr("flipH"), false) || flag(x.attr("flipV"), false),
        },
    }
}

/// The list level of a paragraph: its `lvl`, 0 when unreadable, at most 8.
pub open spec fn paragraph_level_spec(node: Node) -> usize {
    match parse_usize_spec(crate::text::utf8(attr_spec(node, "lvl"@))) {
        Some(v) => if v < 8 {
            v
        } else {
            8
        },
        None => 0,
    }
}

pub fn paragraph_level(node: &Node) -> (r: usize)
    ensures
        r == paragraph_level_spec(*node),
{
    match parse_usize(node.attr("lvl")) {
        Some(v) => if v < 8 {
            v
        } else {
            8
        },
        None => 0,
    }
}

/// A chart axis shows tick labels unless it is deleted or its label
/// position is `none`.
pub open spec fn axis_labels_spec(axis: Node) -> bool {
    !flag_spec(value_spec(axis, "delete"@), false) && value_spec(axis, "tickLblPos"@) != "none"@
}

pub fn axis_labels(axis: &Node) -> (r: bool)
    ensures
        r == axis_labels_spec(*axis),
{
    !flag(value(axis, "delete"), false) && !str_eq(value(axis, "tickLblPos"), "none")
}

/// A chart axis runs from its maximum to its minimum.
pub open spec fn reversed_spec(axis: Node) -> bool {
    match child_spec(axis, "scaling"@) {
        Some(s) => value_spec(s, "orientation"@) == "maxMin"@,
        None => false,
    }
}

pub fn reversed(axis: &Node) -> (r: bool)
    ensures
        r == reversed_spec(*axis),
{
    match axis.child("scaling") {
        Some(s) => str_eq(value(s, "orientation"), "maxMin"),
        None => false,
    }
}


/// A Unicode `White_Space` character (what `str::split_whitespace` splits on).
pub open spec fn is_white(c: char) -> bool {
    let v = c as u32;
    (9 <= v <= 13) || v == 32 || v == 0x85 || v == 0xa0 || v == 0x1680 || (0x2000 <= v <= 0x200a)
        || v == 0x2028 || v == 0x2029 || v == 0x202f || v == 0x205f || v == 0x3000
}

/// The whitespace-separated words of `s` from `start`, scanning at `i`.
pub open spec fn words_from(s: Seq<char>, start: int, i: int) -> Seq<Seq<char>>
    decreases s.len() - i,
{
    if i >= s.len() {
        if start < s.len() {
            seq![s.subrange(start, s.len() as int)]
        } else {
            Seq::empty()
        }
    } else if is_white(s[i]) {
        (if start < i {
            seq![s.subrange(start, i)]
        } else {
            Seq::empty()
        }) + words_from(s, i + 1, i + 1)
    } else {
        words_from(s, start, i + 1)
    }
}

/// A word that `i32` parsing reads as zero: an optional sign and zeros.
pub open spec fn zero_word(w: Seq<char>) -> bool {
    unsigned_part(w).len() > 0 && all_zero_chars(unsigned_part(w))
}

/// A word without its leading sign.
pub open spec fn unsigned_part(w: Seq<char>) -> Seq<char> {
    if w.len() > 0 && (w[0] == '+' || w[0] == '-') {
        w.drop_first()
    } else {
        w
    }
}

pub open spec fn all_zero_chars(d: Seq<char>) -> bool {
    forall|i: int| 0 <= i < d.len() ==> d[i] == '0'
}

/// The first `gd` guide named `adj` of a geometry's adjustment list.
pub open spec fn adjustment(geometry: Node) -> Option<Node> {
    match child_spec(geometry, "avLst"@) {
        None => None,
        Some(list) => first_adj(list.children@),
    }
}

pub open spec fn first_adj(children: Seq<Node>) -> Option<Node>
    decreases children.len(),
{
    if children.len() == 0 {
        None
    } else if children[0].name@ == "gd"@ && attr_spec(children[0], "name"@) == "adj"@ {
        Some(children[0])
    } else {
        first_adj(children.drop_first())
    }
}

/// A rounded rectangle whose corner adjustment is the formula `val 0`.
pub open spec fn zero_corner_radius_spec(geometry: Node) -> bool {
    match adjustment(geometry) {
        None => false,
        Some(adj) => {
            let words = words_from(attr_spec(adj, "fmla"@), 0, 0);
            words.len() == 2 && words[0] == "val"@ && zero_word(words[1])
        },
    }
}

fn white(c: char) -> (r: bool)
    ensures
        r == is_white(c),
{
    let v = c as u32;
    (9 <= v && v <= 13) || v == 32 || v == 0x85 || v == 0xa0 || v == 0x1680 || (0x2000 <= v && v
        <= 0x200a) || v == 0x2028 || v == 0x2029 || v == 0x202f || v == 0x205f || v == 0x3000
}

fn copy_chars(s: &Vec<char>, lo: usize, hi: usize) -> (r: Vec<char>)
    requires
        lo <= hi <= s@.len(),
    ensures
        r@ == s@.subrange(lo as int, hi as int),
{
    let mut r: Vec<char> = Vec::new();
    let mut i = lo;
    while i < hi
        invariant
            lo <= i <= hi <= s@.len(),
            r@ == s@.subrange(lo as int, i as int),
        decreases hi - i,
    {
        r.push(s[i]);
        proof {
            assert(s@.subrange(lo as int, i + 1) =~= s@.subrange(lo as int, i as int).push(s@[i as int]));
        }
        i = i + 1;
    }
    r
}

/// The whitespace-separated words of a text (`str::split_whitespace`).
pub fn words(text: &str) -> (r: Vec<Vec<char>>)
    ensures
        r@.map_values(|w: Vec<char>| w@) == words_from(text@, 0, 0),
{
    let s = crate::text::chars_of(text);
    let mut r: Vec<Vec<char>> = Vec::new();
    let mut start: usize = 0;
    let mut i: usize = 0;
    assert(r@.map_values(|w: Vec<char>| w@) + words_from(s@, 0, 0) =~= words_from(s@, 0, 0));
    while i < s.len()
        invariant
            start <= i <= s@.len(),
            s@ == text@,
            words_from(s@, 0, 0) == r@.map_values(|w: Vec<char>| w@) + words_from(s@, start as int, i as int),
        decreases s.len() - i,
    {
        if white(s[i]) {
            let ghost before = r@.map_values(|w: Vec<char>| w@);
            if start < i {
                let w = copy_chars(&s, start, i);
                r.push(w);
                proof {
                    assert(r@.map_values(|w: Vec<char>| w@) =~= before.push(s@.subrange(start as int, i as int)));
                }
            }
            proof {
                let piece = if start < i {
                    seq![s@.subrange(start as int, i as int)]
                } else {
                    Seq::<Seq<char>>::empty()
                };
                assert(before + words_from(s@, start as int, i as int) =~= (before + piece)
                    + words_from(s@, i + 1, i + 1));
                assert(r@.map_values(|w: Vec<char>| w@) =~= before + piece);
            }
            start = i + 1;
        }
        i = i + 1;
    }
    let ghost before = r@.map_values(|w: Vec<char>| w@);
    if start < s.len() {
        let w = copy_chars(&s, start, s.len());
        r.push(w);
        proof {
            assert(r@.map_values(|w: Vec<char>| w@) =~= before + seq![s@.subrange(start as int, s@.len() as int)]);
        }
    } else {
        assert(before + Seq::<Seq<char>>::empty() =~= before);
    }
    r
}

fn is_zero_word(w: &Vec<char>) -> (r: bool)
    ensures
        r == zero_word(w@),
{
    let start: usize = if w.len() > 0 && (w[0] == '+' || w[0] == '-') {
        1
    } else {
        0
    };
    let ghost digits = if start == 1 {
        w@.drop_first()
    } else {
        w@
    };
    if w.len() <= start {
        return false;
    }
    assert(w@.skip(1) =~= w@.drop_first());
    assert(w@.skip(0) =~= w@);
    let mut i = start;
    while i < w.len()
        invariant
            start == (if w@.len() > 0 && (w@[0] == '+' || w@[0] == '-') {
                1usize
            } else {
                0usize
            }),
            start <= i <= w@.len(),
            digits == w@.skip(start as int),
            digits == unsigned_part(w@),
            forall|j: int| 0 <= j < i - start ==> digits[j] == '0',
        decreases w.len() - i,
    {
        if w[i] != '0' {
            proof {
                let d = unsigned_part(w@);
                assert(d[i - start] == w@[i as int]);
                assert(0 <= i - start < d.len());
                assert(!all_zero_chars(d));
            }
            return false;
        }
        i = i + 1;
    }
    true
}

/// Whether a shape's geometry sets its corner adjustment to `val 0`, which
/// draws a rounded rectangle with square corners.
#[verifier::loop_isolation(false)]
pub fn has_zero_corner_radius(geometry: &Node) -> (r: bool)
    ensures
        r == zero_corner_radius_spec(*geometry),
{
    let list = match geometry.child("avLst") {
        None => return false,
        Some(l) => l,
    };
    let mut i: usize = 0;
    let ghost kids = list.children@;
    assert(kids.skip(0) =~= kids);
    while i < list.children.len()
        invariant
            i <= kids.len(),
            kids == list.children@,
            first_adj(kids) == first_adj(kids.skip(i as int)),
        decreases list.children.len() - i,
    {
        assert(kids.skip(i as int)[0] == kids[i as int]);
        assert(kids.skip(i as int).drop_first() =~= kids.skip(i + 1));
        let g = &list.children[i];
        if str_eq(g.name.as_str(), "gd") && str_eq(g.attr("name"), "adj") {
            let w = words(g.attr("fmla"));
            proof {
                assert(w@.map_values(|x: Vec<char>| x@).len() == w@.len());
            }
            if w.len() != 2 {
                return false;
            }
            let first = crate::text::chars_of("val");
            proof {
                assert(w@.map_values(|x: Vec<char>| x@)[0] == w@[0]@);
                assert(w@.map_values(|x: Vec<char>| x@)[1] == w@[1]@);
            }
            if !chars_equal(&w[0], &first) {
                return false;
            }
            return is_zero_word(&w[1]);
        }
        i = i + 1;
    }
    false
}

fn chars_equal(a: &Vec<char>, b: &Vec<char>) -> (r: bool)
    ensures
        r == (a@ == b@),
{
    if a.len() != b.len() {
        return false;
    }
    let mut i: usize = 0;
    while i < a.len()
        invariant
            a@.len() == b@.len(),
            i <= a@.len(),
            forall|j: int| 0 <= j < i ==> a@[j] == b@[j],
        decreases a.len() - i,
    {
        if a[i] != b[i] {
            return false;
        }
        i = i + 1;
    }
    assert(a@ =~= b@);
    true
}

} // verus!
