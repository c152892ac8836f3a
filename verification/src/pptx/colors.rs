//! Theme colours of a slide: the theme's colour scheme and the master,
//! layout and slide colour mappings layered over it.
use super::parts::Part;
use crate::assoc::{get, get_spec, insert, unique_keys};
use super::chart_data::{parse_usize, parse_usize_spec};
use crate::text::{str_eq, utf8};
use crate::xml::{attr_spec, child_spec, color, color_spec, Node};
use std::rc::Rc;
use vstd::prelude::*;

verus! {

broadcast use vstd::seq::group_seq_axioms;

/// Resolved scheme colours and the colour-name mapping of one slide.
pub struct Theme {
    pub source: Option<Rc<Part>>,
    pub colors: Vec<(String, u32)>,
    pub mapping: Vec<(String, String)>,
}

/// The string value stored under `key` in a mapping, as characters.
pub open spec fn get_str(m: Seq<(String, String)>, key: Seq<char>) -> Option<Seq<char>> {
    match get_spec(m, key) {
        Some(v) => Some(v@),
        None => None,
    }
}

/// The value of the last attribute named `key`.
pub open spec fn last_value(attrs: Seq<(String, String)>, key: Seq<char>) -> Option<Seq<char>>
    decreases attrs.len(),
{
    if attrs.len() == 0 {
        None
    } else if attrs.last().0@ == key {
        Some(attrs.last().1@)
    } else {
        last_value(attrs.drop_last(), key)
    }
}

/// The colour a scheme name stands for after mapping (`tx1` → `dk1`, ...).
pub open spec fn resolve_spec(colors: Seq<(String, u32)>, mapping: Seq<(String, String)>, key: Seq<char>) -> Option<u32> {
    get_spec(
        colors,
        match get_str(mapping, key) {
            Some(target) => target,
            None => key,
        },
    )
}

/// The scheme name of accent colour `index` (cycling through six).
pub open spec fn accent_name(index: int) -> Seq<char> {
    let k = index % 6;
    if k == 0 {
        "accent1"@
    } else if k == 1 {
        "accent2"@
    } else if k == 2 {
        "accent3"@
    } else if k == 3 {
        "accent4"@
    } else if k == 4 {
        "accent5"@
    } else {
        "accent6"@
    }
}

/// Office's default accent colours.
pub open spec fn accent_fallback(index: int) -> u32 {
    let k = index % 6;
    if k == 0 {
        0xff4472c4
    } else if k == 1 {
        0xffed7d31
    } else if k == 2 {
        0xffa5a5a5
    } else if k == 3 {
        0xffffc000
    } else if k == 4 {
        0xff5b9bd5
    } else {
        0xff70ad47
    }
}

/// The node behind an optional reference.
pub open spec fn deref_opt(o: Option<&Node>) -> Option<Node> {
    match o {
        Some(n) => Some(*n),
        None => None,
    }
}

/// The map node `name` below `node`, if both exist.
pub open spec fn child_of(node: Option<Node>, name: Seq<char>) -> Option<Node> {
    match node {
        Some(n) => child_spec(n, name),
        None => None,
    }
}

impl Theme {
    pub open spec fn wf(&self) -> bool {
        unique_keys(self.colors@) && unique_keys(self.mapping@)
    }

    /// A theme holding the defaults: black `dk1`, white `lt1`, and the
    /// mapping `tx1`→`dk1`, `bg1`→`lt1`, `tx2`→`dk2`, `bg2`→`lt2`.
    pub fn with_defaults(source: Option<Rc<Part>>) -> (r: Theme)
        ensures
            r.wf(),
            r.source == source,
            resolve_spec(r.colors@, r.mapping@, "dk1"@) == Some(0xff000000u32),
            resolve_spec(r.colors@, r.mapping@, "lt1"@) == Some(0xffffffffu32),
            get_str(r.mapping@, "tx1"@) == Some("dk1"@),
            get_str(r.mapping@, "bg1"@) == Some("lt1"@),
            get_str(r.mapping@, "tx2"@) == Some("dk2"@),
            get_str(r.mapping@, "bg2"@) == Some("lt2"@),
    {
        let mut colors: Vec<(String, u32)> = Vec::new();
        let mut mapping: Vec<(String, String)> = Vec::new();
        proof {
            reveal_strlit("dk1");
            reveal_strlit("lt1");
            reveal_strlit("tx1");
            reveal_strlit("bg1");
            reveal_strlit("tx2");
            reveal_strlit("bg2");
        }
        assert("dk1"@[0] != "tx1"@[0] && "dk1"@[0] != "bg1"@[0] && "dk1"@[0] != "tx2"@[0]
            && "dk1"@[0] != "bg2"@[0]);
        assert("lt1"@[0] != "tx1"@[0] && "lt1"@[0] != "bg1"@[0] && "lt1"@[0] != "tx2"@[0]
            && "lt1"@[0] != "bg2"@[0]);
        assert("dk1"@ != "lt1"@) by {
            assert("dk1"@[0] != "lt1"@[0]);
        }
        assert("tx1"@ != "bg1"@ && "tx1"@ != "tx2"@ && "tx1"@ != "bg2"@) by {
            assert("tx1"@[0] != "bg1"@[0] && "tx1"@[2] != "tx2"@[2] && "tx1"@[0] != "bg2"@[0]);
        }
        assert("bg1"@ != "tx2"@ && "bg1"@ != "bg2"@) by {
            assert("bg1"@[0] != "tx2"@[0] && "bg1"@[2] != "bg2"@[2]);
        }
        assert("tx2"@ != "bg2"@) by {
            assert("tx2"@[0] != "bg2"@[0]);
        }
        let ghost m0 = mapping@;
        assert(get_spec(m0, "dk1"@) is None && get_spec(m0, "lt1"@) is None);
        insert(&mut colors, "dk1".to_owned(), 0xff000000);
        insert(&mut colors, "lt1".to_owned(), 0xffffffff);
        insert(&mut mapping, "tx1".to_owned(), "dk1".to_owned());
        let ghost m1 = mapping@;
        assert(get_spec(m1, "dk1"@) is None && get_spec(m1, "lt1"@) is None);
        insert(&mut mapping, "bg1".to_owned(), "lt1".to_owned());
        let ghost m2 = mapping@;
        assert(get_spec(m2, "dk1"@) is None && get_spec(m2, "lt1"@) is None);
        insert(&mut mapping, "tx2".to_owned(), "dk2".to_owned());
        let ghost m3 = mapping@;
        assert(get_spec(m3, "dk1"@) is None && get_spec(m3, "lt1"@) is None);
        insert(&mut mapping, "bg2".to_owned(), "lt2".to_owned());
        assert(get_spec(mapping@, "dk1"@) is None && get_spec(mapping@, "lt1"@) is None);
        proof {
            reveal_strlit("dk1");
            reveal_strlit("lt1");
            reveal_strlit("dk2");
            reveal_strlit("lt2");
            reveal_strlit("tx1");
            reveal_strlit("bg1");
            reveal_strlit("tx2");
            reveal_strlit("bg2");
        }
        Theme { source, colors, mapping }
    }

    /// Stores a scheme colour under its name.
    pub fn insert_color(&mut self, name: String, value: u32)
        requires
            old(self).wf(),
        ensures
            final(self).wf(),
            final(self).source == old(self).source,
            final(self).mapping == old(self).mapping,
            get_spec(final(self).colors@, name@) == Some(value),
            forall|k: Seq<char>| k != name@ ==> get_spec(final(self).colors@, k) == get_spec(old(self).colors@, k),
    {
        insert(&mut self.colors, name, value);
    }

    /// Lays the attributes of a colour-map node over the mapping.
    pub fn map(&mut self, node: Option<&Node>)
        requires
            old(self).wf(),
        ensures
            final(self).wf(),
            final(self).source == old(self).source,
            final(self).colors == old(self).colors,
            forall|k: Seq<char>| #[trigger] get_str(final(self).mapping@, k) == match node {
                Some(n) => match last_value(n.attrs@, k) {
                    Some(v) => Some(v),
                    None => get_str(old(self).mapping@, k),
                },
                None => get_str(old(self).mapping@, k),
            },
    {
        if let Some(node) = node {
            let mut i: usize = 0;
            while i < node.attrs.len()
                invariant
                    i <= node.attrs@.len(),
                    self.wf(),
                    self.source == old(self).source,
                    self.colors == old(self).colors,
                    forall|k: Seq<char>| #[trigger] get_str(self.mapping@, k) == match last_value(
                        node.attrs@.take(i as int),
                        k,
                    ) {
                        Some(v) => Some(v),
                        None => get_str(old(self).mapping@, k),
                    },
                decreases node.attrs.len() - i,
            {
                let key = node.attrs[i].0.clone();
                let value = node.attrs[i].1.clone();
                let ghost kv = key@;
                let ghost vv = value@;
                let ghost before = self.mapping@;
                proof {
                    assert(node.attrs@.take(i + 1).drop_last() =~= node.attrs@.take(i as int));
                    assert(node.attrs@.take(i + 1).last() == node.attrs@[i as int]);
                }
                insert(&mut self.mapping, key, value);
                proof {
                    assert forall|k: Seq<char>| #[trigger] get_str(self.mapping@, k) == match last_value(
                        node.attrs@.take(i + 1),
                        k,
                    ) {
                        Some(v) => Some(v),
                        None => get_str(old(self).mapping@, k),
                    } by {
                        if k == kv {
                            assert(get_str(self.mapping@, k) == Some(vv));
                        } else {
                            assert(get_spec(self.mapping@, k) == get_spec(before, k));
                            assert(get_str(before, k) == match last_value(node.attrs@.take(i as int), k) {
                                Some(v) => Some(v),
                                None => get_str(old(self).mapping@, k),
                            });
                        }
                    }
                }
                i = i + 1;
            }
            assert(node.attrs@.take(i as int) =~= node.attrs@);
        }
    }

    /// Applies the master's colour map, then the layout's override unless
    /// the slide keeps the master mapping, then the slide's override.
    pub fn set_mapping(&mut self, slide: &Node, layout: Option<&Node>, master: Option<&Node>)
        requires
            old(self).wf(),
        ensures
            final(self).wf(),
            final(self).source == old(self).source,
            final(self).colors == old(self).colors,
            ({
                let master_map = child_of(deref_opt(master), "clrMap"@);
                let slide_override = child_spec(*slide, "clrMapOvr"@);
                let layout_map = if child_of(slide_override, "masterClrMapping"@) is None {
                    child_of(child_of(deref_opt(layout), "clrMapOvr"@), "overrideClrMapping"@)
                } else {
                    None
                };
                let slide_map = child_of(slide_override, "overrideClrMapping"@);
                forall|k: Seq<char>| #[trigger] get_str(final(self).mapping@, k) == layered(
                    get_str(old(self).mapping@, k),
                    master_map,
                    layout_map,
                    slide_map,
                    k,
                )
            }),
    {
        let master_map = match master {
            Some(n) => n.child("clrMap"),
            None => None,
        };
        self.map(master_map);
        let slide_override = slide.child("clrMapOvr");
        let keeps_master = match slide_override {
            Some(n) => n.child("masterClrMapping").is_some(),
            None => false,
        };
        let mut layout_map: Option<&Node> = None;
        if !keeps_master {
            layout_map = match layout {
                Some(n) => match n.child("clrMapOvr") {
                    Some(o) => o.child("overrideClrMapping"),
                    None => None,
                },
                None => None,
            };
        }
        self.map(layout_map);
        let slide_map = match slide_override {
            Some(n) => n.child("overrideClrMapping"),
            None => None,
        };
        self.map(slide_map);
    }

    /// The colour a scheme name stands for after mapping.
    pub fn resolve(&self, key: &str) -> (r: Option<u32>)
        ensures
            r == resolve_spec(self.colors@, self.mapping@, key@),
    {
        let target: &str = match get(&self.mapping, key) {
            Some(t) => t.as_str(),
            None => key,
        };
        match get(&self.colors, target) {
            Some(c) => Some(*c),
            None => None,
        }
    }

    /// The mapped text colour `tx1`, or dark grey.
    pub fn text_color(&self) -> (r: u32)
        ensures
            r == match resolve_spec(self.colors@, self.mapping@, "tx1"@) {
                Some(c) => c,
                None => 0xff202124u32,
            },
    {
        match self.resolve("tx1") {
            Some(c) => c,
            None => 0xff202124,
        }
    }

    /// Accent colour `index % 6 + 1`, or Office's default for it.
    pub fn accent(&self, index: usize) -> (r: u32)
        ensures
            r == match resolve_spec(self.colors@, self.mapping@, accent_name(index as int)) {
                Some(c) => c,
                None => accent_fallback(index as int),
            },
    {
        let k = index % 6;
        let name = if k == 0 {
            "accent1"
        } else if k == 1 {
            "accent2"
        } else if k == 2 {
            "accent3"
        } else if k == 3 {
            "accent4"
        } else if k == 4 {
            "accent5"
        } else {
            "accent6"
        };
        let fallback: u32 = if k == 0 {
            0xff4472c4
        } else if k == 1 {
            0xffed7d31
        } else if k == 2 {
            0xffa5a5a5
        } else if k == 3 {
            0xffffc000
        } else if k == 4 {
            0xff5b9bd5
        } else {
            0xff70ad47
        };
        match self.resolve(name) {
            Some(c) => c,
            None => fallback,
        }
    }

    /// The theme's format-scheme list `name` (fill, line, effect or
    /// background fill styles).
    pub fn format_list(&self, name: &str) -> (r: Option<&Node>)
        ensures
            match self.source {
                None => r is None,
                Some(p) => match child_of(child_of(Some(p.root), "themeElements"@), "fmtScheme"@) {
                    None => r is None,
                    Some(scheme) => match child_spec(scheme, name@) {
                        Some(list) => r == Some(&list),
                        None => r is None,
                    },
                },
            },
    {
        match &self.source {
            None => None,
            Some(part) => match part.root.child("themeElements") {
                None => None,
                Some(elements) => match elements.child("fmtScheme") {
                    None => None,
                    Some(scheme) => scheme.child(name),
                },
            },
        }
    }
}

/// The colour elements a colour may be given by.
pub open spec fn color_element(name: Seq<char>) -> bool {
    name == "srgbClr"@ || name == "sysClr"@ || name == "schemeClr"@ || name == "prstClr"@ || name
        == "hslClr"@ || name == "scrgbClr"@
}

/// The index of the first colour element at or after `i`.
pub open spec fn first_color_from(children: Seq<Node>, i: int) -> Option<int>
    decreases children.len() - i,
{
    if i < 0 || i >= children.len() {
        None
    } else if color_element(children[i].name@) {
        Some(i)
    } else {
        first_color_from(children, i + 1)
    }
}

/// The colour an element gives before its transforms are applied.
pub enum ColorChoice<'a> {
    /// The first colour element, its base value, and whether it is a
    /// scheme colour other than `phClr` that did not resolve (its value is
    /// then the fallback), which is warned about.
    Base(&'a Node, u32, bool),
    /// A preset, HSL or scRGB colour, which is not read: the fallback, with
    /// a warning.
    Unsupported,
    /// No colour element: the fallback.
    Missing,
}

/// The base colour that the first colour element under `parent` gives: an
/// RGB value (`srgbClr` by `val`, `sysClr` by `lastClr`, falling back when
/// malformed) or a mapped scheme colour.
pub open spec fn color_choice_spec<'a>(theme: Theme, parent: Node, fallback: u32) -> ColorChoice<'a> {
    match first_color_from(parent.children@, 0) {
        None => ColorChoice::Missing,
        Some(i) => {
            let node = parent.children@[i];
            let n = node.name@;
            if n == "srgbClr"@ {
                ColorChoice::Base(&node, color_spec(utf8(attr_spec(node, "val"@)), fallback), false)
            } else if n == "sysClr"@ {
                ColorChoice::Base(
                    &node,
                    color_spec(utf8(attr_spec(node, "lastClr"@)), fallback),
                    false,
                )
            } else if n == "schemeClr"@ {
                match resolve_spec(theme.colors@, theme.mapping@, attr_spec(node, "val"@)) {
                    Some(v) => ColorChoice::Base(&node, v, false),
                    None => ColorChoice::Base(&node, fallback, attr_spec(node, "val"@) != "phClr"@),
                }
            } else {
                ColorChoice::Unsupported
            }
        },
    }
}

impl Theme {
    /// The base colour of the first colour element under `parent`.
    pub fn color_choice<'a>(&self, parent: &'a Node, fallback: u32) -> (r: ColorChoice<'a>)
        ensures
            r == color_choice_spec(*self, *parent, fallback),
    {
        let mut i: usize = 0;
        while i < parent.children.len()
            invariant
                i <= parent.children@.len(),
                first_color_from(parent.children@, 0) == first_color_from(parent.children@, i as int),
            decreases parent.children.len() - i,
        {
            let node = &parent.children[i];
            let n = node.name.as_str();
            if str_eq(n, "srgbClr") {
                return ColorChoice::Base(node, color(node.attr("val"), fallback), false);
            } else if str_eq(n, "sysClr") {
                return ColorChoice::Base(node, color(node.attr("lastClr"), fallback), false);
            } else if str_eq(n, "schemeClr") {
                let key = node.attr("val");
                return match self.resolve(key) {
                    Some(v) => ColorChoice::Base(node, v, false),
                    None => ColorChoice::Base(node, fallback, !str_eq(key, "phClr")),
                };
            } else if str_eq(n, "prstClr") || str_eq(n, "hslClr") || str_eq(n, "scrgbClr") {
                return ColorChoice::Unsupported;
            }
            i = i + 1;
        }
        ColorChoice::Missing
    }
}

/// Where a shape's fill colour comes from.
pub enum Fill<'a> {
    /// `noFill`: transparent.
    Clear,
    /// `solidFill`: the colour it holds.
    Solid(&'a Node),
    /// A gradient, pattern, picture or group fill, which is not drawn: the
    /// fallback, with a warning.
    Unsupported,
    /// No fill given: the fallback.
    Inherited,
}

/// The fill kinds that are not drawn.
pub open spec fn unsupported_fill(properties: Node) -> bool {
    child_spec(properties, "gradFill"@) is Some || child_spec(properties, "pattFill"@) is Some
        || child_spec(properties, "blipFill"@) is Some || child_spec(properties, "grpFill"@) is Some
}

/// The fill that shape properties select: `noFill` first, then
/// `solidFill`, then the fills that are not drawn.
pub open spec fn fill_spec<'a>(properties: Node) -> Fill<'a> {
    if child_spec(properties, "noFill"@) is Some {
        Fill::Clear
    } else if child_spec(properties, "solidFill"@) is Some {
        Fill::Solid(&child_spec(properties, "solidFill"@).unwrap())
    } else if unsupported_fill(properties) {
        Fill::Unsupported
    } else {
        Fill::Inherited
    }
}

/// The fill that shape properties select.
pub fn fill(properties: &Node) -> (r: Fill<'_>)
    ensures
        r == fill_spec(*properties),
{
    if properties.child("noFill").is_some() {
        return Fill::Clear;
    }
    if let Some(solid) = properties.child("solidFill") {
        return Fill::Solid(solid);
    }
    if properties.child("gradFill").is_some() || properties.child("pattFill").is_some()
        || properties.child("blipFill").is_some() || properties.child("grpFill").is_some() {
        Fill::Unsupported
    } else {
        Fill::Inherited
    }
}

/// Where the colour of text comes from.
pub enum TextFill<'a> {
    /// A plain fill, read as a shape fill: no fill, a solid fill, or
    /// anything but a gradient.
    Plain,
    /// A gradient, shown as the colour at its midpoint: the stops nearest
    /// to it at or before and at or after it (position and stop).
    Gradient(Option<(u32, &'a Node)>, Option<(u32, &'a Node)>),
}

/// The gradient stops at or before and at or after the midpoint (50000)
/// among the first `n` stops: each stop with a position (a `u32` of at most
/// 100000) replaces the one before the midpoint when it is not further from
/// it, and likewise after.
pub open spec fn midpoint_stops(stops: Seq<Node>, n: int) -> (Option<(u32, Node)>, Option<(u32, Node)>)
    decreases n,
{
    if n <= 0 || n > stops.len() {
        (None, None)
    } else {
        let (b, a) = midpoint_stops(stops, n - 1);
        let s = stops[n - 1];
        match super::numbering::parse_u32_spec(utf8(attr_spec(s, "pos"@))) {
            None => (b, a),
            Some(p) => if p > 100_000 {
                (b, a)
            } else {
                (
                    if p <= 50_000 && (b is None || p >= b->Some_0.0) {
                        Some((p, s))
                    } else {
                        b
                    },
                    if p >= 50_000 && (a is None || p <= a->Some_0.0) {
                        Some((p, s))
                    } else {
                        a
                    },
                )
            },
        }
    }
}

/// The position of a gradient stop, when it has a usable one.
pub open spec fn stop_position(stop: Node) -> Option<u32> {
    match super::numbering::parse_u32_spec(utf8(attr_spec(stop, "pos"@))) {
        Some(p) => if p <= 100_000 {
            Some(p)
        } else {
            None
        },
        None => None,
    }
}

/// A stop with a usable position at or below the midpoint.
pub open spec fn at_or_below(stop: Node) -> bool {
    stop_position(stop) matches Some(q) && q <= 50_000
}

/// A stop with a usable position at or above the midpoint.
pub open spec fn at_or_above(stop: Node) -> bool {
    stop_position(stop) matches Some(q) && q >= 50_000
}

/// Gradient text takes its colour from the stops nearest the midpoint:
/// the stop chosen before it has the greatest usable position at or below
/// 50000 (the last such stop on a tie), the one after it the least usable
/// position at or above 50000, and a side is empty only when no stop lies
/// there.
pub proof fn law_midpoint_stops_are_nearest(stops: Seq<Node>, n: int)
    requires
        0 <= n <= stops.len(),
    ensures
        ({
            let (b, a) = midpoint_stops(stops, n);
            &&& match b {
                Some((p, s)) => {
                    &&& p <= 50_000
                    &&& exists|k: int| 0 <= k < n && stops[k] == s && stop_position(s) == Some(p)
                    &&& forall|j: int| #![trigger stops[j]]
                        0 <= j < n && at_or_below(stops[j]) ==> stop_position(stops[j])->Some_0 <= p
                },
                None => forall|j: int| #![trigger stops[j]] 0 <= j < n ==> !at_or_below(stops[j]),
            }
            &&& match a {
                Some((p, s)) => {
                    &&& p >= 50_000
                    &&& exists|k: int| 0 <= k < n && stops[k] == s && stop_position(s) == Some(p)
                    &&& forall|j: int| #![trigger stops[j]]
                        0 <= j < n && at_or_above(stops[j]) ==> stop_position(stops[j])->Some_0 >= p
                },
                None => forall|j: int| #![trigger stops[j]] 0 <= j < n ==> !at_or_above(stops[j]),
            }
        }),
    decreases n,
{
    if n > 0 {
        law_midpoint_stops_are_nearest(stops, n - 1);
        let (b, a) = midpoint_stops(stops, n - 1);
        let s = stops[n - 1];
        match stop_position(s) {
            None => {},
            Some(p) => {
                match b {
                    Some((q, t)) => {
                        let k = choose|k: int| 0 <= k < n - 1 && stops[k] == t && stop_position(t) == Some(q);
                        assert(0 <= k < n && stops[k] == t);
                    },
                    None => {},
                }
                match a {
                    Some((q, t)) => {
                        let k = choose|k: int| 0 <= k < n - 1 && stops[k] == t && stop_position(t) == Some(q);
                        assert(0 <= k < n && stops[k] == t);
                    },
                    None => {},
                }
                assert(stops[n - 1] == s);
            },
        }
    }
}

/// The `gs` stops of a gradient's stop list.
pub open spec fn gradient_stops(gradient: Node) -> Seq<Node> {
    match child_spec(gradient, "gsLst"@) {
        Some(l) => l.children@.filter(|c: Node| c.name@ == "gs"@),
        None => Seq::empty(),
    }
}

/// An optional stop by reference, as a value.
pub open spec fn stop_view(o: Option<(u32, &Node)>) -> Option<(u32, Node)> {
    match o {
        Some((p, n)) => Some((p, *n)),
        None => None,
    }
}

/// Where the colour of text with these properties comes from.
pub fn text_fill(properties: &Node) -> (r: TextFill<'_>)
    ensures
        child_spec(*properties, "noFill"@) is Some || child_spec(*properties, "solidFill"@) is Some
            || child_spec(*properties, "gradFill"@) is None ==> r is Plain,
        child_spec(*properties, "noFill"@) is None && child_spec(*properties, "solidFill"@) is None
            ==> match child_spec(*properties, "gradFill"@) {
            Some(g) => {
                let stops = gradient_stops(g);
                let (b, a) = midpoint_stops(stops, stops.len() as int);
                r matches TextFill::Gradient(before, after) && stop_view(before) == b && stop_view(
                    after,
                ) == a
            },
            None => r is Plain,
        },
{
    if properties.child("noFill").is_some() || properties.child("solidFill").is_some() {
        return TextFill::Plain;
    }
    let gradient = match properties.child("gradFill") {
        Some(g) => g,
        None => return TextFill::Plain,
    };
    let mut before: Option<(u32, &Node)> = None;
    let mut after: Option<(u32, &Node)> = None;
    let ghost all = gradient_stops(*gradient);
    if let Some(list) = gradient.child("gsLst") {
        let stops = list.named("gs");
        assert(stops@.map_values(|c: &Node| *c) == all);
        let mut i: usize = 0;
        while i < stops.len()
            invariant
                i <= stops@.len(),
                stops@.len() == all.len(),
                forall|k: int| 0 <= k < all.len() ==> *stops@[k] == all[k],
                (stop_view(before), stop_view(after)) == midpoint_stops(all, i as int),
            decreases stops.len() - i,
        {
            assert(stops@.map_values(|c: &Node| *c)[i as int] == *stops@[i as int]);
            let stop = stops[i];
            match parse_usize(stop.attr("pos")) {
                Some(v) => if v <= 100_000 {
                    let p = v as u32;
                    let closer_before = match before {
                        Some((q, _)) => p >= q,
                        None => true,
                    };
                    if p <= 50_000 && closer_before {
                        before = Some((p, stop));
                    }
                    let closer_after = match after {
                        Some((q, _)) => p <= q,
                        None => true,
                    };
                    if p >= 50_000 && closer_after {
                        after = Some((p, stop));
                    }
                },
                None => {},
            }
            i = i + 1;
        }
    } else {
        assert(all =~= Seq::<Node>::empty());
    }
    TextFill::Gradient(before, after)
}

/// What a theme fill reference selects from the format scheme.
pub enum FillStyle<'a> {
    /// Index 0 or 1000: transparent, without reading any colour.
    Clear,
    /// A `solidFill` style: its colour, over the reference's own colour.
    Solid(&'a Node),
    /// A `noFill` style: transparent.
    Empty,
    /// A missing style, or one of another kind: the fallback, with a
    /// warning.
    Unsupported,
}

/// The reference's `idx` (0 when it is not a `usize`).
pub open spec fn fill_index(reference: Node) -> usize {
    match parse_usize_spec(utf8(attr_spec(reference, "idx"@))) {
        Some(i) => i,
        None => 0,
    }
}

/// The list (`bgFillStyleLst` from 1001 on, else `fillStyleLst`) and the
/// position in it that a fill index names.
pub open spec fn fill_slot(index: usize) -> (Seq<char>, int) {
    if index >= 1001 {
        ("bgFillStyleLst"@, index - 1001)
    } else {
        ("fillStyleLst"@, index - 1)
    }
}

/// The style that a fill reference names, if it exists.
pub open spec fn referenced_style(theme: Theme, reference: Node) -> Option<Node> {
    let (list, offset) = fill_slot(fill_index(reference));
    match theme.scheme_list(list) {
        Some(l) => if 0 <= offset < l.children@.len() {
            Some(l.children@[offset])
        } else {
            None
        },
        None => None,
    }
}

/// What a fill reference selects.
pub open spec fn fill_style_spec<'a>(theme: Theme, reference: Node) -> FillStyle<'a> {
    let index = fill_index(reference);
    if index == 0 || index == 1000 {
        FillStyle::Clear
    } else {
        match referenced_style(theme, reference) {
            Some(s) => if s.name@ == "solidFill"@ {
                FillStyle::Solid(&s)
            } else if s.name@ == "noFill"@ {
                FillStyle::Empty
            } else {
                FillStyle::Unsupported
            },
            None => FillStyle::Unsupported,
        }
    }
}

impl Theme {
    /// The theme's format-scheme list `name`.
    pub open spec fn scheme_list(self, name: Seq<char>) -> Option<Node> {
        match self.source {
            None => None,
            Some(p) => match child_of(child_of(Some(p.root), "themeElements"@), "fmtScheme"@) {
                None => None,
                Some(scheme) => child_spec(scheme, name),
            },
        }
    }

    /// The style a theme fill reference (`fillRef`, `bgRef`) selects:
    /// indices 0 and 1000 are transparent, 1001 on name background fill
    /// styles and the others fill styles, counted from one.
    pub fn fill_style(&self, reference: &Node) -> (r: FillStyle<'_>)
        ensures
            r == fill_style_spec(*self, *reference),
    {
        let index = match parse_usize(reference.attr("idx")) {
            Some(i) => i,
            None => 0,
        };
        if index == 0 || index == 1000 {
            return FillStyle::Clear;
        }
        let (list, offset) = if index >= 1001 {
            ("bgFillStyleLst", index - 1001)
        } else {
            ("fillStyleLst", index - 1)
        };
        proof {
            reveal_strlit("bgFillStyleLst");
            reveal_strlit("fillStyleLst");
        }
        let style = match self.format_list(list) {
            Some(l) => if offset < l.children.len() {
                Some(&l.children[offset])
            } else {
                None
            },
            None => None,
        };
        match style {
            Some(s) => if crate::text::str_eq(s.name.as_str(), "solidFill") {
                FillStyle::Solid(s)
            } else if crate::text::str_eq(s.name.as_str(), "noFill") {
                FillStyle::Empty
            } else {
                FillStyle::Unsupported
            },
            None => FillStyle::Unsupported,
        }
    }
}

/// The mapping of `k` after the master map, the layout map and the slide
/// map are laid in turn over `base` (later maps win).
pub open spec fn layered(
    base: Option<Seq<char>>,
    master_map: Option<Node>,
    layout_map: Option<Node>,
    slide_map: Option<Node>,
    k: Seq<char>,
) -> Option<Seq<char>> {
    let over = |layer: Option<Node>, below: Option<Seq<char>>|
        match layer {
            Some(n) => match last_value(n.attrs@, k) {
                Some(v) => Some(v),
                None => below,
            },
            None => below,
        };
    over(slide_map, over(layout_map, over(master_map, base)))
}

/// Accent colours repeat every six indices.
pub proof fn law_accent_cycles(index: int)
    requires
        index >= 0,
    ensures
        accent_name(index + 6) == accent_name(index),
        accent_fallback(index + 6) == accent_fallback(index),
{
    assert((index + 6) % 6 == index % 6);
}

/// Accent colour `index` is the scheme colour named `accent` followed by
/// the digit of `index % 6 + 1`.
pub proof fn law_accent_name(index: int)
    ensures
        accent_name(index) == "accent"@ + seq![(49 + index % 6) as char],
{
    reveal_strlit("accent");
    reveal_strlit("accent1");
    reveal_strlit("accent2");
    reveal_strlit("accent3");
    reveal_strlit("accent4");
    reveal_strlit("accent5");
    reveal_strlit("accent6");
    let k = index % 6;
    assert(accent_name(index) =~= "accent"@ + seq![(49 + k) as char]);
}

} // verus!
