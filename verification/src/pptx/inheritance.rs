//! Placeholder inheritance: which layout and master shapes a slide shape
//! takes its defaults from, and which master text style applies.
use crate::text::{starts_with, str_eq, utf8};
use crate::xml::{attr_spec, child_spec, Node};
use vstd::prelude::*;

verus! {

broadcast use vstd::seq::group_seq_axioms;

/// The element name starts with `nv` (the non-visual properties of a shape).
pub open spec fn is_non_visual(name: Seq<char>) -> bool {
    utf8("nv"@).len() <= utf8(name).len() && utf8(name).take(utf8("nv"@).len() as int) == utf8(
        "nv"@,
    )
}

/// Index of the first child whose name starts with `nv`.
pub open spec fn first_non_visual(children: Seq<Node>) -> Option<int>
    decreases children.len(),
{
    if children.len() == 0 {
        None
    } else if is_non_visual(children[0].name@) {
        Some(0)
    } else {
        match first_non_visual(children.drop_first()) {
            Some(i) => Some(i + 1),
            None => None,
        }
    }
}

/// A shape's placeholder element `nv…/nvPr/ph`.
pub open spec fn placeholder_spec(shape: Node) -> Option<Node> {
    match first_non_visual(shape.children@) {
        None => None,
        Some(i) => match child_spec(shape.children@[i], "nvPr"@) {
            None => None,
            Some(pr) => child_spec(pr, "ph"@),
        },
    }
}

proof fn lemma_first_non_visual(children: Seq<Node>, i: int)
    requires
        0 <= i <= children.len(),
        i < children.len() ==> is_non_visual(children[i].name@),
        forall|j: int| 0 <= j < i ==> !is_non_visual(#[trigger] children[j].name@),
    ensures
        first_non_visual(children) == (if i < children.len() {
            Some(i)
        } else {
            None
        }),
    decreases i,
{
    if i > 0 {
        assert forall|j: int| 0 <= j < i - 1 implies !is_non_visual(#[trigger] children.drop_first()[j].name@) by {
            assert(children.drop_first()[j] == children[j + 1]);
        }
        lemma_first_non_visual(children.drop_first(), i - 1);
    }
}

/// A shape's non-visual properties: its first child whose name starts
/// with `nv`.
pub fn non_visual(shape: &Node) -> (r: Option<&Node>)
    ensures
        match first_non_visual(shape.children@) {
            Some(i) => r == Some(&shape.children@[i]),
            None => r is None,
        },
{
    let mut i: usize = 0;
    while i < shape.children.len()
        invariant
            i <= shape.children@.len(),
            forall|j: int| 0 <= j < i ==> !is_non_visual(#[trigger] shape.children@[j].name@),
        decreases shape.children.len() - i,
    {
        if starts_with(shape.children[i].name.as_str(), "nv") {
            proof {
                lemma_first_non_visual(shape.children@, i as int);
            }
            return Some(&shape.children[i]);
        }
        i = i + 1;
    }
    proof {
        lemma_first_non_visual(shape.children@, i as int);
    }
    None
}

/// A shape's placeholder element.
pub fn placeholder(shape: &Node) -> (r: Option<&Node>)
    ensures
        match placeholder_spec(*shape) {
            Some(ph) => r == Some(&ph),
            None => r is None,
        },
{
    match non_visual(shape) {
        Some(nv) => match nv.child("nvPr") {
            Some(pr) => pr.child("ph"),
            None => None,
        },
        None => None,
    }
}

/// A shape marked hidden in its non-visual drawing properties
/// (`nv…/cNvPr/@hidden`).
pub open spec fn hidden_spec(shape: Node) -> bool {
    match first_non_visual(shape.children@) {
        None => false,
        Some(i) => match child_spec(shape.children@[i], "cNvPr"@) {
            None => false,
            Some(c) => super::flag_spec(attr_spec(c, "hidden"@), false),
        },
    }
}

/// Whether a shape is marked hidden.
pub fn is_hidden(shape: &Node) -> (r: bool)
    ensures
        r == hidden_spec(*shape),
{
    match non_visual(shape) {
        Some(nv) => match nv.child("cNvPr") {
            Some(c) => super::flag(c.attr("hidden"), false),
            None => false,
        },
        None => false,
    }
}

/// How a shape tree treats one of its children.
#[derive(Debug, Clone, Copy, PartialEq, Eq, Structural)]
pub enum Entry {
    /// Left out without a word: a placeholder of an inherited layout or
    /// master, a hidden shape, or the tree's own properties.
    Skip,
    /// A group, drawn through its transform.
    Group,
    /// A shape, connector, picture or graphic frame.
    Drawn,
    /// Other content, left out with a warning.
    Unsupported,
}

/// How a shape tree treats `shape` (`inherited` for the trees of a layout
/// or master drawn under a slide).
pub open spec fn entry_spec(shape: Node, inherited: bool) -> Entry {
    let n = shape.name@;
    if inherited && placeholder_spec(shape) is Some {
        Entry::Skip
    } else if hidden_spec(shape) {
        Entry::Skip
    } else if n == "nvGrpSpPr"@ || n == "grpSpPr"@ || n == "extLst"@ {
        Entry::Skip
    } else if n == "grpSp"@ {
        Entry::Group
    } else if n == "sp"@ || n == "cxnSp"@ || n == "pic"@ || n == "graphicFrame"@ {
        Entry::Drawn
    } else {
        Entry::Unsupported
    }
}

/// How a shape tree treats `shape`.
pub fn entry(shape: &Node, inherited: bool) -> (r: Entry)
    ensures
        r == entry_spec(*shape, inherited),
{
    if inherited && placeholder(shape).is_some() {
        return Entry::Skip;
    }
    if is_hidden(shape) {
        return Entry::Skip;
    }
    let n = shape.name.as_str();
    if str_eq(n, "nvGrpSpPr") || str_eq(n, "grpSpPr") || str_eq(n, "extLst") {
        Entry::Skip
    } else if str_eq(n, "grpSp") {
        Entry::Group
    } else if str_eq(n, "sp") || str_eq(n, "cxnSp") || str_eq(n, "pic") || str_eq(
        n,
        "graphicFrame",
    ) {
        Entry::Drawn
    } else {
        Entry::Unsupported
    }
}

/// A part's shape tree `cSld/spTree`.
pub open spec fn tree_spec(root: Node) -> Option<Node> {
    match child_spec(root, "cSld"@) {
        None => None,
        Some(c) => child_spec(c, "spTree"@),
    }
}

pub fn tree(root: &Node) -> (r: Option<&Node>)
    ensures
        match tree_spec(*root) {
            Some(t) => r == Some(&t),
            None => r is None,
        },
{
    match root.child("cSld") {
        Some(c) => c.child("spTree"),
        None => None,
    }
}

/// A placeholder's index, `0` when absent.
pub open spec fn index_spec(ph: Node) -> Seq<char> {
    if attr_spec(ph, "idx"@).len() == 0 {
        "0"@
    } else {
        attr_spec(ph, "idx"@)
    }
}

pub fn index(ph: &Node) -> (r: &str)
    ensures
        r@ == index_spec(*ph),
{
    let idx = ph.attr("idx");
    if idx.as_bytes().len() == 0 {
        proof {
            crate::text::lemma_empty_bytes(idx);
        }
        "0"
    } else {
        proof {
            crate::text::lemma_empty_bytes(idx);
        }
        idx
    }
}

/// A placeholder's type, `obj` when absent.
pub open spec fn kind_of(ph: Node) -> Seq<char> {
    if attr_spec(ph, "type"@).len() == 0 {
        "obj"@
    } else {
        attr_spec(ph, "type"@)
    }
}

/// The candidate a shape inherits from among `candidates`: by type (a
/// `body` candidate standing in for `obj` and `subTitle`, the last such one
/// kept) or by index.
pub open spec fn match_in(
    candidates: Seq<Node>,
    ph: Node,
    kind: Seq<char>,
    by_type: bool,
    fallback: Option<Node>,
) -> Option<Node>
    decreases candidates.len(),
{
    if candidates.len() == 0 {
        fallback
    } else {
        let candidate = candidates[0];
        let rest = candidates.drop_first();
        match placeholder_spec(candidate) {
            None => match_in(rest, ph, kind, by_type, fallback),
            Some(other) => {
                let other_kind = kind_of(other);
                if by_type && kind == other_kind {
                    Some(candidate)
                } else if !by_type && index_spec(ph) == index_spec(other) {
                    Some(candidate)
                } else {
                    match_in(
                        rest,
                        ph,
                        kind,
                        by_type,
                        if by_type && (kind == "obj"@ || kind == "subTitle"@) && other_kind
                            == "body"@ {
                            Some(candidate)
                        } else {
                            fallback
                        },
                    )
                }
            },
        }
    }
}

/// The shape in `root`'s tree that `shape` inherits from (by placeholder
/// type when `by_type`, else by placeholder index).
pub open spec fn matching_spec(root: Node, shape: Node, by_type: bool) -> Option<Node> {
    match placeholder_spec(shape) {
        None => None,
        Some(ph) => match tree_spec(root) {
            None => None,
            Some(candidates) => {
                let kind = if attr_spec(ph, "type"@).len() == 0 {
                    "obj"@
                } else if attr_spec(ph, "type"@) == "ctrTitle"@ && by_type {
                    "title"@
                } else {
                    attr_spec(ph, "type"@)
                };
                match_in(candidates.children@, ph, kind, by_type, None)
            },
        },
    }
}

fn kind_of_exec(ph: &Node) -> (r: &str)
    ensures
        r@ == kind_of(*ph),
{
    let t = ph.attr("type");
    proof {
        crate::text::lemma_empty_bytes(t);
    }
    if t.as_bytes().len() == 0 {
        "obj"
    } else {
        t
    }
}

#[verifier::loop_isolation(false)]
pub fn matching<'a>(root: &'a Node, shape: &Node, by_type: bool) -> (r: Option<&'a Node>)
    ensures
        match matching_spec(*root, *shape, by_type) {
            Some(m) => r == Some(&m),
            None => r is None,
        },
{
    let ph = match placeholder(shape) {
        Some(ph) => ph,
        None => return None,
    };
    let candidates = match tree(root) {
        Some(t) => t,
        None => return None,
    };
    let t = ph.attr("type");
    proof {
        crate::text::lemma_empty_bytes(t);
    }
    let kind: &str = if t.as_bytes().len() == 0 {
        "obj"
    } else if str_eq(t, "ctrTitle") && by_type {
        "title"
    } else {
        t
    };
    let ghost target = match_in(candidates.children@, *ph, kind@, by_type, None);
    let mut fallback: Option<&Node> = None;
    let mut i: usize = 0;
    assert(candidates.children@.skip(0) =~= candidates.children@);
    assert(matching_spec(*root, *shape, by_type) == target);
    while i < candidates.children.len()
        invariant
            i <= candidates.children@.len(),
            target == match_in(
                candidates.children@.skip(i as int),
                *ph,
                kind@,
                by_type,
                match fallback {
                    Some(f) => Some(*f),
                    None => None,
                },
            ),
        decreases candidates.children.len() - i,
    {
        let candidate = &candidates.children[i];
        proof {
            assert(candidates.children@.skip(i as int).drop_first() =~= candidates.children@.skip(i + 1));
            assert(candidates.children@.skip(i as int)[0] == *candidate);
        }
        match placeholder(candidate) {
            None => {},
            Some(other) => {
                let other_kind = kind_of_exec(other);
                if by_type && str_eq(kind, other_kind) {
                    return Some(candidate);
                }
                if !by_type && str_eq(index(ph), index(other)) {
                    return Some(candidate);
                }
                if by_type && (str_eq(kind, "obj") || str_eq(kind, "subTitle")) && str_eq(
                    other_kind,
                    "body",
                ) {
                    fallback = Some(candidate);
                }
            },
        }
        i = i + 1;
    }
    assert(candidates.children@.skip(i as int) =~= Seq::<Node>::empty());
    fallback
}

/// The optional node behind an optional reference.
pub open spec fn opt(o: Option<&Node>) -> Option<Node> {
    match o {
        Some(n) => Some(*n),
        None => None,
    }
}

/// The inheritance chain of a shape: the master shape (matched by type to
/// the layout shape, or to the shape itself), the layout shape (matched by
/// placeholder index), then the shape, each present only when found.
pub open spec fn chain_spec(shape: Node, layout: Option<Node>, master: Option<Node>) -> Seq<Node> {
    let layout_shape = match layout {
        Some(root) => matching_spec(root, shape, false),
        None => None,
    };
    let master_shape = match master {
        Some(root) => matching_spec(
            root,
            match layout_shape {
                Some(l) => l,
                None => shape,
            },
            true,
        ),
        None => None,
    };
    (match master_shape {
        Some(m) => seq![m],
        None => Seq::empty(),
    }) + (match layout_shape {
        Some(l) => seq![l],
        None => Seq::empty(),
    }) + seq![shape]
}

pub fn chain<'a>(shape: &'a Node, layout: Option<&'a Node>, master: Option<&'a Node>) -> (r: Vec<&'a Node>)
    ensures
        r@.map_values(|n: &Node| *n) == chain_spec(*shape, opt(layout), opt(master)),
        r@.len() >= 1,
        *r@.last() == *shape,
{
    let layout_shape = match layout {
        Some(root) => matching(root, shape, false),
        None => None,
    };
    let master_shape = match master {
        Some(root) => matching(
            root,
            match layout_shape {
                Some(l) => l,
                None => shape,
            },
            true,
        ),
        None => None,
    };
    let mut r: Vec<&'a Node> = Vec::new();
    if let Some(m) = master_shape {
        r.push(m);
    }
    if let Some(l) = layout_shape {
        r.push(l);
    }
    r.push(shape);
    assert(r@.map_values(|n: &Node| *n) =~= chain_spec(*shape, opt(layout), opt(master)));
    r
}

/// The master text style a chain uses, looking from the shape outwards:
/// title placeholders use `titleStyle`; body, object and subtitle
/// placeholders `bodyStyle`; other typed placeholders `otherStyle`;
/// untyped placeholders defer outwards and end in `bodyStyle`; shapes
/// without placeholders use `otherStyle`.
pub open spec fn text_style_from(chain: Seq<Node>, found: bool) -> Seq<char>
    decreases chain.len(),
{
    if chain.len() == 0 {
        if found {
            "bodyStyle"@
        } else {
            "otherStyle"@
        }
    } else {
        match placeholder_spec(chain.last()) {
            None => text_style_from(chain.drop_last(), found),
            Some(ph) => {
                let t = attr_spec(ph, "type"@);
                if t == "title"@ || t == "ctrTitle"@ {
                    "titleStyle"@
                } else if t == "body"@ || t == "obj"@ || t == "subTitle"@ {
                    "bodyStyle"@
                } else if t.len() == 0 {
                    text_style_from(chain.drop_last(), true)
                } else {
                    "otherStyle"@
                }
            },
        }
    }
}

/// A title placeholder, centred or not, decides the master text style: when
/// the innermost shape of a chain that has a placeholder (those after it
/// have none) is a `title` or `ctrTitle` placeholder, the chain uses the
/// title style, whatever comes before it.
pub proof fn law_title_placeholders(prefix: Seq<Node>, shape: Node, suffix: Seq<Node>, found: bool)
    requires
        placeholder_spec(shape) matches Some(ph) && (attr_spec(ph, "type"@) == "title"@ || attr_spec(
            ph,
            "type"@,
        ) == "ctrTitle"@),
        forall|k: int| 0 <= k < suffix.len() ==> placeholder_spec(#[trigger] suffix[k]) is None,
    ensures
        text_style_from(prefix.push(shape) + suffix, found) == "titleStyle"@,
    decreases suffix.len(),
{
    let chain = prefix.push(shape) + suffix;
    if suffix.len() == 0 {
        assert(chain =~= prefix.push(shape));
    } else {
        assert(chain.last() == suffix.last());
        assert(chain.drop_last() =~= prefix.push(shape) + suffix.drop_last());
        assert forall|k: int| 0 <= k < suffix.drop_last().len() implies placeholder_spec(
            #[trigger] suffix.drop_last()[k],
        ) is None by {
            assert(suffix.drop_last()[k] == suffix[k]);
        }
        law_title_placeholders(prefix, shape, suffix.drop_last(), found);
    }
}

/// A body placeholder (`body`, `obj` or `subTitle`) as the innermost
/// placeholder of a chain gives the body style, whatever comes before it.
pub proof fn law_body_placeholders(prefix: Seq<Node>, shape: Node, suffix: Seq<Node>, found: bool)
    requires
        placeholder_spec(shape) matches Some(ph) && (attr_spec(ph, "type"@) == "body"@ || attr_spec(
            ph,
            "type"@,
        ) == "obj"@ || attr_spec(ph, "type"@) == "subTitle"@),
        forall|k: int| 0 <= k < suffix.len() ==> placeholder_spec(#[trigger] suffix[k]) is None,
    ensures
        text_style_from(prefix.push(shape) + suffix, found) == "bodyStyle"@,
    decreases suffix.len(),
{
    reveal_strlit("body");
    reveal_strlit("obj");
    reveal_strlit("subTitle");
    reveal_strlit("title");
    reveal_strlit("ctrTitle");
    let chain = prefix.push(shape) + suffix;
    if suffix.len() == 0 {
        assert(chain =~= prefix.push(shape));
        let t = attr_spec(placeholder_spec(shape)->Some_0, "type"@);
        assert(t.len() != 0);
        assert(t != "title"@) by {
            if t.len() == "title"@.len() {
                assert(t[0] != "title"@[0]);
            }
        }
        assert(t != "ctrTitle"@) by {
            if t.len() == "ctrTitle"@.len() {
                assert(t[0] != "ctrTitle"@[0]);
            }
        }
    } else {
        assert(chain.last() == suffix.last());
        assert(chain.drop_last() =~= prefix.push(shape) + suffix.drop_last());
        assert forall|k: int| 0 <= k < suffix.drop_last().len() implies placeholder_spec(
            #[trigger] suffix.drop_last()[k],
        ) is None by {
            assert(suffix.drop_last()[k] == suffix[k]);
        }
        law_body_placeholders(prefix, shape, suffix.drop_last(), found);
    }
}

#[verifier::loop_isolation(false)]
pub fn text_style(chain: &[&Node]) -> (r: &'static str)
    ensures
        r@ == text_style_from(chain@.map_values(|n: &Node| *n), false),
{
    let ghost nodes = chain@.map_values(|n: &Node| *n);
    let mut placeholder_found = false;
    let mut i = chain.len();
    assert(nodes.take(i as int) =~= nodes);
    while i > 0
        invariant
            i <= chain@.len(),
            nodes == chain@.map_values(|n: &Node| *n),
            text_style_from(nodes, false) == text_style_from(nodes.take(i as int), placeholder_found),
        decreases i,
    {
        let shape = chain[i - 1];
        proof {
            assert(nodes.take(i as int).last() == *shape);
            assert(nodes.take(i as int).drop_last() =~= nodes.take(i - 1));
        }
        if let Some(ph) = placeholder(shape) {
            let t = ph.attr("type");
            proof {
                crate::text::lemma_empty_bytes(t);
            }
            if str_eq(t, "title") || str_eq(t, "ctrTitle") {
                return "titleStyle";
            }
            if str_eq(t, "body") || str_eq(t, "obj") || str_eq(t, "subTitle") {
                return "bodyStyle";
            }
            if t.as_bytes().len() != 0 {
                return "otherStyle";
            }
            placeholder_found = true;
        }
        i = i - 1;
    }
    assert(nodes.take(0) =~= Seq::<Node>::empty());
    if placeholder_found {
        "bodyStyle"
    } else {
        "otherStyle"
    }
}

/// The level paragraph-property name `lvl{level+1}pPr`.
pub open spec fn level_name(level: nat) -> Seq<char> {
    "lvl"@ + crate::text::ascii_chars(crate::digits::decimal(level + 1)) + "pPr"@
}

/// Appends a list style's default and level-specific paragraph properties.
pub fn level_defaults<'a>(list: Option<&'a Node>, level: usize, out: &mut Vec<&'a Node>)
    requires
        level < 1000,
    ensures
        final(out)@.map_values(|n: &Node| *n) == old(out)@.map_values(|n: &Node| *n) + match opt(list) {
            None => Seq::empty(),
            Some(l) => (match child_spec(l, "defPPr"@) {
                Some(d) => seq![d],
                None => Seq::empty(),
            }) + (match child_spec(l, level_name(level as nat)) {
                Some(s) => seq![s],
                None => Seq::empty(),
            }),
        },
{
    let ghost before = out@.map_values(|n: &Node| *n);
    if let Some(list) = list {
        if let Some(default) = list.child("defPPr") {
            out.push(default);
        }
        let mut name = String::new();
        name.append("lvl");
        let mut digits: Vec<u8> = Vec::new();
        crate::digits::push_padded(&mut digits, (level + 1) as u64, 1);
        proof {
            crate::xlsx::dates::lemma_padded_one((level + 1) as nat);
        }
        let number = crate::text::ascii_string(&digits);
        name.append(number.as_str());
        name.append("pPr");
        if let Some(specific) = list.child(name.as_str()) {
            out.push(specific);
        }
    }
    assert(out@.map_values(|n: &Node| *n) =~= before + match opt(list) {
        None => Seq::empty(),
        Some(l) => (match child_spec(l, "defPPr"@) {
            Some(d) => seq![d],
            None => Seq::empty(),
        }) + (match child_spec(l, level_name(level as nat)) {
            Some(s) => seq![s],
            None => Seq::empty(),
        }),
    });
}

/// What `level_defaults` appends for a list style.
pub open spec fn level_list(list: Option<Node>, level: nat) -> Seq<Node> {
    match list {
        None => Seq::empty(),
        Some(l) => (match child_spec(l, "defPPr"@) {
            Some(d) => seq![d],
            None => Seq::empty(),
        }) + (match child_spec(l, level_name(level)) {
            Some(s) => seq![s],
            None => Seq::empty(),
        }),
    }
}

/// The properties of the first paragraph (`p`) among `children` whose
/// properties (`pPr`) are at this level.
pub open spec fn first_at_level(children: Seq<Node>, level: usize) -> Option<Node>
    decreases children.len(),
{
    if children.len() == 0 {
        None
    } else if children[0].name@ == "p"@ && (child_spec(children[0], "pPr"@) matches Some(p)
        && crate::pptx::paragraph_level_spec(p) == level) {
        child_spec(children[0], "pPr"@)
    } else {
        first_at_level(children.drop_first(), level)
    }
}

/// The defaults one shape of the chain adds for a paragraph at `level`: its
/// font reference, its text body's list style and, unless the paragraph
/// belongs to this very body, the properties of that body's first paragraph
/// at the level.
pub open spec fn shape_defaults(shape: Node, level: usize, own: bool) -> Seq<Node> {
    (match child_spec(shape, "style"@) {
        Some(st) => match child_spec(st, "fontRef"@) {
            Some(f) => seq![f],
            None => Seq::empty(),
        },
        None => Seq::empty(),
    }) + match child_spec(shape, "txBody"@) {
        None => Seq::empty(),
        Some(b) => level_list(child_spec(b, "lstStyle"@), level as nat) + if own {
            Seq::empty()
        } else {
            match first_at_level(b.children@, level) {
                Some(p) => seq![p],
                None => Seq::empty(),
            }
        },
    }
}

/// `shape_defaults` over a chain in order; `own` is the index of the shape
/// whose text body holds the paragraph.
pub open spec fn chain_defaults(chain: Seq<Node>, level: usize, own: Option<usize>) -> Seq<Node>
    decreases chain.len(),
{
    if chain.len() == 0 {
        Seq::empty()
    } else {
        chain_defaults(chain.drop_last(), level, own) + shape_defaults(
            chain.last(),
            level,
            own == Some((chain.len() - 1) as usize),
        )
    }
}

/// The paragraph property sources, weakest first: the presentation's
/// default list style, the master's text style, each shape of the chain,
/// the body's own list style when there is no chain, and the paragraph's
/// direct properties.
pub open spec fn paragraph_defaults_spec(
    defaults: Option<Node>,
    master_style: Option<Node>,
    chain: Seq<Node>,
    body: Node,
    own: Option<usize>,
    level: usize,
    direct: Option<Node>,
) -> Seq<Node> {
    level_list(defaults, level as nat) + level_list(master_style, level as nat) + chain_defaults(
        chain,
        level,
        own,
    ) + (if chain.len() == 0 {
        level_list(child_spec(body, "lstStyle"@), level as nat)
    } else {
        Seq::empty()
    }) + match direct {
        Some(d) => seq![d],
        None => Seq::empty(),
    }
}

/// The properties of the first paragraph of `body` at this level.
pub fn first_paragraph_at<'a>(body: &'a Node, level: usize) -> (r: Option<&'a Node>)
    ensures
        opt(r) == first_at_level(body.children@, level),
{
    let ghost all = body.children@;
    let mut i: usize = 0;
    assert(all.skip(0) =~= all);
    while i < body.children.len()
        invariant
            i <= all.len(),
            all == body.children@,
            first_at_level(all, level) == first_at_level(all.skip(i as int), level),
        decreases body.children.len() - i,
    {
        let c = &body.children[i];
        assert(all.skip(i as int)[0] == *c);
        assert(all.skip(i as int).drop_first() =~= all.skip(i + 1));
        if str_eq(c.name.as_str(), "p") {
            if let Some(p) = c.child("pPr") {
                if crate::pptx::paragraph_level(p) == level {
                    return Some(p);
                }
            }
        }
        i = i + 1;
    }
    None
}

/// Collects the paragraph property sources (`paragraph_defaults_spec`);
/// `own` is the index of the chain shape whose text body is `body`.
pub fn paragraph_defaults<'a>(
    defaults: Option<&'a Node>,
    master_style: Option<&'a Node>,
    chain: &[&'a Node],
    body: &'a Node,
    own: Option<usize>,
    level: usize,
    direct: Option<&'a Node>,
) -> (r: Vec<&'a Node>)
    requires
        level < 1000,
    ensures
        r@.map_values(|n: &Node| *n) == paragraph_defaults_spec(
            opt(defaults),
            opt(master_style),
            chain@.map_values(|n: &Node| *n),
            *body,
            own,
            level,
            opt(direct),
        ),
{
    let ghost nodes = chain@.map_values(|n: &Node| *n);
    let mut out: Vec<&'a Node> = Vec::new();
    level_defaults(defaults, level, &mut out);
    level_defaults(master_style, level, &mut out);
    let ghost start = out@.map_values(|n: &Node| *n);
    assert(start =~= level_list(opt(defaults), level as nat) + level_list(opt(master_style), level as nat));
    let mut i: usize = 0;
    while i < chain.len()
        invariant
            i <= chain@.len(),
            level < 1000,
            nodes == chain@.map_values(|n: &Node| *n),
            out@.map_values(|n: &Node| *n) == start + chain_defaults(nodes.take(i as int), level, own),
        decreases chain.len() - i,
    {
        let shape = chain[i];
        let ghost before = out@.map_values(|n: &Node| *n);
        proof {
            assert(nodes.take(i + 1).drop_last() =~= nodes.take(i as int));
            assert(nodes.take(i + 1).last() == *shape);
        }
        if let Some(st) = shape.child("style") {
            if let Some(f) = st.child("fontRef") {
                out.push(f);
            }
        }
        let ghost mid = out@.map_values(|n: &Node| *n);
        let ghost font = match child_spec(*shape, "style"@) {
            Some(st) => match child_spec(st, "fontRef"@) {
                Some(f) => seq![f],
                None => Seq::<Node>::empty(),
            },
            None => Seq::<Node>::empty(),
        };
        assert(mid =~= before + font);
        if let Some(b) = shape.child("txBody") {
            let list = b.child("lstStyle");
            assert(opt(list) == child_spec(*b, "lstStyle"@));
            level_defaults(list, level, &mut out);
            let ghost listed = out@.map_values(|n: &Node| *n);
            assert(listed =~= mid + level_list(child_spec(*b, "lstStyle"@), level as nat));
            let mine = match own {
                Some(k) => k == i,
                None => false,
            };
            assert(mine == (own == Some(i)));
            if !mine {
                let first = first_paragraph_at(b, level);
                if let Some(p) = first {
                    out.push(p);
                }
                assert(out@.map_values(|n: &Node| *n) =~= listed + match first_at_level(b.children@, level) {
                    Some(p) => seq![p],
                    None => Seq::<Node>::empty(),
                });
            }
        }
        proof {
            assert(out@.map_values(|n: &Node| *n) =~= before + shape_defaults(*shape, level, own == Some(i)));
            assert(out@.map_values(|n: &Node| *n) =~= start + chain_defaults(nodes.take(i + 1), level, own));
        }
        i = i + 1;
    }
    assert(nodes.take(chain@.len() as int) =~= nodes);
    if chain.len() == 0 {
        level_defaults(body.child("lstStyle"), level, &mut out);
    }
    let ghost before_direct = out@.map_values(|n: &Node| *n);
    if let Some(d) = direct {
        out.push(d);
    }
    assert(out@.map_values(|n: &Node| *n) =~= paragraph_defaults_spec(
        opt(defaults),
        opt(master_style),
        nodes,
        *body,
        own,
        level,
        opt(direct),
    ));
    out
}

} // verus!
