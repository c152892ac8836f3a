//! The parts of a slide paragraph that are read as text: which bullet
//! applies after the inherited properties, and the text of each run.
use crate::text::str_eq;
use crate::xml::Node;
use vstd::prelude::*;
use vstd::string::StringExecFns;

verus! {

broadcast use vstd::seq::group_seq_axioms;

/// A bullet element: none, a character, automatic numbering or a picture.
pub open spec fn is_bullet(name: Seq<char>) -> bool {
    name == "buNone"@ || name == "buChar"@ || name == "buAutoNum"@ || name == "buBlip"@
}

/// The last bullet element among the first `n` children.
pub open spec fn last_bullet(children: Seq<Node>, n: int) -> Option<Node>
    decreases n,
{
    if n <= 0 || n > children.len() {
        None
    } else if is_bullet(children[n - 1].name@) {
        Some(children[n - 1])
    } else {
        last_bullet(children, n - 1)
    }
}

/// The bullet that the first `n` paragraph property elements leave in
/// force: the last bullet element of the last of them that has one (theme
/// font references carry none).
pub open spec fn chosen_bullet(props: Seq<&Node>, n: int) -> Option<Node>
    decreases n,
{
    if n <= 0 || n > props.len() {
        None
    } else {
        let p = *props[n - 1];
        match if p.name@ == "fontRef"@ {
            None
        } else {
            last_bullet(p.children@, p.children@.len() as int)
        } {
            Some(b) => Some(b),
            None => chosen_bullet(props, n - 1),
        }
    }
}

fn bullet_child(node: &Node) -> (r: Option<&Node>)
    ensures
        match last_bullet(node.children@, node.children@.len() as int) {
            Some(b) => r == Some(&b),
            None => r is None,
        },
{
    let mut found: Option<&Node> = None;
    let mut i: usize = 0;
    while i < node.children.len()
        invariant
            i <= node.children@.len(),
            match last_bullet(node.children@, i as int) {
                Some(b) => found == Some(&b),
                None => found is None,
            },
        decreases node.children.len() - i,
    {
        let n = node.children[i].name.as_str();
        if str_eq(n, "buNone") || str_eq(n, "buChar") || str_eq(n, "buAutoNum") || str_eq(
            n,
            "buBlip",
        ) {
            found = Some(&node.children[i]);
        }
        i = i + 1;
    }
    found
}

/// The bullet that a paragraph's property elements, applied in order,
/// leave in force.
pub fn bullet<'a>(props: &[&'a Node]) -> (r: Option<&'a Node>)
    ensures
        match chosen_bullet(props@, props@.len() as int) {
            Some(b) => r == Some(&b),
            None => r is None,
        },
{
    let mut found: Option<&Node> = None;
    let mut i: usize = 0;
    while i < props.len()
        invariant
            i <= props@.len(),
            match chosen_bullet(props@, i as int) {
                Some(b) => found == Some(&b),
                None => found is None,
            },
        decreases props.len() - i,
    {
        let p = props[i];
        if !str_eq(p.name.as_str(), "fontRef") {
            if let Some(b) = bullet_child(p) {
                found = Some(b);
            }
        }
        i = i + 1;
    }
    found
}

/// A paragraph element that holds text: a run, a field or a break.
pub open spec fn is_run_item(name: Seq<char>) -> bool {
    name == "r"@ || name == "fld"@ || name == "br"@
}

/// Whether a paragraph element holds text.
pub fn run_item(node: &Node) -> (r: bool)
    ensures
        r == is_run_item(node.name@),
{
    let n = node.name.as_str();
    str_eq(n, "r") || str_eq(n, "fld") || str_eq(n, "br")
}

/// The texts of the first `n` of some `t` elements, joined.
pub open spec fn joined(ts: Seq<Node>, n: int) -> Seq<char>
    decreases n,
{
    if n <= 0 || n > ts.len() {
        Seq::empty()
    } else {
        joined(ts, n - 1) + ts[n - 1].text@
    }
}

/// The text of a run or field (its `t` elements, joined) or of a break (a
/// line feed).
pub open spec fn run_text_spec(item: Node) -> Seq<char> {
    if item.name@ == "br"@ {
        seq!['\n']
    } else {
        let ts = item.children@.filter(|c: Node| c.name@ == "t"@);
        joined(ts, ts.len() as int)
    }
}

/// The text of a run, field or break.
pub fn run_text(item: &Node) -> (r: String)
    ensures
        r@ == run_text_spec(*item),
{
    let mut text = String::new();
    if str_eq(item.name.as_str(), "br") {
        crate::text::push_char(&mut text, '\n');
        assert(text@ =~= seq!['\n']);
        return text;
    }
    let ts = item.named("t");
    let ghost all = item.children@.filter(|c: Node| c.name@ == "t"@);
    assert(ts@.map_values(|c: &Node| *c) == all);
    let mut i: usize = 0;
    while i < ts.len()
        invariant
            i <= ts@.len(),
            ts@.len() == all.len(),
            forall|k: int| 0 <= k < all.len() ==> *ts@[k] == all[k],
            text@ == joined(all, i as int),
        decreases ts.len() - i,
    {
        assert(ts@.map_values(|c: &Node| *c)[i as int] == *ts@[i as int]);
        text.append(ts[i].text.as_str());
        i = i + 1;
    }
    text
}

/// A run's underline after its `u` attribute over `current`, and whether
/// the style asked for is drawn as a single underline instead.
pub open spec fn underline_spec(value: Seq<char>, current: bool) -> (bool, bool) {
    if value == ""@ {
        (current, false)
    } else if value == "none"@ || value == "0"@ || value == "false"@ {
        (false, false)
    } else if value == "sng"@ {
        (true, false)
    } else {
        (true, true)
    }
}

/// A run's underline after its `u` attribute over `current`.
pub fn underline(value: &str, current: bool) -> (r: (bool, bool))
    ensures
        r == underline_spec(value@, current),
{
    if str_eq(value, "") {
        (current, false)
    } else if str_eq(value, "none") || str_eq(value, "0") || str_eq(value, "false") {
        (false, false)
    } else if str_eq(value, "sng") {
        (true, false)
    } else {
        (true, true)
    }
}

/// A paragraph's alignment (0 left, 1 centre, 2 right) after its `algn`
/// over `current`, and whether it asked for justification, which is shown
/// left aligned.
pub open spec fn alignment_spec(value: Seq<char>, current: u8) -> (u8, bool) {
    if value == ""@ {
        (current, false)
    } else if value == "l"@ {
        (0, false)
    } else if value == "ctr"@ {
        (1, false)
    } else if value == "r"@ {
        (2, false)
    } else {
        (0, true)
    }
}

/// A paragraph's alignment after its `algn` over `current`.
pub fn alignment(value: &str, current: u8) -> (r: (u8, bool))
    ensures
        r == alignment_spec(value@, current),
{
    if str_eq(value, "") {
        (current, false)
    } else if str_eq(value, "l") {
        (0, false)
    } else if str_eq(value, "ctr") {
        (1, false)
    } else if str_eq(value, "r") {
        (2, false)
    } else {
        (0, true)
    }
}

} // verus!
