//! Cached chart data: the value lists stored with a chart's series and the
//! text of titles and series names.
use crate::digits::{all_digits, int_of};
use crate::text::{str_eq, utf8};
use crate::xml::{attr_spec, child_spec, Node};
use vstd::prelude::*;
use vstd::string::StringSliceAdditionalSpecFns;

verus! {

broadcast use vstd::seq::group_seq_axioms;

/// The `val` attribute of child `name`, empty when absent.
pub open spec fn value_spec(node: Node, name: Seq<char>) -> Seq<char> {
    match child_spec(node, name) {
        Some(c) => attr_spec(c, "val"@),
        None => Seq::empty(),
    }
}

pub fn value<'a>(node: &'a Node, name: &str) -> (r: &'a str)
    ensures
        r@ == value_spec(*node, name@),
{
    match node.child(name) {
        Some(c) => c.attr("val"),
        None => {
            proof {
                reveal_strlit("");
            }
            ""
        },
    }
}

/// `str::parse::<usize>`: an optional `+` and a non-empty run of digits
/// whose value fits in `usize`.
pub open spec fn parse_usize_spec(b: Seq<u8>) -> Option<usize> {
    let body = if b.len() > 0 && b[0] == 43 {
        b.drop_first()
    } else {
        b
    };
    if body.len() == 0 || !all_digits(body) || int_of(body) > usize::MAX {
        None
    } else {
        Some(int_of(body) as usize)
    }
}

pub fn parse_usize(s: &str) -> (r: Option<usize>)
    ensures
        r == parse_usize_spec(s.spec_bytes()),
{
    let b = s.as_bytes();
    let start: usize = if b.len() > 0 && b[0] == 43 {
        1
    } else {
        0
    };
    let body = crate::xlsx::decimal::slice_copy(b, start, b.len());
    assert(body@ =~= (if b@.len() > 0 && b@[0] == 43 {
        b@.drop_first()
    } else {
        b@
    }));
    if body.len() == 0 || !crate::xlsx::decimal::all_digits_exec(&body) {
        return None;
    }
    let v = crate::xlsx::decimal::digits_value_capped(&body, 18_446_744_073_709_551_616);
    if v > 18_446_744_073_709_551_615 || v > usize::MAX as u128 {
        None
    } else {
        Some(v as usize)
    }
}

/// The node holding a cached or literal value list: the cache of the first
/// of `numRef`/`strRef`, else a `numLit` or `strLit` child.
pub open spec fn cache_node(parent: Node) -> Option<Node> {
    let reference = match child_spec(parent, "numRef"@) {
        Some(n) => Some(n),
        None => child_spec(parent, "strRef"@),
    };
    let cached = match reference {
        Some(n) => match child_spec(n, "numCache"@) {
            Some(c) => Some(c),
            None => child_spec(n, "strCache"@),
        },
        None => None,
    };
    match cached {
        Some(c) => Some(c),
        None => match child_spec(parent, "numLit"@) {
            Some(l) => Some(l),
            None => child_spec(parent, "strLit"@),
        },
    }
}

/// Fills value slots from `pt` elements: each names a free slot in range
/// by `idx` and holds a `v` child.
pub open spec fn fill_points(points: Seq<Option<Seq<char>>>, pts: Seq<Node>) -> Option<Seq<Option<Seq<char>>>>
    decreases pts.len(),
{
    if pts.len() == 0 {
        Some(points)
    } else {
        let pt = pts[0];
        match parse_usize_spec(utf8(attr_spec(pt, "idx"@))) {
            None => None,
            Some(i) => if i >= points.len() || points[i as int] is Some {
                None
            } else {
                match child_spec(pt, "v"@) {
                    None => None,
                    Some(v) => fill_points(points.update(i as int, Some(v.text@)), pts.drop_first()),
                }
            },
        }
    }
}

/// A chart value list: `ptCount` slots (1..=2048), filled by its points.
pub open spec fn cache_spec(parent: Node) -> Option<Seq<Option<Seq<char>>>> {
    match cache_node(parent) {
        None => None,
        Some(node) => match parse_usize_spec(utf8(value_spec(node, "ptCount"@))) {
            None => None,
            Some(count) => if count == 0 || count > 2048 {
                None
            } else {
                fill_points(
                    Seq::new(count as nat, |i: int| None),
                    node.children@.filter(|c: Node| c.name@ == "pt"@),
                )
            },
        },
    }
}

/// The characters of optional string slices.
pub open spec fn chars_of(values: Seq<Option<&str>>) -> Seq<Option<Seq<char>>> {
    values.map_values(|v: Option<&str>| match v {
        Some(s) => Some(s@),
        None => None,
    })
}

fn cache_node_exec(parent: &Node) -> (r: Option<&Node>)
    ensures
        match cache_node(*parent) {
            Some(n) => r == Some(&n),
            None => r is None,
        },
{
    let reference = match parent.child("numRef") {
        Some(n) => Some(n),
        None => parent.child("strRef"),
    };
    let cached = match reference {
        Some(n) => match n.child("numCache") {
            Some(c) => Some(c),
            None => n.child("strCache"),
        },
        None => None,
    };
    match cached {
        Some(c) => Some(c),
        None => match parent.child("numLit") {
            Some(l) => Some(l),
            None => parent.child("strLit"),
        },
    }
}

/// A chart value list (see `cache_spec`).
pub fn cache(parent: &Node) -> (r: Option<Vec<Option<&str>>>)
    ensures
        match cache_spec(*parent) {
            Some(values) => r is Some && chars_of(r->Some_0@) == values,
            None => r is None,
        },
{
    let node = match cache_node_exec(parent) {
        Some(n) => n,
        None => return None,
    };
    let count = match parse_usize(value(node, "ptCount")) {
        Some(c) => c,
        None => return None,
    };
    if count == 0 || count > 2048 {
        return None;
    }
    let mut points: Vec<Option<&str>> = Vec::new();
    let mut k: usize = 0;
    while k < count
        invariant
            k <= count,
            points@.len() == k,
            forall|j: int| 0 <= j < k ==> points@[j] is None,
        decreases count - k,
    {
        points.push(None);
        k = k + 1;
    }
    assert(chars_of(points@) =~= Seq::new(count as nat, |i: int| None::<Seq<char>>));
    let pts = node.named("pt");
    let ghost all = pts@.map_values(|c: &Node| *c);
    let ghost target = fill_points(chars_of(points@), all);
    let mut i: usize = 0;
    assert(all.skip(0) =~= all);
    while i < pts.len()
        invariant
            i <= pts@.len(),
            all == pts@.map_values(|c: &Node| *c),
            cache_spec(*parent) == target,
            points@.len() == count,
            target == fill_points(chars_of(points@), all.skip(i as int)),
        decreases pts.len() - i,
    {
        let pt = pts[i];
        proof {
            assert(all.skip(i as int)[0] == *pt);
            assert(all.skip(i as int).drop_first() =~= all.skip(i + 1));
        }
        let index = match parse_usize(pt.attr("idx")) {
            Some(v) => v,
            None => return None,
        };
        if index >= points.len() || points[index].is_some() {
            return None;
        }
        let v = match pt.child("v") {
            Some(v) => v,
            None => return None,
        };
        let ghost before = chars_of(points@);
        points.set(index, Some(v.text.as_str()));
        proof {
            assert(chars_of(points@) =~= before.update(index as int, Some(v.text@)));
        }
        i = i + 1;
    }
    assert(all.skip(i as int) =~= Seq::<Node>::empty());
    Some(points)
}

proof fn lemma_join_absent(values: Seq<Option<Seq<char>>>)
    requires
        !has_present(values),
    ensures
        join_present(values) == Seq::<char>::empty(),
    decreases values.len(),
{
    if values.len() > 0 {
        assert(values.last() is None) by {
            if values.last() is Some {
                assert(values[values.len() - 1] is Some);
            }
        }
        assert(!has_present(values.drop_last())) by {
            if has_present(values.drop_last()) {
                let k = choose|k: int| 0 <= k < values.drop_last().len() && (#[trigger] values.drop_last()[k]) is Some;
                assert(values[k] is Some);
            }
        }
        lemma_join_absent(values.drop_last());
    }
}

/// The present values joined with single spaces.
pub open spec fn join_present(values: Seq<Option<Seq<char>>>) -> Seq<char>
    decreases values.len(),
{
    if values.len() == 0 {
        Seq::empty()
    } else {
        let head = join_present(values.drop_last());
        match values.last() {
            None => head,
            Some(v) => if head.len() == 0 && !has_present(values.drop_last()) {
                v
            } else {
                head + " "@ + v
            },
        }
    }
}

/// Some value is present.
pub open spec fn has_present(values: Seq<Option<Seq<char>>>) -> bool {
    exists|i: int| 0 <= i < values.len() && values[i] is Some
}

/// The text of `t` elements in a pre-order walk of the tree.
pub open spec fn t_text(node: Node) -> Seq<char>
    decreases node, 1int,
{
    (if node.name@ == "t"@ {
        node.text@
    } else {
        Seq::empty()
    }) + t_text_from(node, 0)
}

/// `t_text` of the children from index `i` on, concatenated.
pub open spec fn t_text_from(node: Node, i: int) -> Seq<char>
    decreases node, 0int, node.children@.len() - i,
{
    if i < 0 || i >= node.children@.len() {
        Seq::empty()
    } else {
        proof {
            assert(decreases_to!(node => node.children));
            assert(decreases_to!(node.children => node.children@));
            assert(decreases_to!(node.children@ => node.children@[i]));
        }
        t_text(node.children@[i]) + t_text_from(node, i + 1)
    }
}

/// The text of a chart title or series name: its cached values joined by
/// spaces, else a `v` child's text, else the text of its `t` elements.
pub open spec fn text_spec(node: Node) -> Seq<char> {
    match cache_spec(node) {
        Some(values) => join_present(values),
        None => match child_spec(node, "v"@) {
            Some(v) => v.text@,
            None => t_text(node),
        },
    }
}

fn append_t_text(node: &Node, result: &mut String)
    ensures
        final(result)@ == old(result)@ + t_text(*node),
    decreases *node, 1int,
{
    if str_eq(node.name.as_str(), "t") {
        result.append(node.text.as_str());
    }
    let ghost mid = result@;
    append_t_text_from(node, 0, result);
    assert(result@ =~= old(result)@ + t_text(*node));
}

fn append_t_text_from(node: &Node, start: usize, result: &mut String)
    requires
        start <= node.children@.len(),
    ensures
        final(result)@ == old(result)@ + t_text_from(*node, start as int),
    decreases *node, 0int, node.children@.len() - start,
{
    if start >= node.children.len() {
        assert(old(result)@ + t_text_from(*node, start as int) =~= old(result)@);
        return;
    }
    proof {
        assert(decreases_to!(*node => node.children));
        assert(decreases_to!(node.children => node.children@));
        assert(decreases_to!(node.children@ => node.children@[start as int]));
    }
    append_t_text(&node.children[start], result);
    append_t_text_from(node, start + 1, result);
    assert(result@ =~= old(result)@ + t_text_from(*node, start as int));
}

/// The text of a chart title or series name (see `text_spec`).
pub fn text(node: &Node) -> (r: String)
    ensures
        r@ == text_spec(*node),
{
    if let Some(values) = cache(node) {
        let ghost vals = chars_of(values@);
        let mut result = String::new();
        let mut any = false;
        let mut i: usize = 0;
        while i < values.len()
            invariant
                i <= values@.len(),
                vals == chars_of(values@),
                result@ == join_present(vals.take(i as int)),
                any == has_present(vals.take(i as int)),
            decreases values.len() - i,
        {
            proof {
                assert(vals.take(i + 1).drop_last() =~= vals.take(i as int));
                assert(vals.take(i + 1).last() == vals[i as int]);
            }
            if let Some(v) = values[i] {
                if any {
                    result.append(" ");
                }
                result.append(v);
                proof {
                    reveal_strlit(" ");
                    assert(vals.take(i + 1)[i as int] is Some);
                    if !any {
                        lemma_join_absent(vals.take(i as int));
                        assert(result@ =~= join_present(vals.take(i + 1)));
                    } else {
                        let k = choose|k: int| 0 <= k < i && (#[trigger] vals.take(i as int)[k]) is Some;
                        assert(vals.take(i + 1)[k] is Some);
                    }
                }
                any = true;
            } else {
                proof {
                    if has_present(vals.take(i + 1)) {
                        let k = choose|k: int| 0 <= k < i + 1 && (#[trigger] vals.take(i + 1)[k]) is Some;
                        assert(vals.take(i as int)[k] is Some);
                    }
                }
            }
            i = i + 1;
        }
        assert(vals.take(i as int) =~= vals);
        return result;
    }
    if let Some(v) = node.child("v") {
        return v.text.clone();
    }
    let mut result = String::new();
    append_t_text(node, &mut result);
    result
}

} // verus!
