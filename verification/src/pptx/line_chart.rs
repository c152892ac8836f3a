//! The shape of a chart part that is drawn as a line chart: one standard
//! `lineChart` with a category or date axis and a value axis, and at most
//! eight series whose cached value lists hold at most 4096 slots together.
use super::chart_data::{cache, cache_spec, chars_of, value, value_spec};
use crate::text::{ends_with, str_eq, utf8};
use crate::xml::{attr_spec, child_spec, Node};
use vstd::prelude::*;

verus! {

broadcast use vstd::seq::group_seq_axioms;

/// Series a line chart may have.
pub const MAX_SERIES: usize = 8;

/// Value slots all series of a chart may hold together.
pub const MAX_SLOTS: usize = 4096;

/// How a line chart draws missing values.
#[derive(Debug, Clone, Copy, PartialEq, Eq, Structural)]
pub enum Blanks {
    /// A break in the line.
    Gap,
    /// Zero.
    Zero,
    /// A line across the missing value.
    Span,
}

/// The parts of a line chart.
pub struct LineChart<'a> {
    /// The `chart` element.
    pub chart: &'a Node,
    /// Its `plotArea`.
    pub plot: &'a Node,
    /// The `lineChart` element.
    pub lines: &'a Node,
    /// The category or date axis.
    pub x_axis: &'a Node,
    /// The value axis.
    pub y_axis: &'a Node,
    pub blanks: Blanks,
}

/// A name that ends with `suffix` (compared on their UTF-8 encodings).
pub open spec fn has_suffix(name: Seq<char>, suffix: Seq<char>) -> bool {
    utf8(suffix).len() <= utf8(name).len() && utf8(name).skip(utf8(name).len() - utf8(suffix).len())
        == utf8(suffix)
}

/// The children whose names end with `suffix`, in order.
pub open spec fn suffixed(parent: Node, suffix: Seq<char>) -> Seq<Node> {
    parent.children@.filter(|n: Node| has_suffix(n.name@, suffix))
}

/// The children whose names end with `suffix`, in order.
pub fn with_suffix<'a>(parent: &'a Node, suffix: &str) -> (r: Vec<&'a Node>)
    ensures
        r@.map_values(|c: &Node| *c) == suffixed(*parent, suffix@),
{
    let mut r: Vec<&Node> = Vec::new();
    let mut i: usize = 0;
    while i < parent.children.len()
        invariant
            i <= parent.children@.len(),
            r@.map_values(|c: &Node| *c) == parent.children@.take(i as int).filter(
                |n: Node| has_suffix(n.name@, suffix@),
            ),
        decreases parent.children.len() - i,
    {
        proof {
            reveal_with_fuel(Seq::<Node>::filter, 1);
            assert(parent.children@.take(i + 1).drop_last() =~= parent.children@.take(i as int));
        }
        if ends_with(parent.children[i].name.as_str(), suffix) {
            r.push(&parent.children[i]);
        }
        proof {
            assert(r@.map_values(|c: &Node| *c) =~= parent.children@.take(i + 1).filter(
                |n: Node| has_suffix(n.name@, suffix@),
            ));
        }
        i = i + 1;
    }
    assert(parent.children@.take(i as int) =~= parent.children@);
    r
}

/// A category or date axis.
pub open spec fn is_x_axis(axis: Node) -> bool {
    axis.name@ == "catAx"@ || axis.name@ == "dateAx"@
}

/// The first category or date axis of two.
pub open spec fn x_axis_of(axes: Seq<Node>) -> Option<Node> {
    if is_x_axis(axes[0]) {
        Some(axes[0])
    } else if is_x_axis(axes[1]) {
        Some(axes[1])
    } else {
        None
    }
}

/// The first value axis of two.
pub open spec fn y_axis_of(axes: Seq<Node>) -> Option<Node> {
    if axes[0].name@ == "valAx"@ {
        Some(axes[0])
    } else if axes[1].name@ == "valAx"@ {
        Some(axes[1])
    } else {
        None
    }
}

/// An axis the line chart refers to by a non-empty `axId`, with a linear
/// scale and no display units.
pub open spec fn axis_usable(axis: Node, lines: Node) -> bool {
    let id = value_spec(axis, "axId"@);
    &&& id.len() > 0
    &&& exists|k: int|
        0 <= k < lines.children@.len() && lines.children@[k].name@ == "axId"@ && attr_spec(
            #[trigger] lines.children@[k],
            "val"@,
        ) == id
    &&& !(match child_spec(axis, "scaling"@) {
        Some(s) => child_spec(s, "logBase"@) is Some,
        None => false,
    })
    &&& child_spec(axis, "dispUnits"@) is None
}

/// The blank mode a chart names: empty or `gap`, `zero` or `span`.
pub open spec fn blanks_spec(chart: Node) -> Option<Blanks> {
    let b = value_spec(chart, "dispBlanksAs"@);
    if b == ""@ || b == "gap"@ {
        Some(Blanks::Gap)
    } else if b == "zero"@ {
        Some(Blanks::Zero)
    } else if b == "span"@ {
        Some(Blanks::Span)
    } else {
        None
    }
}

/// The line chart a chart part's root describes: a `chartSpace` whose
/// `chart` has a `plotArea` with exactly one chart, a `lineChart` with
/// standard grouping, and exactly two axes, a category or date axis and a
/// value axis, both usable; the blank mode must be known.
pub open spec fn line_chart_spec<'a>(root: Node) -> Option<LineChart<'a>> {
    if root.name@ != "chartSpace"@ {
        None
    } else {
        match child_spec(root, "chart"@) {
            None => None,
            Some(chart) => match child_spec(chart, "plotArea"@) {
                None => None,
                Some(plot) => {
                    let charts = suffixed(plot, "Chart"@);
                    let axes = suffixed(plot, "Ax"@);
                    if charts.len() != 1 || charts[0].name@ != "lineChart"@ {
                        None
                    } else if !(value_spec(charts[0], "grouping"@) == ""@ || value_spec(
                        charts[0],
                        "grouping"@,
                    ) == "standard"@) {
                        None
                    } else if axes.len() != 2 {
                        None
                    } else {
                        match (x_axis_of(axes), y_axis_of(axes), blanks_spec(chart)) {
                            (Some(x), Some(y), Some(b)) => if axis_usable(axes[0], charts[0])
                                && axis_usable(axes[1], charts[0]) {
                                Some(
                                    LineChart {
                                        chart: &chart,
                                        plot: &plot,
                                        lines: &charts[0],
                                        x_axis: &x,
                                        y_axis: &y,
                                        blanks: b,
                                    },
                                )
                            } else {
                                None
                            },
                            _ => None,
                        }
                    }
                },
            },
        }
    }
}

fn is_x(axis: &Node) -> (r: bool)
    ensures
        r == is_x_axis(*axis),
{
    str_eq(axis.name.as_str(), "catAx") || str_eq(axis.name.as_str(), "dateAx")
}

fn usable(axis: &Node, lines: &Node) -> (r: bool)
    ensures
        r == axis_usable(*axis, *lines),
{
    let id = value(axis, "axId");
    if id.as_bytes().len() == 0 {
        proof {
            crate::text::lemma_empty_bytes(id);
        }
        return false;
    }
    proof {
        crate::text::lemma_empty_bytes(id);
    }
    let mut found = false;
    let mut k: usize = 0;
    while k < lines.children.len()
        invariant
            k <= lines.children@.len(),
            found <==> exists|j: int|
                0 <= j < k && lines.children@[j].name@ == "axId"@ && attr_spec(
                    #[trigger] lines.children@[j],
                    "val"@,
                ) == id@,
        decreases lines.children.len() - k,
    {
        let c = &lines.children[k];
        if str_eq(c.name.as_str(), "axId") && str_eq(c.attr("val"), id) {
            found = true;
        }
        k = k + 1;
    }
    if !found {
        return false;
    }
    let logarithmic = match axis.child("scaling") {
        Some(s) => s.child("logBase").is_some(),
        None => false,
    };
    !logarithmic && axis.child("dispUnits").is_none()
}

fn blanks(chart: &Node) -> (r: Option<Blanks>)
    ensures
        r == blanks_spec(*chart),
{
    let b = value(chart, "dispBlanksAs");
    if str_eq(b, "") || str_eq(b, "gap") {
        Some(Blanks::Gap)
    } else if str_eq(b, "zero") {
        Some(Blanks::Zero)
    } else if str_eq(b, "span") {
        Some(Blanks::Span)
    } else {
        None
    }
}

/// The line chart a chart part describes, or `None` for any other chart.
pub fn line_chart(root: &Node) -> (r: Option<LineChart<'_>>)
    ensures
        r == line_chart_spec(*root),
{
    if !str_eq(root.name.as_str(), "chartSpace") {
        return None;
    }
    let chart = match root.child("chart") {
        Some(c) => c,
        None => return None,
    };
    let plot = match chart.child("plotArea") {
        Some(p) => p,
        None => return None,
    };
    let charts = with_suffix(plot, "Chart");
    let axes = with_suffix(plot, "Ax");
    proof {
        reveal_strlit("Chart");
        reveal_strlit("Ax");
    }
    let ghost cs = suffixed(*plot, "Chart"@);
    let ghost xs = suffixed(*plot, "Ax"@);
    assert(charts@.len() == cs.len());
    assert(axes@.len() == xs.len());
    if charts.len() != 1 {
        return None;
    }
    let lines = charts[0];
    assert(charts@.map_values(|c: &Node| *c)[0] == *lines);
    if !str_eq(lines.name.as_str(), "lineChart") {
        return None;
    }
    let grouping = value(lines, "grouping");
    if !(str_eq(grouping, "") || str_eq(grouping, "standard")) {
        return None;
    }
    if axes.len() != 2 {
        return None;
    }
    let first = axes[0];
    let second = axes[1];
    assert(axes@.map_values(|c: &Node| *c)[0] == *first);
    assert(axes@.map_values(|c: &Node| *c)[1] == *second);
    let x_axis = if is_x(first) {
        first
    } else if is_x(second) {
        second
    } else {
        return None;
    };
    let y_axis = if str_eq(first.name.as_str(), "valAx") {
        first
    } else if str_eq(second.name.as_str(), "valAx") {
        second
    } else {
        return None;
    };
    let b = match blanks(chart) {
        Some(b) => b,
        None => return None,
    };
    if !(usable(first, lines) && usable(second, lines)) {
        return None;
    }
    Some(LineChart { chart, plot, lines, x_axis, y_axis, blanks: b })
}

/// The raw text of one series: its node, its value slots and its category
/// slots (as many as values; all empty without categories).
pub struct SeriesData<'a> {
    pub node: &'a Node,
    pub values: Vec<Option<&'a str>>,
    pub categories: Vec<Option<&'a str>>,
}

/// A slot that holds a value: present, neither empty nor `#N/A`.
pub open spec fn filled(v: Option<Seq<char>>) -> bool {
    v matches Some(s) && s != ""@ && s != "#N/A"@
}

/// Some slot holds a value.
pub open spec fn any_filled(vals: Seq<Option<Seq<char>>>) -> bool {
    exists|k: int| 0 <= k < vals.len() && filled(#[trigger] vals[k])
}

/// The raw series of a `lineChart` from the `index`-th `ser` on, when
/// `total` value slots come before them: each of the first eight has a
/// cached value list with a filled slot and a category list of the same
/// length, and all value lists hold at most 4096 slots together.
pub open spec fn series_from(sers: Seq<Node>, index: int, total: int) -> Option<
    Seq<(Node, Seq<Option<Seq<char>>>, Seq<Option<Seq<char>>>)>,
>
    decreases sers.len() - index,
{
    if index < 0 || index >= sers.len() {
        Some(Seq::empty())
    } else if index >= MAX_SERIES {
        None
    } else {
        let ser = sers[index];
        let values = match child_spec(ser, "val"@) {
            Some(v) => cache_spec(v),
            None => None,
        };
        match values {
            None => None,
            Some(vals) => if total + vals.len() > MAX_SLOTS || !any_filled(vals) {
                None
            } else {
                let cats = match child_spec(ser, "cat"@) {
                    Some(c) => cache_spec(c),
                    None => Some(no_categories(vals.len())),
                };
                match cats {
                    None => None,
                    Some(cs) => if cs.len() != vals.len() {
                        None
                    } else {
                        match series_from(sers, index + 1, total + vals.len()) {
                            None => None,
                            Some(rest) => Some(seq![(ser, vals, cs)] + rest),
                        }
                    },
                }
            },
        }
    }
}

/// The category slots of a series without categories: all empty.
pub open spec fn no_categories(n: nat) -> Seq<Option<Seq<char>>> {
    Seq::new(n, |k: int| None::<Seq<char>>)
}

/// The `ser` children of a `lineChart`.
pub open spec fn series_nodes(lines: Node) -> Seq<Node> {
    lines.children@.filter(|c: Node| c.name@ == "ser"@)
}

/// The raw series of a `lineChart`, of which there must be at least one.
pub open spec fn series_spec(lines: Node) -> Option<
    Seq<(Node, Seq<Option<Seq<char>>>, Seq<Option<Seq<char>>>)>,
> {
    match series_from(series_nodes(lines), 0, 0) {
        Some(s) => if s.len() == 0 {
            None
        } else {
            Some(s)
        },
        None => None,
    }
}

/// The view of raw series.
pub open spec fn series_view(v: Seq<SeriesData>) -> Seq<
    (Node, Seq<Option<Seq<char>>>, Seq<Option<Seq<char>>>),
> {
    v.map_values(|d: SeriesData| (*d.node, chars_of(d.values@), chars_of(d.categories@)))
}

fn has_filled(values: &Vec<Option<&str>>) -> (r: bool)
    ensures
        r == exists|k: int| 0 <= k < values@.len() && filled(#[trigger] chars_of(values@)[k]),
{
    let mut k: usize = 0;
    while k < values.len()
        invariant
            k <= values@.len(),
            forall|j: int| 0 <= j < k ==> !filled(#[trigger] chars_of(values@)[j]),
        decreases values.len() - k,
    {
        if let Some(s) = values[k] {
            if !(str_eq(s, "") || str_eq(s, "#N/A")) {
                assert(filled(chars_of(values@)[k as int]));
                return true;
            }
        }
        assert(!filled(chars_of(values@)[k as int]));
        k = k + 1;
    }
    false
}

fn empty_slots<'a>(n: usize) -> (r: Vec<Option<&'a str>>)
    ensures
        chars_of(r@) == no_categories(n as nat),
{
    let mut r: Vec<Option<&str>> = Vec::new();
    let mut k: usize = 0;
    while k < n
        invariant
            k <= n,
            r@.len() == k,
            forall|j: int| 0 <= j < k ==> r@[j] is None,
        decreases n - k,
    {
        r.push(None);
        k = k + 1;
    }
    assert(chars_of(r@) =~= no_categories(n as nat));
    r
}

/// The raw series of a `lineChart`: `None` when there is none, more than
/// eight, one without a cached value list with a filled slot, one whose
/// categories do not match its values, or more than 4096 value slots in all.
#[verifier::loop_isolation(false)]
#[verifier::spinoff_prover]
#[verifier::rlimit(30)]
pub fn series_data(lines: &Node) -> (r: Option<Vec<SeriesData<'_>>>)
    ensures
        match series_spec(*lines) {
            Some(s) => r matches Some(v) && series_view(v@) == s,
            None => r is None,
        },
{
    let sers = lines.named("ser");
    let ghost ns = series_nodes(*lines);
    assert(sers@.map_values(|c: &Node| *c) == ns);
    let mut result: Vec<SeriesData> = Vec::new();
    let mut total: usize = 0;
    let mut i: usize = 0;
    assert(series_view(result@) =~= Seq::empty());
    while i < sers.len()
        invariant
            i <= sers@.len(),
            sers@.len() == ns.len(),
            forall|k: int| 0 <= k < ns.len() ==> *sers@[k] == ns[k],
            total <= MAX_SLOTS,
            series_from(ns, 0, 0) matches Some(all) ==> series_from(ns, i as int, total as int)
                matches Some(rest) && all == series_view(result@) + rest,
            series_from(ns, 0, 0) is None ==> series_from(ns, i as int, total as int) is None,
        decreases sers.len() - i,
    {
        assert(sers@.map_values(|c: &Node| *c)[i as int] == *sers@[i as int]);
        if i >= MAX_SERIES {
            return None;
        }
        let ser = sers[i];
        let val = match ser.child("val") {
            Some(v) => v,
            None => return None,
        };
        let values = match cache(val) {
            Some(v) => v,
            None => return None,
        };
        if values.len() > MAX_SLOTS - total {
            return None;
        }
        if !has_filled(&values) {
            return None;
        }
        let categories = match ser.child("cat") {
            Some(c) => match cache(c) {
                Some(v) => v,
                None => return None,
            },
            None => empty_slots(values.len()),
        };
        if categories.len() != values.len() {
            return None;
        }
        let ghost old_total = total as int;
        assert(chars_of(values@).len() == values@.len());
        let ghost before = series_view(result@);
        let ghost entry = (*ser, chars_of(values@), chars_of(categories@));
        total = total + values.len();
        result.push(SeriesData { node: ser, values, categories });
        proof {
            assert(series_view(result@) =~= before.push(entry));
            if series_from(ns, 0, 0) is Some {
                let all = series_from(ns, 0, 0)->Some_0;
                let rest = series_from(ns, i as int, old_total)->Some_0;
                let tail = series_from(ns, i + 1, total as int)->Some_0;
                assert(series_from(ns, i + 1, total as int) is Some);
                assert(rest == seq![entry] + tail);
                assert(all == before + rest);
                assert(before + (seq![entry] + tail) =~= before.push(entry) + tail);
            } else if series_from(ns, i + 1, total as int) is Some {
                let tail = series_from(ns, i + 1, total as int)->Some_0;
                assert(series_from(ns, i as int, old_total) == Some(seq![entry] + tail));
            }
        }
        i = i + 1;
    }
    if result.len() == 0 {
        return None;
    }
    Some(result)
}

} // verus!
