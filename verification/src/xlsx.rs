//! XLSX workbooks: value parsing, cell references, number formats and dates.
pub mod cells;
pub mod colors;
pub mod coordinates;
pub mod dates;
pub mod decimal;
pub mod format;
pub mod grid;
pub mod sheet;
pub mod styles;

use crate::assoc::{get, get_spec};
use crate::digits::{all_digits, int_of};
use crate::error::Error;
use crate::model::{texts, warn, warned};
use crate::package::{Entry, Package};
use crate::text::str_eq;
use crate::xml::{attr_spec, Node};
use vstd::prelude::*;
use vstd::string::StringSliceAdditionalSpecFns;

verus! {

broadcast use vstd::seq::group_seq_axioms;

/// Rows a worksheet may use.
pub const MAX_ROWS: u32 = 10_000;

/// Columns a worksheet may use.
pub const MAX_COLUMNS: u32 = 256;

/// Entries of a style table.
pub const MAX_STYLES: usize = 2_048;

/// Stored cells (and shared strings) of a workbook.
pub const MAX_CELLS: usize = 50_000;

/// Bytes of cell and sheet-name text of a workbook.
pub const MAX_TEXT: usize = 8_388_608;

/// Running totals checked against the workbook limits.
#[derive(Default)]
pub struct Budget {
    pub cells: usize,
    pub text: usize,
    pub merges: usize,
}

impl Budget {
    /// Counts the bytes of a text; fails once the workbook holds more than 8 MiB.
    pub fn text(&mut self, value: &str) -> (r: Result<(), Error>)
        ensures
            final(self).cells == old(self).cells,
            final(self).merges == old(self).merges,
            final(self).text == if old(self).text + value.spec_bytes().len() <= usize::MAX {
                old(self).text + value.spec_bytes().len()
            } else {
                usize::MAX as int
            },
            r is Ok <==> final(self).text <= MAX_TEXT,
            r is Err ==> r == Err::<(), Error>(Error::Limit("XLSX text exceeds 8 MiB")),
    {
        self.text = self.text.saturating_add(value.as_bytes().len());
        if self.text > MAX_TEXT {
            return Err(Error::Limit("XLSX text exceeds 8 MiB"));
        }
        Ok(())
    }

    /// Counts one stored cell; fails beyond 50000 cells.
    pub fn cell(&mut self) -> (r: Result<(), Error>)
        ensures
            final(self).text == old(self).text,
            final(self).merges == old(self).merges,
            final(self).cells == if old(self).cells < usize::MAX {
                old(self).cells + 1
            } else {
                usize::MAX as int
            },
            r is Ok <==> final(self).cells <= MAX_CELLS,
            r is Err ==> r == Err::<(), Error>(Error::Limit("XLSX exceeds 50000 stored cells")),
    {
        self.cells = self.cells.saturating_add(1);
        if self.cells > MAX_CELLS {
            return Err(Error::Limit("XLSX exceeds 50000 stored cells"));
        }
        Ok(())
    }
}

/// An XLSX boolean attribute: empty gives the fallback, `1`/`true` and
/// `0`/`false` their values, anything else is invalid.
pub open spec fn boolean_spec(value: Seq<char>, fallback: bool) -> Result<bool, Error> {
    if value == Seq::<char>::empty() {
        Ok(fallback)
    } else if value == "1"@ || value == "true"@ {
        Ok(true)
    } else if value == "0"@ || value == "false"@ {
        Ok(false)
    } else {
        Err(Error::Invalid("Invalid XLSX boolean"))
    }
}

pub fn boolean(value: &str, fallback: bool) -> (r: Result<bool, Error>)
    ensures
        r == boolean_spec(value@, fallback),
{
    if value.as_bytes().len() == 0 {
        proof {
            crate::text::lemma_empty_bytes(value);
        }
        Ok(fallback)
    } else if crate::text::str_eq(value, "1") || crate::text::str_eq(value, "true") {
        Ok(true)
    } else if crate::text::str_eq(value, "0") || crate::text::str_eq(value, "false") {
        Ok(false)
    } else {
        proof {
            crate::text::lemma_empty_bytes(value);
        }
        Err(Error::Invalid("Invalid XLSX boolean"))
    }
}

/// A non-empty run of ASCII digits that fits in `u32`.
pub open spec fn unsigned_spec(value: Seq<u8>) -> Result<u32, Error> {
    if value.len() == 0 || !all_digits(value) || int_of(value) > u32::MAX {
        Err(Error::Invalid("Invalid XLSX integer"))
    } else {
        Ok(int_of(value) as u32)
    }
}

pub fn unsigned(value: &str) -> (r: Result<u32, Error>)
    ensures
        r == unsigned_spec(value.spec_bytes()),
{
    unsigned_bytes(value.as_bytes())
}

/// `unsigned` on the bytes of a string.
pub fn unsigned_bytes(b: &[u8]) -> (r: Result<u32, Error>)
    ensures
        r == unsigned_spec(b@),
{
    if b.len() == 0 || !decimal::all_digits_exec(b) {
        return Err(Error::Invalid("Invalid XLSX integer"));
    }
    let v = decimal::digits_value_capped(b, 4_294_967_296);
    if v > 4_294_967_295 {
        Err(Error::Invalid("Invalid XLSX integer"))
    } else {
        Ok(v as u32)
    }
}

/// The text of a rich-text run: its `t` children's text in order.
pub open spec fn run_text(children: Seq<Node>) -> Seq<char>
    decreases children.len(),
{
    if children.len() == 0 {
        Seq::empty()
    } else {
        run_text(children.drop_last()) + (if children.last().name@ == "t"@ {
            children.last().text@
        } else {
            Seq::empty()
        })
    }
}

/// The text of a shared or inline string: plain `t` children and the `t`
/// children of `r` runs, in order.
pub open spec fn rich_text_spec(children: Seq<Node>) -> Seq<char>
    decreases children.len(),
{
    if children.len() == 0 {
        Seq::empty()
    } else {
        let last = children.last();
        rich_text_spec(children.drop_last()) + (if last.name@ == "t"@ {
            last.text@
        } else if last.name@ == "r"@ {
            run_text(last.children@)
        } else {
            Seq::empty()
        })
    }
}

fn run_text_exec(node: &Node) -> (r: String)
    ensures
        r@ == run_text(node.children@),
{
    let mut result = String::new();
    let mut i: usize = 0;
    while i < node.children.len()
        invariant
            i <= node.children@.len(),
            result@ == run_text(node.children@.take(i as int)),
        decreases node.children.len() - i,
    {
        proof {
            assert(node.children@.take(i + 1).drop_last() =~= node.children@.take(i as int));
        }
        if crate::text::str_eq(node.children[i].name.as_str(), "t") {
            result.append(node.children[i].text.as_str());
        }
        proof {
            assert(result@ =~= run_text(node.children@.take(i + 1)));
        }
        i = i + 1;
    }
    assert(node.children@.take(i as int) =~= node.children@);
    result
}

/// The text of a shared or inline string (see `rich_text_spec`).
pub fn rich_text(node: &Node) -> (r: String)
    ensures
        r@ == rich_text_spec(node.children@),
{
    let mut result = String::new();
    let mut i: usize = 0;
    while i < node.children.len()
        invariant
            i <= node.children@.len(),
            result@ == rich_text_spec(node.children@.take(i as int)),
        decreases node.children.len() - i,
    {
        proof {
            assert(node.children@.take(i + 1).drop_last() =~= node.children@.take(i as int));
        }
        let child = &node.children[i];
        if crate::text::str_eq(child.name.as_str(), "t") {
            result.append(child.text.as_str());
        } else if crate::text::str_eq(child.name.as_str(), "r") {
            let run = run_text_exec(child);
            result.append(run.as_str());
        }
        proof {
            assert(result@ =~= rich_text_spec(node.children@.take(i + 1)));
        }
        i = i + 1;
    }
    assert(node.children@.take(i as int) =~= node.children@);
    result
}


/// `root` is the element tree of the part that the first internal
/// relationship of type `kind` from the part `source` points at, in a
/// package with these entries.
pub open spec fn related_root(entries: Seq<Entry>, source: Seq<char>, kind: Seq<char>, root: Node) -> bool {
    exists|part: Seq<char>|
        crate::package::related_part(entries, source, kind, Some(part))
            && #[trigger] crate::package::part_root(entries, part, root)
}

/// The XML of the part that the first relationship of type `kind` from
/// `source` points at, if there is one.
pub fn related_xml(package: &mut Package, source: &str, kind: &str) -> (r: Result<Option<Node>, Error>)
    requires
        old(package).wf(),
    ensures
        final(package).wf(),
        final(package).entries() == old(package).entries(),
        !old(package).holds(crate::package::relation_part_spec(source@)) ==> r == Ok::<
            Option<Node>,
            Error,
        >(None),
        r matches Ok(None) ==> crate::package::related_part(old(package).entries(), source@, kind@, None),
        r matches Ok(Some(n)) ==> related_root(old(package).entries(), source@, kind@, n)
            && crate::xml::sound(n, crate::xml::MAX_DEPTH as int),
        crate::package::related_ready(old(package).entries(), source@, kind@, old(package).read_total()) ==> r is Ok,
{
    let ghost entries = package.entries();
    let target = package.related_by_type(source, kind)?;
    assert(crate::package::related_part(package.entries(), source@, kind@, crate::xml::opt_text(target)));
    match target {
        Some(part) => match package.xml(part.as_str()) {
            Ok(n) => {
                assert(crate::xml::opt_text(target) == Some(part@));
                assert(crate::package::related_part(entries, source@, kind@, Some(part@))
                    && crate::package::part_root(entries, part@, n) && crate::xml::sound(
                    n,
                    crate::xml::MAX_DEPTH as int,
                ));
                assert(related_root(entries, source@, kind@, n));
                Ok(Some(n))
            },
            Err(e) => Err(e),
        },
        None => Ok(None),
    }
}

/// 1 when `root` has a child element named `name`, else 0.
pub open spec fn present(root: Node, name: Seq<char>) -> nat {
    if crate::xml::child_spec(root, name) is Some {
        1
    } else {
        0
    }
}

/// How many of the worksheet features that are not rendered (drawings,
/// legacy drawings, pictures, pivot tables, conditional formatting, auto
/// filters, tables, extensions) a worksheet holds.
pub open spec fn unrendered_spec(root: Node) -> nat {
    present(root, "drawing"@) + present(root, "legacyDrawing"@) + present(root, "picture"@) + present(
        root,
        "pivotTableParts"@,
    ) + present(root, "conditionalFormatting"@) + present(root, "autoFilter"@) + present(
        root,
        "tableParts"@,
    ) + present(root, "extLst"@)
}

/// The number of unrendered worksheet features present, one warning each.
pub fn unrendered_features(root: &Node) -> (r: usize)
    ensures
        r == unrendered_spec(*root),
{
    let mut n: usize = 0;
    if root.child("drawing").is_some() {
        n = n + 1;
    }
    if root.child("legacyDrawing").is_some() {
        n = n + 1;
    }
    if root.child("picture").is_some() {
        n = n + 1;
    }
    if root.child("pivotTableParts").is_some() {
        n = n + 1;
    }
    if root.child("conditionalFormatting").is_some() {
        n = n + 1;
    }
    if root.child("autoFilter").is_some() {
        n = n + 1;
    }
    if root.child("tableParts").is_some() {
        n = n + 1;
    }
    if root.child("extLst").is_some() {
        n = n + 1;
    }
    n
}

/// Sheets a workbook may list.
pub const MAX_SHEETS: usize = 32;

/// The `sheet` entries of a workbook's `sheets` list, in order.
pub open spec fn sheet_entries(sheets: Node) -> Seq<Node> {
    sheets.children@.filter(|c: Node| c.name@ == "sheet"@)
}

/// The sheets a workbook lists: it must have a `sheets` list of at most 32
/// entries.
pub fn sheet_list(root: &Node) -> (r: Result<Vec<&Node>, Error>)
    ensures
        match crate::xml::child_spec(*root, "sheets"@) {
            None => r == Err::<Vec<&Node>, Error>(Error::Invalid("Missing XLSX sheets")),
            Some(s) => if sheet_entries(s).len() > MAX_SHEETS {
                r == Err::<Vec<&Node>, Error>(Error::Limit("XLSX exceeds 32 sheets"))
            } else {
                r matches Ok(v) && v@.map_values(|c: &Node| *c) == sheet_entries(s)
            },
        },
{
    let sheets = match root.child("sheets") {
        Some(s) => s,
        None => return Err(Error::Invalid("Missing XLSX sheets")),
    };
    let list = sheets.named("sheet");
    assert(list@.map_values(|c: &Node| *c).len() == list@.len());
    if list.len() > MAX_SHEETS {
        return Err(Error::Limit("XLSX exceeds 32 sheets"));
    }
    Ok(list)
}

/// The `si` items of a shared strings part.
pub open spec fn string_items(root: Node) -> Seq<Node> {
    root.children@.filter(|c: Node| c.name@ == "si"@)
}

/// The UTF-8 bytes of the first `n` shared strings.
pub open spec fn strings_bytes(items: Seq<Node>, n: int) -> int
    decreases n,
{
    if n <= 0 || n > items.len() {
        0
    } else {
        strings_bytes(items, n - 1) + crate::text::utf8(rich_text_spec(items[n - 1].children@)).len()
    }
}

proof fn lemma_strings_bytes_grow(items: Seq<Node>, a: int, b: int)
    requires
        0 <= a <= b <= items.len(),
    ensures
        strings_bytes(items, a) <= strings_bytes(items, b),
    decreases b - a,
{
    if a < b {
        lemma_strings_bytes_grow(items, a, b - 1);
    }
}

/// The shared strings of a workbook: the text of each `si` of an `sst`
/// part, at most 50000, each counted against the text budget (the first
/// string that takes the budget past 8 MiB fails; past 50000 strings, the
/// count fails).
pub fn shared_strings(root: &Node, budget: &mut Budget) -> (r: Result<Vec<String>, Error>)
    ensures
        root.name@ != "sst"@ ==> r == Err::<Vec<String>, Error>(Error::Invalid("Invalid shared strings part")),
        r matches Ok(v) ==> root.name@ == "sst"@ && v@.len() <= MAX_CELLS && texts(v@) == root.children@.filter(
            |c: Node| c.name@ == "si"@,
        ).map_values(|c: Node| rich_text_spec(c.children@)),
        root.name@ == "sst"@ ==> ({
            let items = string_items(*root);
            let m = if items.len() < MAX_CELLS {
                items.len() as int
            } else {
                MAX_CELLS as int
            };
            if m > 0 && old(budget).text + strings_bytes(items, m) > MAX_TEXT {
                r == Err::<Vec<String>, Error>(Error::Limit("XLSX text exceeds 8 MiB"))
            } else if items.len() > MAX_CELLS {
                r == Err::<Vec<String>, Error>(Error::Limit("XLSX exceeds 50000 shared strings"))
            } else {
                r is Ok && final(budget).text == old(budget).text + strings_bytes(items, m)
            }
        }),
{
    if !str_eq(root.name.as_str(), "sst") {
        return Err(Error::Invalid("Invalid shared strings part"));
    }
    let items = root.named("si");
    let ghost all = root.children@.filter(|c: Node| c.name@ == "si"@);
    let mut strings: Vec<String> = Vec::new();
    let mut i: usize = 0;
    while i < items.len()
        invariant
            root.name@ == "sst"@,
            i <= items@.len(),
            items@.map_values(|c: &Node| *c) == all,
            strings@.len() == i,
            i <= MAX_CELLS,
            texts(strings@) == all.take(i as int).map_values(|c: Node| rich_text_spec(c.children@)),
            all == string_items(*root),
            budget.text == old(budget).text + strings_bytes(all, i as int),
            i > 0 ==> budget.text <= MAX_TEXT,
        decreases items.len() - i,
    {
        if strings.len() >= MAX_CELLS {
            return Err(Error::Limit("XLSX exceeds 50000 shared strings"));
        }
        let text = rich_text(items[i]);
        proof {
            assert(all[i as int] == *items@[i as int]);
        }
        let charged = budget.text(text.as_str());
        if charged.is_err() {
            proof {
                assert(old(budget).text + strings_bytes(all, i + 1) > MAX_TEXT);
                let m = if all.len() < MAX_CELLS {
                    all.len() as int
                } else {
                    MAX_CELLS as int
                };
                lemma_strings_bytes_grow(all, i + 1, m);
            }
            return Err(Error::Limit("XLSX text exceeds 8 MiB"));
        }
        let ghost before = texts(strings@);
        strings.push(text);
        proof {
            assert(all[i as int] == *items@[i as int]);
            assert(texts(strings@) =~= before.push(rich_text_spec(all[i as int].children@)));
            assert(all.take(i + 1).map_values(|c: Node| rich_text_spec(c.children@)) =~= all.take(
                i as int,
            ).map_values(|c: Node| rich_text_spec(c.children@)).push(
                rich_text_spec(all[i as int].children@),
            ));
        }
        i = i + 1;
    }
    proof {
        assert(all.take(i as int) =~= all);
    }
    Ok(strings)
}

/// What a workbook does with one listed sheet: the part to read, or
/// nothing for a hidden sheet (with a warning).
pub open spec fn sheet_spec(sheet: Node, names: Seq<Seq<char>>, rels: Seq<(String, String)>) -> (Result<Option<Seq<char>>, Error>, Option<Seq<char>>) {
    let name = attr_spec(sheet, "name"@);
    let state = attr_spec(sheet, "state"@);
    if name.len() == 0 || names.contains(name) {
        (Err(Error::Invalid("Missing or duplicate XLSX sheet name")), None)
    } else if state == "hidden"@ || state == "veryHidden"@ {
        (Ok(None), Some("Hidden worksheets are not displayed"@))
    } else if state.len() == 0 || state == "visible"@ {
        match get_spec(rels, attr_spec(sheet, "r:id"@)) {
            Some(t) => (Ok(Some(t@)), None),
            None => (Err(Error::Invalid("Missing worksheet relationship")), None),
        }
    } else {
        (Err(Error::Invalid("Invalid worksheet visibility")), None)
    }
}

/// Checks one listed sheet: its name must be new and not empty (it is
/// recorded and counted against the text budget), a hidden sheet is
/// skipped with a warning, and a visible one must have a relationship,
/// whose target part is returned.
pub fn sheet_target(
    sheet: &Node,
    names: &mut Vec<String>,
    rels: &Vec<(String, String)>,
    budget: &mut Budget,
    warnings: &mut Vec<String>,
) -> (r: Result<Option<String>, Error>)
    ensures
        ({
            let (outcome, warning) = sheet_spec(*sheet, texts(old(names)@), rels@);
            let name = attr_spec(*sheet, "name"@);
            let fresh = name.len() != 0 && !texts(old(names)@).contains(name);
            &&& !fresh ==> r == Err::<Option<String>, Error>(
                Error::Invalid("Missing or duplicate XLSX sheet name"),
            )
            &&& fresh ==> texts(final(names)@) == texts(old(names)@).push(name)
            &&& fresh ==> (final(budget).text > MAX_TEXT <==> r == Err::<Option<String>, Error>(
                Error::Limit("XLSX text exceeds 8 MiB"),
            ))
            &&& fresh && final(budget).text <= MAX_TEXT ==> match outcome {
                Err(e) => r == Err::<Option<String>, Error>(e),
                Ok(o) => (r matches Ok(t) && match (t, o) {
                    (Some(a), Some(b)) => a@ == b,
                    (None, None) => true,
                    _ => false,
                }) && texts(final(warnings)@) == match warning {
                    Some(m) => warned(texts(old(warnings)@), m),
                    None => texts(old(warnings)@),
                },
            }
        }),
{
    let name = sheet.attr("name");
    proof {
        crate::text::lemma_empty_bytes(name);
    }
    let ghost known = texts(names@);
    let mut i: usize = 0;
    let mut duplicate = false;
    while i < names.len()
        invariant
            i <= names@.len(),
            known == texts(names@),
            duplicate == (exists|j: int| 0 <= j < i && known[j] == name@),
        decreases names.len() - i,
    {
        assert(known[i as int] == names@[i as int]@);
        if str_eq(names[i].as_str(), name) {
            duplicate = true;
        }
        i = i + 1;
    }
    proof {
        if known.contains(name@) {
            let j = choose|j: int| 0 <= j < known.len() && known[j] == name@;
            assert(duplicate);
        }
    }
    if name.as_bytes().len() == 0 || duplicate {
        return Err(Error::Invalid("Missing or duplicate XLSX sheet name"));
    }
    names.push(name.to_owned());
    proof {
        assert(texts(names@) =~= known.push(name@));
    }
    budget.text(name)?;
    let state = sheet.attr("state");
    proof {
        crate::text::lemma_empty_bytes(state);
    }
    if str_eq(state, "hidden") || str_eq(state, "veryHidden") {
        warn(warnings, "Hidden worksheets are not displayed");
        return Ok(None);
    }
    if !(state.as_bytes().len() == 0 || str_eq(state, "visible")) {
        return Err(Error::Invalid("Invalid worksheet visibility"));
    }
    match get(rels, sheet.attr("r:id")) {
        Some(t) => Ok(Some(t.clone())),
        None => Err(Error::Invalid("Missing worksheet relationship")),
    }
}

} // verus!
