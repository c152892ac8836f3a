//! DOCX structure rules: skipped elements, alternate content, heading
//! styles, switches and the table grid limits.
pub mod flow;
pub mod inspect;
pub mod table;

use crate::assoc::{get, get_spec, insert, unique_keys};
use crate::digits::{all_digits, int_of};
use crate::error::Error;
use crate::model::{texts, warn, warned};
use crate::package::eq_ignore_ascii_case;
use crate::text::{str_eq, utf8};
use crate::xlsx::decimal::{all_digits_exec, digits_value_capped};
use crate::xlsx::format::{ascii_lower, lower_bytes};
use crate::xml::{attr_spec, child_spec, Node};
use vstd::prelude::*;
use vstd::string::{StringExecFns, StringSliceAdditionalSpecFns};

verus! {

broadcast use vstd::seq::group_seq_axioms;

/// Flow blocks a document may hold.
pub const MAX_BLOCKS: usize = 5000;

/// Table cells a document may hold.
pub const MAX_CELLS: usize = 5000;

/// Columns a table may have.
pub const MAX_COLUMNS: usize = 32;

/// Rows a table may have.
pub const MAX_ROWS: usize = 500;

/// An unsigned integer as `str::parse` reads it: an optional `+`, then at
/// least one digit, at most `max`.
pub open spec fn parse_unsigned_spec(b: Seq<u8>, max: int) -> Option<int> {
    let digits = if b.len() > 1 && b[0] == 43 {
        b.drop_first()
    } else {
        b
    };
    if digits.len() == 0 || !all_digits(digits) || int_of(digits) > max {
        None
    } else {
        Some(int_of(digits) as int)
    }
}

/// `str::parse` for an unsigned integer type whose largest value is `max`.
pub fn parse_unsigned(b: &[u8], max: u64) -> (r: Option<u64>)
    ensures
        match parse_unsigned_spec(b@, max as int) {
            Some(v) => r == Some(v as u64),
            None => r is None,
        },
{
    let start: usize = if b.len() > 1 && b[0] == 43 {
        1
    } else {
        0
    };
    let digits = crate::xlsx::decimal::slice_copy(b, start, b.len());
    proof {
        if start == 1 {
            assert(digits@ =~= b@.drop_first());
        } else {
            assert(digits@ =~= b@);
        }
    }
    if digits.len() == 0 || !all_digits_exec(digits.as_slice()) {
        return None;
    }
    let cap: u128 = max as u128 + 1;
    let v = digits_value_capped(digits.as_slice(), cap);
    if v > max as u128 {
        None
    } else {
        Some(v as u64)
    }
}

/// The body of a DOCX main part, whose root must be a `document`.
pub fn document_body(root: &Node) -> (r: Result<&Node, Error>)
    ensures
        root.name@ != "document"@ ==> r == Err::<&Node, Error>(
            Error::Invalid("Invalid DOCX document root"),
        ),
        root.name@ == "document"@ ==> match child_spec(*root, "body"@) {
            Some(b) => r == Ok::<&Node, Error>(&b),
            None => r == Err::<&Node, Error>(Error::Invalid("Missing DOCX body")),
        },
{
    if !str_eq(root.name.as_str(), "document") {
        return Err(Error::Invalid("Invalid DOCX document root"));
    }
    match root.child("body") {
        Some(b) => Ok(b),
        None => Err(Error::Invalid("Missing DOCX body")),
    }
}

/// The page size element of a body: that of its own section properties,
/// else of the first section properties found below it.
pub fn page_size(body: &Node) -> (r: Option<&Node>)
    ensures
        match match child_spec(*body, "sectPr"@) {
            Some(s) => Some(s),
            None => crate::xml::descendant_spec(*body, "sectPr"@),
        } {
            Some(section) => match child_spec(section, "pgSz"@) {
                Some(p) => r == Some(&p),
                None => r is None,
            },
            None => r is None,
        },
{
    let section = match body.child("sectPr") {
        Some(s) => Some(s),
        None => body.descendant("sectPr"),
    };
    match section {
        Some(s) => s.child("pgSz"),
        None => None,
    }
}

/// The elements that the flow skips with their content.
pub open spec fn skipped_names() -> Seq<Seq<char>> {
    seq![
        "pPr"@, "rPr"@, "sectPr"@, "tblPr"@, "tblGrid"@, "trPr"@, "tcPr"@, "sdtPr"@,
        "sdtEndPr"@, "customXmlPr"@, "del"@, "moveFrom"@, "instrText"@, "oMath"@,
        "oMathPara"@, "pict"@, "object"@, "txbxContent"@, "altChunk"@,
    ]
}

/// Whether the flow skips an element of this name: properties, deleted
/// text, field instructions, equations, legacy drawings and embedded
/// documents.
pub fn skipped(name: &str) -> (r: bool)
    ensures
        r == skipped_names().contains(name@),
{
    let names: [&str; 19] = [
        "pPr", "rPr", "sectPr", "tblPr", "tblGrid", "trPr", "tcPr", "sdtPr", "sdtEndPr",
        "customXmlPr", "del", "moveFrom", "instrText", "oMath", "oMathPara", "pict", "object",
        "txbxContent", "altChunk",
    ];
    assert(names@.map_values(|s: &str| s@) =~= skipped_names());
    let mut i: usize = 0;
    while i < 19
        invariant
            i <= 19,
            names@.map_values(|s: &str| s@) == skipped_names(),
            forall|j: int| 0 <= j < i ==> skipped_names()[j] != name@,
        decreases 19 - i,
    {
        assert(names@.map_values(|s: &str| s@)[i as int] == names@[i as int]@);
        if str_eq(name, names[i]) {
            assert(skipped_names()[i as int] == name@);
            return true;
        }
        i = i + 1;
    }
    false
}

/// The branch of an `AlternateContent` element that is read: the first
/// `Choice`, else the `Fallback`.
pub fn alternate(node: &Node) -> (r: Option<&Node>)
    ensures
        match child_spec(*node, "Choice"@) {
            Some(c) => r == Some(&c),
            None => match child_spec(*node, "Fallback"@) {
                Some(f) => r == Some(&f),
                None => r is None,
            },
        },
{
    match node.child("Choice") {
        Some(c) => Some(c),
        None => node.child("Fallback"),
    }
}

/// A switch is on unless it reads `0`, `false`, `off` or `none` (in any
/// ASCII case).
pub open spec fn enabled_spec(value: Seq<char>) -> bool {
    let v = lower_bytes(utf8(value));
    v != lower_bytes(utf8("0"@)) && v != lower_bytes(utf8("false"@)) && v != lower_bytes(
        utf8("off"@),
    ) && v != lower_bytes(utf8("none"@))
}

pub fn enabled(value: &str) -> (r: bool)
    ensures
        r == enabled_spec(value@),
{
    !(eq_ignore_ascii_case(value, "0") || eq_ignore_ascii_case(value, "false")
        || eq_ignore_ascii_case(value, "off") || eq_ignore_ascii_case(value, "none"))
}

/// `heading` in UTF-8.
pub open spec fn heading_prefix() -> Seq<u8> {
    seq![104u8, 101u8, 97u8, 100u8, 105u8, 110u8, 103u8]
}

/// A style name with its spaces removed and ASCII letters lowered.
pub open spec fn normalized(b: Seq<u8>) -> Seq<u8> {
    lower_bytes(b.filter(|c: u8| c != 32))
}

/// The outline level of a heading style name such as `Heading 2` or
/// `heading3`: 1 to 9; names longer than 256 bytes are not headings.
pub open spec fn heading_spec(name: Seq<char>) -> Option<u8> {
    let b = utf8(name);
    let n = normalized(b);
    if b.len() > 256 || n.len() < 7 || n.take(7) != heading_prefix() {
        None
    } else {
        match parse_unsigned_spec(n.skip(7), 255) {
            Some(level) => if 1 <= level <= 9 {
                Some(level as u8)
            } else {
                None
            },
            None => None,
        }
    }
}

pub fn heading(name: &str) -> (r: Option<u8>)
    ensures
        r == heading_spec(name@),
{
    let b = name.as_bytes();
    if b.len() > 256 {
        return None;
    }
    let mut n: Vec<u8> = Vec::new();
    let mut i: usize = 0;
    while i < b.len()
        invariant
            i <= b@.len(),
            n@ == normalized(b@.take(i as int)),
        decreases b.len() - i,
    {
        let c = b[i];
        proof {
            assert(b@.take(i + 1) =~= b@.take(i as int).push(c));
            reveal_with_fuel(Seq::<u8>::filter, 1);
            assert(b@.take(i + 1).drop_last() =~= b@.take(i as int));
        }
        if c != 32 {
            n.push(if 65 <= c && c <= 90 {
                c + 32
            } else {
                c
            });
            proof {
                assert(b@.take(i + 1).filter(|c: u8| c != 32) =~= b@.take(i as int).filter(
                    |c: u8| c != 32,
                ).push(c));
                assert(n@ =~= normalized(b@.take(i + 1)));
            }
        } else {
            proof {
                assert(b@.take(i + 1).filter(|c: u8| c != 32) =~= b@.take(i as int).filter(
                    |c: u8| c != 32,
                ));
            }
        }
        i = i + 1;
    }
    assert(b@.take(b@.len() as int) =~= b@);
    if n.len() < 7 || !(n[0] == 104 && n[1] == 101 && n[2] == 97 && n[3] == 100 && n[4] == 105
        && n[5] == 110 && n[6] == 103) {
        proof {
            if n@.len() >= 7 {
                assert(n@.take(7)[0] == n@[0]);
                assert(n@.take(7)[1] == n@[1]);
                assert(n@.take(7)[2] == n@[2]);
                assert(n@.take(7)[3] == n@[3]);
                assert(n@.take(7)[4] == n@[4]);
                assert(n@.take(7)[5] == n@[5]);
                assert(n@.take(7)[6] == n@[6]);
            }
        }
        return None;
    }
    assert(n@.take(7) =~= heading_prefix());
    let rest = crate::xlsx::decimal::slice_copy(n.as_slice(), 7, n.len());
    assert(rest@ =~= n@.skip(7));
    match parse_unsigned(rest.as_slice(), 255) {
        Some(level) => if 1 <= level && level <= 9 {
            Some(level as u8)
        } else {
            None
        },
        None => None,
    }
}

/// The limit on table columns.
pub fn columns(count: usize) -> (r: Result<(), Error>)
    ensures
        count > MAX_COLUMNS ==> r == Err::<(), Error>(Error::Limit("DOCX table exceeds 32 columns")),
        count <= MAX_COLUMNS ==> r == Ok::<(), Error>(()),
{
    if count > MAX_COLUMNS {
        Err(Error::Limit("DOCX table exceeds 32 columns"))
    } else {
        Ok(())
    }
}

/// A grid count of a table row or cell (`gridBefore`, `gridAfter`,
/// `gridSpan`): the element's `val`, at least the fallback, at most 32.
pub open spec fn grid_count_spec(properties: Option<Node>, name: Seq<char>, fallback: usize) -> Result<usize, Error> {
    let count = match properties {
        None => Ok(fallback as int),
        Some(p) => match child_spec(p, name) {
            None => Ok(fallback as int),
            Some(n) => match parse_unsigned_spec(utf8(attr_spec(n, "val"@)), usize::MAX as int) {
                None => Err(Error::Invalid("Invalid DOCX table grid count")),
                Some(v) => Ok(if v >= fallback {
                    v
                } else {
                    fallback as int
                }),
            },
        },
    };
    match count {
        Err(e) => Err(e),
        Ok(c) => if c > MAX_COLUMNS {
            Err(Error::Limit("DOCX table exceeds 32 columns"))
        } else {
            Ok(c as usize)
        },
    }
}

pub fn grid_count(properties: Option<&Node>, name: &str, fallback: usize) -> (r: Result<usize, Error>)
    ensures
        r == grid_count_spec(
            match properties {
                Some(p) => Some(*p),
                None => None,
            },
            name@,
            fallback,
        ),
{
    let count: usize = match properties {
        None => fallback,
        Some(p) => match p.child(name) {
            None => fallback,
            Some(n) => match parse_unsigned(n.attr("val").as_bytes(), usize::MAX as u64) {
                None => return Err(Error::Invalid("Invalid DOCX table grid count")),
                Some(v) => if v as usize >= fallback {
                    v as usize
                } else {
                    fallback
                },
            },
        },
    };
    columns(count)?;
    Ok(count)
}

/// Claims `count` more table cells; a document holds at most 5000.
pub fn claim_cells(cells: &mut usize, count: usize) -> (r: Result<(), Error>)
    requires
        *old(cells) <= MAX_CELLS,
    ensures
        old(cells) + count > MAX_CELLS ==> r == Err::<(), Error>(
            Error::Limit("DOCX exceeds 5000 table cells"),
        ) && *final(cells) == *old(cells),
        old(cells) + count <= MAX_CELLS ==> r == Ok::<(), Error>(()) && *final(cells) == old(cells)
            + count,
{
    if count > MAX_CELLS - *cells {
        return Err(Error::Limit("DOCX exceeds 5000 table cells"));
    }
    *cells = *cells + count;
    Ok(())
}


/// Styles a styles part may define.
pub const MAX_STYLES: usize = 1024;

/// Longest style inheritance chain followed.
pub const MAX_STYLE_DEPTH: usize = 64;

pub const CYCLE_WARNING: &'static str = "Cyclic or excessive style inheritance was stopped.";

pub const MISSING_STYLE_WARNING: &'static str = "Missing styles use inherited or default formatting.";

/// The styles of a document: the styles part, each style id with the index
/// of its `style` element, and the default paragraph and character styles.
pub struct StyleTable {
    pub root: Node,
    pub entries: Vec<(String, usize)>,
    pub default_paragraph: String,
    pub default_character: String,
}

/// The style a style is based on, empty when none.
pub open spec fn based_on(style: Node) -> Seq<char> {
    match child_spec(style, "basedOn"@) {
        Some(n) => attr_spec(n, "val"@),
        None => Seq::empty(),
    }
}

/// A `style` element.
pub open spec fn is_style(n: Node) -> bool {
    n.name@ == "style"@
}

/// The number of `style` elements among the first `n` children.
pub open spec fn style_count(children: Seq<Node>, n: int) -> int
    decreases n,
{
    if n <= 0 || n > children.len() {
        0
    } else {
        style_count(children, n - 1) + if is_style(children[n - 1]) {
            1int
        } else {
            0int
        }
    }
}

/// A style whose id or `basedOn` value is longer than 256 bytes.
pub open spec fn overlong(n: Node) -> bool {
    utf8(attr_spec(n, "styleId"@)).len() > 256 || match child_spec(n, "basedOn"@) {
        Some(b) => utf8(attr_spec(b, "val"@)).len() > 256,
        None => false,
    }
}

/// Child `j` is an overlong style among the first 1024 styles.
pub open spec fn overlong_within(children: Seq<Node>, j: int) -> bool {
    is_style(children[j]) && style_count(children, j + 1) <= MAX_STYLES && overlong(children[j])
}

/// The index of the last of the first `n` children that is a style with
/// id `id`.
pub open spec fn last_style(children: Seq<Node>, n: int, id: Seq<char>) -> Option<usize>
    decreases n,
{
    if n <= 0 || n > children.len() {
        None
    } else if is_style(children[n - 1]) && attr_spec(children[n - 1], "styleId"@) == id {
        Some((n - 1) as usize)
    } else {
        last_style(children, n - 1, id)
    }
}

/// The id of the last of the first `n` children that is a style of type
/// `kind` with an id and a `default` switch that is on; empty when none.
pub open spec fn last_default(children: Seq<Node>, n: int, kind: Seq<char>) -> Seq<char>
    decreases n,
{
    if n <= 0 || n > children.len() {
        Seq::empty()
    } else {
        let c = children[n - 1];
        if is_style(c) && attr_spec(c, "styleId"@).len() > 0 && attr_spec(c, "default"@).len() > 0
            && enabled_spec(attr_spec(c, "default"@)) && attr_spec(c, "type"@) == kind {
            attr_spec(c, "styleId"@)
        } else {
            last_default(children, n - 1, kind)
        }
    }
}

proof fn lemma_style_count_grows(children: Seq<Node>, n: int)
    requires
        0 <= n <= children.len(),
    ensures
        forall|m: int| 0 <= m <= n ==> style_count(children, m) <= style_count(children, n),
    decreases n,
{
    if n > 0 {
        lemma_style_count_grows(children, n - 1);
    }
}

proof fn lemma_no_overlong_after_limit(children: Seq<Node>, n: int)
    requires
        0 <= n <= children.len(),
        style_count(children, n) > MAX_STYLES,
    ensures
        style_count(children, children.len() as int) > MAX_STYLES,
    decreases children.len() - n,
{
    if n < children.len() {
        lemma_no_overlong_after_limit(children, n + 1);
    }
}

impl StyleTable {
    /// Every entry names a style element of the part.
    pub open spec fn wf(&self) -> bool {
        &&& unique_keys(self.entries@)
        &&& forall|i: int|
            0 <= i < self.entries@.len() ==> #[trigger] self.entries@[i].1 < self.root.children@.len()
    }

    /// The style element with this id.
    pub open spec fn style(&self, id: Seq<char>) -> Option<Node> {
        match get_spec(self.entries@, id) {
            Some(i) => Some(self.root.children@[i as int]),
            None => None,
        }
    }

    /// The styles followed from `id` through `basedOn`, after `acc` (whose
    /// ids are `seen`), and the warning that ended the walk, if any.
    pub open spec fn chain_from(&self, id: Seq<char>, acc: Seq<Node>, seen: Seq<Seq<char>>) -> (Seq<Node>, Option<Seq<char>>)
        decreases MAX_STYLE_DEPTH - acc.len(),
    {
        if id.len() == 0 {
            (acc, None)
        } else if acc.len() >= MAX_STYLE_DEPTH || seen.contains(id) {
            (acc, Some(CYCLE_WARNING@))
        } else {
            match self.style(id) {
                None => (acc, Some(MISSING_STYLE_WARNING@)),
                Some(style) => self.chain_from(based_on(style), acc.push(style), seen.push(id)),
            }
        }
    }

    proof fn lemma_chain_from(&self, id: Seq<char>, acc: Seq<Node>, seen: Seq<Seq<char>>)
        requires
            acc.len() <= MAX_STYLE_DEPTH,
        ensures
            self.chain_from(id, acc, seen).0.len() <= MAX_STYLE_DEPTH,
            acc.len() <= self.chain_from(id, acc, seen).0.len(),
            self.chain_from(id, acc, seen).0.take(acc.len() as int) == acc,
        decreases MAX_STYLE_DEPTH - acc.len(),
    {
        if id.len() > 0 && acc.len() < MAX_STYLE_DEPTH && !seen.contains(id) {
            if let Some(style) = self.style(id) {
                self.lemma_chain_from(based_on(style), acc.push(style), seen.push(id));
                let r = self.chain_from(id, acc, seen).0;
                assert(r.take(acc.len() + 1int).take(acc.len() as int) =~= r.take(acc.len() as int));
                assert(acc.push(style).take(acc.len() as int) =~= acc);
            }
        } else {
            assert(acc.take(acc.len() as int) =~= acc);
        }
    }

    /// A style chain holds at most 64 styles, so inheritance always ends.
    pub proof fn law_chain_is_bounded(&self, id: Seq<char>)
        ensures
            self.chain_from(id, Seq::empty(), Seq::empty()).0.len() <= MAX_STYLE_DEPTH,
    {
        self.lemma_chain_from(id, Seq::empty(), Seq::empty());
    }

    /// Reads the `style` elements of a styles part: at most 1024, ids and
    /// `basedOn` values of at most 256 bytes; styles without an id are
    /// skipped, and a later style replaces an earlier one of the same id.
    /// A style marked as the default paragraph or character style becomes
    /// that default.
    pub fn load(root: Node) -> (r: Result<StyleTable, Error>)
        ensures
            ({
                let ch = root.children@;
                let n = ch.len() as int;
                if exists|j: int| 0 <= j < n && overlong_within(ch, j) {
                    r == Err::<StyleTable, Error>(
                        Error::Limit("DOCX style identifier exceeds 256 bytes"),
                    )
                } else if style_count(ch, n) > MAX_STYLES {
                    r == Err::<StyleTable, Error>(Error::Limit("DOCX exceeds 1024 styles"))
                } else {
                    r matches Ok(t) && {
                        &&& t.wf()
                        &&& t.root == root
                        &&& forall|id: Seq<char>| #[trigger]
                            get_spec(t.entries@, id) == if id.len() == 0 {
                                None
                            } else {
                                last_style(ch, n, id)
                            }
                        &&& t.default_paragraph@ == last_default(ch, n, "paragraph"@)
                        &&& t.default_character@ == last_default(ch, n, "character"@)
                    }
                }
            }),
    {
        let mut entries: Vec<(String, usize)> = Vec::new();
        let mut default_paragraph = String::new();
        let mut default_character = String::new();
        let mut count: usize = 0;
        let mut i: usize = 0;
        while i < root.children.len()
            invariant
                i <= root.children@.len(),
                count == style_count(root.children@, i as int),
                count <= MAX_STYLES,
                forall|j: int| 0 <= j < i ==> !overlong_within(root.children@, j),
                unique_keys(entries@),
                forall|j: int| 0 <= j < entries@.len() ==> #[trigger] entries@[j].1 < root.children@.len(),
                forall|id: Seq<char>| #[trigger]
                    get_spec(entries@, id) == if id.len() == 0 {
                        None
                    } else {
                        last_style(root.children@, i as int, id)
                    },
                default_paragraph@ == last_default(root.children@, i as int, "paragraph"@),
                default_character@ == last_default(root.children@, i as int, "character"@),
            decreases root.children.len() - i,
        {
            let node = &root.children[i];
            proof {
                reveal_strlit("paragraph");
                reveal_strlit("character");
                assert("paragraph"@[0] != "character"@[0]);
                lemma_style_count_grows(root.children@, i as int + 1);
            }
            if str_eq(node.name.as_str(), "style") {
                if count >= MAX_STYLES {
                    proof {
                        lemma_no_overlong_after_limit(root.children@, i as int + 1);
                        assert forall|j: int| 0 <= j < root.children@.len() implies !overlong_within(
                            root.children@,
                            j,
                        ) by {
                            if j >= i {
                                lemma_style_count_grows(root.children@, j + 1);
                            }
                        }
                    }
                    return Err(Error::Limit("DOCX exceeds 1024 styles"));
                }
                count = count + 1;
                let id = node.attr("styleId");
                let long_base = match node.child("basedOn") {
                    Some(b) => b.attr("val").as_bytes().len() > 256,
                    None => false,
                };
                if id.as_bytes().len() > 256 || long_base {
                    assert(overlong_within(root.children@, i as int));
                    return Err(Error::Limit("DOCX style identifier exceeds 256 bytes"));
                }
                proof {
                    crate::text::lemma_empty_bytes(id);
                }
                if id.as_bytes().len() != 0 {
                    let default = node.attr("default");
                    proof {
                        crate::text::lemma_empty_bytes(default);
                    }
                    if default.as_bytes().len() != 0 && enabled(default) {
                        let kind = node.attr("type");
                        if str_eq(kind, "paragraph") {
                            default_paragraph = id.to_owned();
                        } else if str_eq(kind, "character") {
                            default_character = id.to_owned();
                        }
                    }
                    let ghost before = entries@;
                    insert(&mut entries, id.to_owned(), i);
                    proof {
                        assert forall|j: int| 0 <= j < entries@.len() implies #[trigger] entries@[j].1
                            < root.children@.len() by {
                            if entries@[j].1 != i {
                                let k = choose|k: int|
                                    0 <= k < before.len() && before[k].1 == entries@[j].1;
                                assert(before[k].1 < root.children@.len());
                            }
                        }
                    }
                }
            }
            i = i + 1;
        }
        proof {
            if exists|j: int| 0 <= j < root.children@.len() && overlong_within(root.children@, j) {
                let j = choose|j: int| 0 <= j < root.children@.len() && overlong_within(root.children@, j);
                assert(!overlong_within(root.children@, j));
            }
        }
        Ok(StyleTable { root, entries, default_paragraph, default_character })
    }

    /// The style element with this id.
    pub fn style_of(&self, id: &str) -> (r: Option<&Node>)
        requires
            self.wf(),
        ensures
            match self.style(id@) {
                Some(s) => r == Some(&s),
                None => r is None,
            },
    {
        proof {
            crate::assoc::lemma_get_member(self.entries@, id@);
        }
        match get(&self.entries, id) {
            Some(i) => Some(&self.root.children[*i]),
            None => None,
        }
    }

    /// The inheritance chain of style `id`: the style, then the style it is
    /// based on, and so on. The walk stops with a warning at a missing
    /// style, at a style already visited, or after 64 styles.
    pub fn chain<'a>(&'a self, id: &'a str, warnings: &mut Vec<String>) -> (r: Vec<&'a Node>)
        requires
            self.wf(),
        ensures
            ({
                let (styles, warning) = self.chain_from(id@, Seq::empty(), Seq::empty());
                &&& r@.map_values(|n: &Node| *n) == styles
                &&& texts(final(warnings)@) == match warning {
                    Some(m) => warned(texts(old(warnings)@), m),
                    None => texts(old(warnings)@),
                }
            }),
    {
        let mut chain: Vec<&'a Node> = Vec::new();
        let mut seen: Vec<&'a str> = Vec::new();
        let mut current: &'a str = id;
        let ghost target = self.chain_from(id@, Seq::empty(), Seq::empty());
        assert(chain@.map_values(|n: &Node| *n) =~= Seq::<Node>::empty());
        assert(seen@.map_values(|s: &str| s@) =~= Seq::<Seq<char>>::empty());
        loop
            invariant
                self.wf(),
                chain@.len() == seen@.len(),
                chain@.len() <= MAX_STYLE_DEPTH,
                texts(warnings@) == texts(old(warnings)@),
                target == self.chain_from(id@, Seq::empty(), Seq::empty()),
                self.chain_from(current@, chain@.map_values(|n: &Node| *n), seen@.map_values(|s: &str| s@))
                    == target,
            decreases MAX_STYLE_DEPTH - chain@.len(),
        {
            let ghost acc = chain@.map_values(|n: &Node| *n);
            let ghost ids = seen@.map_values(|s: &str| s@);
            proof {
                crate::text::lemma_empty_bytes(current);
            }
            if current.as_bytes().len() == 0 {
                return chain;
            }
            let mut repeated = false;
            let mut k: usize = 0;
            while k < seen.len()
                invariant
                    k <= seen@.len(),
                    ids == seen@.map_values(|s: &str| s@),
                    repeated == (exists|j: int| 0 <= j < k && ids[j] == current@),
                decreases seen.len() - k,
            {
                assert(ids[k as int] == seen@[k as int]@);
                if str_eq(seen[k], current) {
                    repeated = true;
                }
                k = k + 1;
            }
            proof {
                if repeated {
                    let j = choose|j: int| 0 <= j < seen@.len() && ids[j] == current@;
                    assert(ids.contains(current@));
                }
                if ids.contains(current@) {
                    let j = choose|j: int| 0 <= j < ids.len() && ids[j] == current@;
                    assert(repeated);
                }
            }
            if chain.len() >= MAX_STYLE_DEPTH || repeated {
                warn(warnings, CYCLE_WARNING);
                return chain;
            }
            let style = match self.style_of(current) {
                Some(s) => s,
                None => {
                    warn(warnings, MISSING_STYLE_WARNING);
                    return chain;
                },
            };
            let ghost previous = current@;
            assert(!ids.contains(previous));
            assert(acc.len() < MAX_STYLE_DEPTH);
            assert(self.style(previous) == Some(*style));
            assert(self.chain_from(previous, acc, ids) == self.chain_from(
                based_on(*style),
                acc.push(*style),
                ids.push(previous),
            ));
            chain.push(style);
            seen.push(current);
            proof {
                assert(chain@.map_values(|n: &Node| *n) =~= acc.push(*style));
                assert(seen@.map_values(|s: &str| s@) =~= ids.push(current@));
            }
            current = match style.child("basedOn") {
                Some(n) => n.attr("val"),
                None => {
                    proof {
                        reveal_strlit("");
                    }
                    ""
                },
            };
            assert(current@ == based_on(*style));
        }
    }
}

/// The outline level (1 to 9) a paragraph takes from an explicit
/// `outlineLvl` (its own, else the first in its style chain), else from a
/// heading style name: the paragraph's style id, else the first style of the
/// chain whose id or name is a heading.
pub open spec fn outline_spec(properties: Option<Node>, id: Seq<char>, chain: Seq<Node>) -> Option<u8> {
    let own = match properties {
        Some(p) => child_spec(p, "outlineLvl"@),
        None => None,
    };
    let outline = match own {
        Some(o) => Some(o),
        None => first_outline(chain),
    };
    match outline {
        Some(o) => match parse_unsigned_spec(utf8(attr_spec(o, "val"@)), 255) {
            Some(v) => if v < 9 {
                Some((v + 1) as u8)
            } else {
                None
            },
            None => None,
        },
        None => match heading_spec(id) {
            Some(level) => Some(level),
            None => first_heading(chain),
        },
    }
}

/// The first `outlineLvl` in the paragraph properties of a style chain.
pub open spec fn first_outline(chain: Seq<Node>) -> Option<Node>
    decreases chain.len(),
{
    if chain.len() == 0 {
        None
    } else {
        match child_spec(chain[0], "pPr"@) {
            Some(p) => match child_spec(p, "outlineLvl"@) {
                Some(o) => Some(o),
                None => first_outline(chain.drop_first()),
            },
            None => first_outline(chain.drop_first()),
        }
    }
}

/// The first heading level named by a style id or style name in a chain.
pub open spec fn first_heading(chain: Seq<Node>) -> Option<u8>
    decreases chain.len(),
{
    if chain.len() == 0 {
        None
    } else {
        match heading_spec(attr_spec(chain[0], "styleId"@)) {
            Some(level) => Some(level),
            None => match child_spec(chain[0], "name"@) {
                Some(n) => match heading_spec(attr_spec(n, "val"@)) {
                    Some(level) => Some(level),
                    None => first_heading(chain.drop_first()),
                },
                None => first_heading(chain.drop_first()),
            },
        }
    }
}

fn find_outline<'a>(chain: &Vec<&'a Node>) -> (r: Option<&'a Node>)
    ensures
        match first_outline(chain@.map_values(|n: &Node| *n)) {
            Some(o) => r == Some(&o),
            None => r is None,
        },
{
    let ghost styles = chain@.map_values(|n: &Node| *n);
    let mut i: usize = 0;
    assert(styles.skip(0) =~= styles);
    while i < chain.len()
        invariant
            i <= chain@.len(),
            styles == chain@.map_values(|n: &Node| *n),
            first_outline(styles) == first_outline(styles.skip(i as int)),
        decreases chain.len() - i,
    {
        assert(styles.skip(i as int)[0] == *chain@[i as int]);
        assert(styles.skip(i as int).drop_first() =~= styles.skip(i + 1));
        if let Some(p) = chain[i].child("pPr") {
            if let Some(o) = p.child("outlineLvl") {
                return Some(o);
            }
        }
        i = i + 1;
    }
    None
}

fn find_heading(chain: &Vec<&Node>) -> (r: Option<u8>)
    ensures
        r == first_heading(chain@.map_values(|n: &Node| *n)),
{
    let ghost styles = chain@.map_values(|n: &Node| *n);
    let mut i: usize = 0;
    assert(styles.skip(0) =~= styles);
    while i < chain.len()
        invariant
            i <= chain@.len(),
            styles == chain@.map_values(|n: &Node| *n),
            first_heading(styles) == first_heading(styles.skip(i as int)),
        decreases chain.len() - i,
    {
        assert(styles.skip(i as int)[0] == *chain@[i as int]);
        assert(styles.skip(i as int).drop_first() =~= styles.skip(i + 1));
        let style = chain[i];
        if let Some(level) = heading(style.attr("styleId")) {
            return Some(level);
        }
        if let Some(n) = style.child("name") {
            if let Some(level) = heading(n.attr("val")) {
                return Some(level);
            }
        }
        i = i + 1;
    }
    None
}

/// The outline level of a paragraph (see `outline_spec`).
pub fn outline_level(properties: Option<&Node>, id: &str, chain: &Vec<&Node>) -> (r: Option<u8>)
    ensures
        r == outline_spec(
            match properties {
                Some(p) => Some(*p),
                None => None,
            },
            id@,
            chain@.map_values(|n: &Node| *n),
        ),
{
    let own = match properties {
        Some(p) => p.child("outlineLvl"),
        None => None,
    };
    let outline = match own {
        Some(o) => Some(o),
        None => find_outline(chain),
    };
    match outline {
        Some(o) => match parse_unsigned(o.attr("val").as_bytes(), 255) {
            Some(v) => if v < 9 {
                Some((v + 1) as u8)
            } else {
                None
            },
            None => None,
        },
        None => match heading(id) {
            Some(level) => Some(level),
            None => find_heading(chain),
        },
    }
}


/// Where a document's styles are when no relationship names them: next to
/// the main part, as `styles.xml`.
pub open spec fn default_styles_part_spec(main: Seq<char>) -> Seq<char> {
    match crate::package::last_slash(utf8(main), utf8(main).len() as int) {
        Some(k) => vstd::utf8::decode_utf8(utf8(main).take(k)) + "/styles.xml"@,
        None => "styles.xml"@,
    }
}

pub fn default_styles_part(main: &str) -> (r: String)
    ensures
        r@ == default_styles_part_spec(main@),
{
    match crate::package::find_last_slash(main.as_bytes()) {
        None => "styles.xml".to_owned(),
        Some(k) => {
            proof {
                vstd::utf8::encode_utf8_valid_utf8(main@);
                vstd::utf8::is_char_boundary_iff_not_is_continuation_byte(main.spec_bytes(), k as int);
            }
            let (dir, _) = main.split_at(k);
            proof {
                vstd::utf8::encode_utf8_decode_utf8(dir@);
                assert(dir.spec_bytes() == utf8(main@).take(k as int));
            }
            let mut r = dir.to_owned();
            r.append("/styles.xml");
            r
        },
    }
}

} // verus!
