//! Owned XML element trees and the queries the readers make on them.
use crate::assoc::{get_spec, insert, unique_keys};
use crate::error::Error;
use crate::text::{ends_with, str_eq, str_from_utf8, utf8};
use roxmltree::{Document, ParsingOptions};
use vstd::prelude::*;
use vstd::string::StringExecFns;
use vstd::utf8::*;

verus! {

broadcast use vstd::seq::group_seq_axioms;

/// An XML element: local name, attributes (local name to value; attributes in
/// the relationships namespace also appear under `r:` + name), element
/// children in document order and the concatenated text children.
#[derive(Debug)]
pub struct Node {
    pub name: String,
    pub attrs: Vec<(String, String)>,
    pub children: Vec<Node>,
    pub text: String,
}

/// The value stored under `key` in an association list (first match).
pub open spec fn lookup(attrs: Seq<(String, String)>, key: Seq<char>) -> Option<Seq<char>>
    decreases attrs.len(),
{
    if attrs.len() == 0 {
        None
    } else if attrs[0].0@ == key {
        Some(attrs[0].1@)
    } else {
        lookup(attrs.drop_first(), key)
    }
}

/// The attribute's value, empty when absent.
pub open spec fn attr_spec(node: Node, name: Seq<char>) -> Seq<char> {
    match lookup(node.attrs@, name) {
        Some(v) => v,
        None => Seq::<char>::empty(),
    }
}

/// The first child named `name`.
pub open spec fn child_spec(node: Node, name: Seq<char>) -> Option<Node> {
    match first_named(node.children@, name) {
        Some(i) => Some(node.children@[i]),
        None => None,
    }
}

/// Index of the first child named `name`.
pub open spec fn first_named(children: Seq<Node>, name: Seq<char>) -> Option<int>
    decreases children.len(),
{
    if children.len() == 0 {
        None
    } else if children[0].name@ == name {
        Some(0)
    } else {
        match first_named(children.drop_first(), name) {
            Some(i) => Some(i + 1),
            None => None,
        }
    }
}

/// The first node named `name` in a pre-order walk of the tree.
pub open spec fn descendant_spec(node: Node, name: Seq<char>) -> Option<Node>
    decreases node, 1int,
{
    if node.name@ == name {
        Some(node)
    } else {
        descendant_in(node, name, 0)
    }
}

/// The first match of `descendant_spec` among the children from index `i` on.
pub open spec fn descendant_in(node: Node, name: Seq<char>, i: int) -> Option<Node>
    decreases node, 0int, node.children@.len() - i,
{
    if i < 0 || i >= node.children@.len() {
        None
    } else {
        proof {
            assert(decreases_to!(node => node.children));
            assert(decreases_to!(node.children => node.children@));
            assert(decreases_to!(node.children@ => node.children@[i]));
        }
        match descendant_spec(node.children@[i], name) {
            Some(found) => Some(found),
            None => descendant_in(node, name, i + 1),
        }
    }
}

proof fn lemma_lookup_index(attrs: Seq<(String, String)>, key: Seq<char>, i: int)
    requires
        0 <= i < attrs.len(),
        attrs[i].0@ == key,
        forall|j: int| 0 <= j < i ==> attrs[j].0@ != key,
    ensures
        lookup(attrs, key) == Some(attrs[i].1@),
    decreases i,
{
    if i > 0 {
        assert forall|j: int| 0 <= j < i - 1 implies attrs.drop_first()[j].0@ != key by {
            assert(attrs.drop_first()[j] == attrs[j + 1]);
        }
        lemma_lookup_index(attrs.drop_first(), key, i - 1);
    }
}

proof fn lemma_lookup_none(attrs: Seq<(String, String)>, key: Seq<char>)
    requires
        forall|j: int| 0 <= j < attrs.len() ==> attrs[j].0@ != key,
    ensures
        lookup(attrs, key) is None,
    decreases attrs.len(),
{
    if attrs.len() > 0 {
        assert forall|j: int| 0 <= j < attrs.len() - 1 implies attrs.drop_first()[j].0@ != key by {
            assert(attrs.drop_first()[j] == attrs[j + 1]);
        }
        lemma_lookup_none(attrs.drop_first(), key);
    }
}

proof fn lemma_first_named_index(children: Seq<Node>, name: Seq<char>, i: int)
    requires
        0 <= i <= children.len(),
        i < children.len() ==> children[i].name@ == name,
        forall|j: int| 0 <= j < i ==> children[j].name@ != name,
    ensures
        first_named(children, name) == (if i < children.len() {
            Some(i)
        } else {
            None
        }),
    decreases i,
{
    if i > 0 {
        assert forall|j: int| 0 <= j < i - 1 implies children.drop_first()[j].name@ != name by {
            assert(children.drop_first()[j] == children[j + 1]);
        }
        lemma_first_named_index(children.drop_first(), name, i - 1);
    } else if children.len() > 0 {
    }
}

pub proof fn lemma_lookup_index_pub(attrs: Seq<(String, String)>, key: Seq<char>, i: int)
    requires
        0 <= i < attrs.len(),
        attrs[i].0@ == key,
        forall|j: int| 0 <= j < i ==> attrs[j].0@ != key,
    ensures
        lookup(attrs, key) == Some(attrs[i].1@),
{
    lemma_lookup_index(attrs, key, i);
}

pub proof fn lemma_lookup_none_pub(attrs: Seq<(String, String)>, key: Seq<char>)
    requires
        forall|j: int| 0 <= j < attrs.len() ==> attrs[j].0@ != key,
    ensures
        lookup(attrs, key) is None,
{
    lemma_lookup_none(attrs, key);
}

impl Node {
    /// The attribute's value, or the empty string when it is absent.
    pub fn attr(&self, name: &str) -> (r: &str)
        ensures
            r@ == attr_spec(*self, name@),
            r@ == match lookup(self.attrs@, name@) {
                Some(v) => v,
                None => Seq::<char>::empty(),
            },
    {
        let mut i: usize = 0;
        while i < self.attrs.len()
            invariant
                i <= self.attrs@.len(),
                forall|j: int| 0 <= j < i ==> self.attrs@[j].0@ != name@,
            decreases self.attrs.len() - i,
        {
            if str_eq(self.attrs[i].0.as_str(), name) {
                proof {
                    lemma_lookup_index(self.attrs@, name@, i as int);
                }
                return self.attrs[i].1.as_str();
            }
            i = i + 1;
        }
        proof {
            lemma_lookup_none(self.attrs@, name@);
            reveal_strlit("");
        }
        ""
    }

    /// The first child element named `name`.
    pub fn child(&self, name: &str) -> (r: Option<&Node>)
        ensures
            match child_spec(*self, name@) {
                Some(c) => r == Some(&c),
                None => r is None,
            },
            match first_named(self.children@, name@) {
                Some(i) => r == Some(&self.children@[i]),
                None => r is None,
            },
    {
        let mut i: usize = 0;
        while i < self.children.len()
            invariant
                i <= self.children@.len(),
                forall|j: int| 0 <= j < i ==> self.children@[j].name@ != name@,
            decreases self.children.len() - i,
        {
            if str_eq(self.children[i].name.as_str(), name) {
                proof {
                    lemma_first_named_index(self.children@, name@, i as int);
                }
                return Some(&self.children[i]);
            }
            i = i + 1;
        }
        proof {
            lemma_first_named_index(self.children@, name@, i as int);
        }
        None
    }

    /// The child elements named `name`, in document order.
    pub fn named(&self, name: &str) -> (r: Vec<&Node>)
        ensures
            r@.map_values(|c: &Node| *c) == self.children@.filter(|c: Node| c.name@ == name@),
    {
        let mut r: Vec<&Node> = Vec::new();
        let mut i: usize = 0;
        while i < self.children.len()
            invariant
                i <= self.children@.len(),
                r@.map_values(|c: &Node| *c) == self.children@.take(i as int).filter(
                    |c: Node| c.name@ == name@,
                ),
            decreases self.children.len() - i,
        {
            proof {
                reveal_with_fuel(Seq::<Node>::filter, 1);
                assert(self.children@.take(i + 1).drop_last() =~= self.children@.take(i as int));
            }
            if str_eq(self.children[i].name.as_str(), name) {
                r.push(&self.children[i]);
            }
            proof {
                assert(r@.map_values(|c: &Node| *c) =~= self.children@.take(i + 1).filter(
                    |c: Node| c.name@ == name@,
                ));
            }
            i = i + 1;
        }
        assert(self.children@.take(i as int) =~= self.children@);
        r
    }

    /// The first element named `name` in a pre-order walk starting at this node.
    pub fn descendant(&self, name: &str) -> (r: Option<&Node>)
        ensures
            match descendant_spec(*self, name@) {
                Some(found) => r == Some(&found),
                None => r is None,
            },
        decreases *self, 1int,
    {
        if str_eq(self.name.as_str(), name) {
            return Some(self);
        }
        self.descendant_from(name, 0)
    }

    /// The first match of `descendant` among the children from `start` on.
    fn descendant_from(&self, name: &str, start: usize) -> (r: Option<&Node>)
        requires
            start <= self.children@.len(),
        ensures
            match descendant_in(*self, name@, start as int) {
                Some(found) => r == Some(&found),
                None => r is None,
            },
        decreases *self, 0int, self.children@.len() - start,
    {
        if start >= self.children.len() {
            return None;
        }
        proof {
            assert(decreases_to!(*self => self.children));
            assert(decreases_to!(self.children => self.children@));
            assert(decreases_to!(self.children@ => self.children@[start as int]));
        }
        match self.children[start].descendant(name) {
            Some(found) => Some(found),
            None => self.descendant_from(name, start + 1),
        }
    }
}

// ---------------------------------------------------------------------------
// Parsing

/// Most element nesting levels a part may hold.
pub const MAX_DEPTH: usize = 64;

/// Most nodes the XML parser may create for one part.
pub const MAX_NODES: u32 = 60000;

/// Namespace suffix of the relationship attributes (`r:id`, `r:embed`, ...).
pub const RELATIONSHIPS: &'static str = "/relationships";

/// One node of a parsed document: whether it is an element, whether it is
/// text, its local name, its text, its attributes (local name, value,
/// namespace) and the ids of its children.
pub type XmlItem = (bool, bool, String, Option<String>, Vec<(String, String, Option<String>)>, Vec<usize>);

/// An `XmlItem` as values.
pub type ItemView = (
    bool,
    bool,
    Seq<char>,
    Option<Seq<char>>,
    Seq<(Seq<char>, Seq<char>, Option<Seq<char>>)>,
    Seq<usize>,
);

/// The characters of an optional string.
pub open spec fn opt_text(o: Option<String>) -> Option<Seq<char>> {
    match o {
        Some(t) => Some(t@),
        None => None,
    }
}

/// An attribute as characters: local name, value, namespace.
pub open spec fn attribute_view(a: (String, String, Option<String>)) -> (Seq<char>, Seq<char>, Option<Seq<char>>) {
    (a.0@, a.1@, opt_text(a.2))
}

/// An item as values.
pub open spec fn item_view(i: XmlItem) -> ItemView {
    (
        i.0,
        i.1,
        i.2@,
        opt_text(i.3),
        i.4@.map_values(|a: (String, String, Option<String>)| attribute_view(a)),
        i.5@,
    )
}

/// The document the XML parser reads from `text` under the given options:
/// the id of its root element and its nodes, each at its id; nothing when
/// the parser refuses the text.
pub uninterp spec fn xml_document(text: Seq<char>, allow_dtd: bool, nodes_limit: u32) -> Option<(usize, Seq<ItemView>)>;

/// Every id of a document names one of its nodes.
pub open spec fn well_linked(d: (usize, Seq<ItemView>)) -> bool {
    &&& d.0 < d.1.len()
    &&& forall|k: int, j: int|
        0 <= k < d.1.len() && 0 <= j < d.1[k].5.len() ==> #[trigger] d.1[k].5[j] < d.1.len()
}

/// `roxmltree::Document::parse_with_options` with the given DTD switch and
/// node limit, its nodes read in id order (`Document::descendants` walks the
/// node list from the root) by `is_element`, `is_text`, the local name of
/// `tag_name`, `text`, `attributes` and the ids of `children`, with the id
/// of `root_element`; a refusal is handed on as the parser's message.
/// Claimed without proof: the call succeeds exactly when `xml_document`
/// names a document, and then hands back its root id and its nodes; every
/// id the parser gives (`NodeId`, an index into its node list) lies within
/// that list.
#[verifier::external_body]
fn parse_document(text: &str, allow_dtd: bool, nodes_limit: u32) -> (r: Result<(usize, Vec<XmlItem>), String>)
    ensures
        match xml_document(text@, allow_dtd, nodes_limit) {
            Some(d) => r matches Ok((root, items)) && root == d.0 && items@.map_values(
                |i: XmlItem| item_view(i),
            ) == d.1 && well_linked(d),
            None => r is Err,
        },
{
    let doc = Document::parse_with_options(text, ParsingOptions { allow_dtd, nodes_limit })
        .map_err(|e| e.to_string())?;
    let items = doc.descendants().map(|n| (n.is_element(), n.is_text(), n.tag_name().name().into(),
        n.text().map(Into::into), n.attributes().map(|a| (a.name().into(), a.value().into(),
        a.namespace().map(Into::into))).collect(), n.children().map(|c| c.id().get_usize()).collect()));
    Ok((doc.root_element().id().get_usize(), items.collect()))
}

/// `String::from_utf16` from std: the string the UTF-16 units encode, or
/// nothing when they hold an unpaired surrogate.
#[verifier::external_body]
fn string_from_utf16(units: &[u16]) -> (r: Option<String>)
    ensures
        match utf16_decode(units@) {
            Some(c) => r matches Some(s) && s@ == c,
            None => r is None,
        },
{
    String::from_utf16(units).ok()
}

/// The characters that UTF-16 units encode.
pub open spec fn utf16_decode(u: Seq<u16>) -> Option<Seq<char>>
    decreases u.len(),
{
    if u.len() == 0 {
        Some(Seq::empty())
    } else if u[0] < 0xD800 || u[0] >= 0xE000 {
        match utf16_decode(u.drop_first()) {
            Some(r) => Some(seq![u[0] as char] + r),
            None => None,
        }
    } else if u[0] < 0xDC00 && u.len() >= 2 && 0xDC00 <= u[1] < 0xE000 {
        match utf16_decode(u.skip(2)) {
            Some(r) => Some(seq![(0x10000 + (u[0] - 0xD800) * 0x400 + (u[1] - 0xDC00)) as char] + r),
            None => None,
        }
    } else {
        None
    }
}

/// The input starts with a UTF-16 byte order mark.
pub open spec fn has_utf16_bom(b: Seq<u8>) -> bool {
    b.len() >= 2 && ((b[0] == 0xff && b[1] == 0xfe) || (b[0] == 0xfe && b[1] == 0xff))
}

/// The 16-bit units after the byte order mark, little-endian when `little`.
pub open spec fn utf16_units(b: Seq<u8>, little: bool) -> Seq<u16> {
    Seq::new(
        ((b.len() - 2) / 2) as nat,
        |i: int|
            if little {
                (b[2 + 2 * i] + 256 * b[3 + 2 * i]) as u16
            } else {
                (256 * b[2 + 2 * i] + b[3 + 2 * i]) as u16
            },
    )
}

/// The text of an XML part: UTF-16 after a byte order mark, else UTF-8.
pub open spec fn xml_text(b: Seq<u8>) -> Result<Seq<char>, Error> {
    if has_utf16_bom(b) {
        if b.len() % 2 != 0 {
            Err(Error::Invalid("Truncated UTF-16 XML"))
        } else {
            match utf16_decode(utf16_units(b, b[0] == 0xff)) {
                Some(c) => Ok(c),
                None => Err(Error::Invalid("Invalid UTF-16 XML")),
            }
        }
    } else if valid_utf8(b) {
        Ok(decode_utf8(b))
    } else {
        Err(Error::Invalid("Invalid UTF-8 XML"))
    }
}

/// Decodes the text of an XML part.
pub fn decode_text(bytes: &[u8]) -> (r: Result<String, Error>)
    ensures
        match xml_text(bytes@) {
            Ok(c) => r matches Ok(s) && s@ == c,
            Err(e) => r == Err::<String, Error>(e),
        },
{
    let n = bytes.len();
    if n >= 2 && ((bytes[0] == 0xff && bytes[1] == 0xfe) || (bytes[0] == 0xfe && bytes[1] == 0xff)) {
        if n % 2 != 0 {
            return Err(Error::Invalid("Truncated UTF-16 XML"));
        }
        let little = bytes[0] == 0xff;
        let mut units: Vec<u16> = Vec::new();
        let mut i: usize = 2;
        while i < n
            invariant
                n == bytes@.len(),
                n % 2 == 0,
                2 <= i <= n,
                i % 2 == 0,
                units@ =~= utf16_units(bytes@, little).take((i - 2) / 2),
                little == (bytes@[0] == 0xff),
            decreases n - i,
        {
            let a = bytes[i] as u16;
            let b = bytes[i + 1] as u16;
            let unit: u16 = if little {
                a + 256 * b
            } else {
                256 * a + b
            };
            units.push(unit);
            i = i + 2;
        }
        assert(units@ =~= utf16_units(bytes@, little));
        match string_from_utf16(units.as_slice()) {
            Some(s) => Ok(s),
            None => Err(Error::Invalid("Invalid UTF-16 XML")),
        }
    } else {
        match str_from_utf8(bytes) {
            Some(s) => Ok(s.to_owned()),
            None => Err(Error::Invalid("Invalid UTF-8 XML")),
        }
    }
}

/// `s` ends with `suffix` (compared as UTF-8).
pub open spec fn ends_with_spec(s: Seq<char>, suffix: Seq<char>) -> bool {
    utf8(suffix).len() <= utf8(s).len() && utf8(s).skip(utf8(s).len() - utf8(suffix).len())
        == utf8(suffix)
}

/// An attribute in the relationships namespace.
pub open spec fn relationship_namespace(ns: Option<Seq<char>>) -> bool {
    ns matches Some(n) && ends_with_spec(n, RELATIONSHIPS@)
}

/// The value an element's attribute list gives `key`: the last attribute
/// of that local name, or, for `r:` + name, the last relationship attribute
/// of that name.
pub open spec fn attribute_value(attrs: Seq<(Seq<char>, Seq<char>, Option<Seq<char>>)>, key: Seq<char>) -> Option<Seq<char>>
    decreases attrs.len(),
{
    if attrs.len() == 0 {
        None
    } else {
        let a = attrs.last();
        if relationship_namespace(a.2) && key == seq!['r', ':'] + a.0 {
            Some(a.1)
        } else if key == a.0 {
            Some(a.1)
        } else {
            attribute_value(attrs.drop_last(), key)
        }
    }
}

proof fn lemma_lookup_get(s: Seq<(String, String)>, key: Seq<char>)
    ensures
        lookup(s, key) == match get_spec(s, key) {
            Some(v) => Some(v@),
            None => None,
        },
    decreases s.len(),
{
    if s.len() > 0 && s[0].0@ != key {
        lemma_lookup_get(s.drop_first(), key);
    }
}

/// The attribute map of an element: every attribute under its local name,
/// and those in the relationships namespace also under `r:` + name; a later
/// attribute replaces an earlier one of the same key.
pub fn owned_attributes(attrs: &Vec<(String, String, Option<String>)>) -> (r: Vec<(String, String)>)
    ensures
        unique_keys(r@),
        forall|key: Seq<char>| #[trigger] lookup(r@, key) == attribute_value(
            attrs@.map_values(|a: (String, String, Option<String>)| attribute_view(a)),
            key,
        ),
{
    let ghost view = attrs@.map_values(|a: (String, String, Option<String>)| attribute_view(a));
    let mut r: Vec<(String, String)> = Vec::new();
    let mut i: usize = 0;
    while i < attrs.len()
        invariant
            i <= attrs@.len(),
            view == attrs@.map_values(|a: (String, String, Option<String>)| attribute_view(a)),
            unique_keys(r@),
            forall|key: Seq<char>| #[trigger] lookup(r@, key) == attribute_value(view.take(i as int), key),
        decreases attrs.len() - i,
    {
        let name = attrs[i].0.as_str();
        let value = attrs[i].1.as_str();
        let ghost before = r@;
        let ghost a = view[i as int];
        assert(a == attribute_view(attrs@[i as int]));
        assert(view.take(i + 1).drop_last() =~= view.take(i as int));
        assert(view.take(i + 1).last() == a);
        insert(&mut r, name.to_owned(), value.to_owned());
        let ghost middle = r@;
        let related = match &attrs[i].2 {
            Some(ns) => ends_with(ns.as_str(), RELATIONSHIPS),
            None => false,
        };
        assert(related == relationship_namespace(a.2));
        if related {
            let mut key = String::from_str("r:");
            key.append(name);
            proof {
                reveal_strlit("r:");
                assert("r:"@ =~= seq!['r', ':']);
            }
            insert(&mut r, key, value.to_owned());
        }
        proof {
            assert forall|key: Seq<char>| #[trigger] lookup(r@, key) == attribute_value(
                view.take(i + 1),
                key,
            ) by {
                lemma_lookup_get(r@, key);
                lemma_lookup_get(middle, key);
                lemma_lookup_get(before, key);
                if related {
                    assert((seq!['r', ':'] + a.0).len() != a.0.len());
                }
            }
        }
        i = i + 1;
    }
    assert(view.take(attrs@.len() as int) =~= view);
    r
}

/// Every element of the tree lies within `levels` levels of nesting and
/// holds each attribute key once.
pub open spec fn sound(n: Node, levels: int) -> bool
    decreases n, 1int,
{
    levels >= 1 && unique_keys(n.attrs@) && sound_from(n, levels, 0)
}

/// `sound` for the children from index `i` on, one level down.
pub open spec fn sound_from(n: Node, levels: int, i: int) -> bool
    decreases n, 0int, n.children@.len() - i,
{
    if i < 0 || i >= n.children@.len() {
        true
    } else {
        proof {
            assert(decreases_to!(n => n.children));
            assert(decreases_to!(n.children => n.children@));
            assert(decreases_to!(n.children@ => n.children@[i]));
        }
        sound(n.children@[i], levels - 1) && sound_from(n, levels, i + 1)
    }
}

proof fn lemma_sound_from(n: Node, levels: int, i: int)
    requires
        0 <= i <= n.children@.len(),
        forall|j: int| i <= j < n.children@.len() ==> sound(#[trigger] n.children@[j], levels - 1),
    ensures
        sound_from(n, levels, i),
    decreases n.children@.len() - i,
{
    if i < n.children@.len() {
        lemma_sound_from(n, levels, i + 1);
    }
}

/// The children of node `id` that are elements, in document order.
pub open spec fn element_kids(items: Seq<ItemView>, id: int) -> Seq<usize> {
    items[id].5.filter(|c: usize| items[c as int].0)
}

/// The text of the text nodes among `kids`, joined in order.
pub open spec fn joined_text(items: Seq<ItemView>, kids: Seq<usize>) -> Seq<char>
    decreases kids.len(),
{
    if kids.len() == 0 {
        Seq::empty()
    } else {
        let c = kids.last() as int;
        let piece = if !items[c].0 && items[c].1 {
            match items[c].3 {
                Some(t) => t,
                None => Seq::empty(),
            }
        } else {
            Seq::empty()
        };
        joined_text(items, kids.drop_last()) + piece
    }
}

/// The element `id`, `depth` levels below the root, has an element within
/// its subtree that lies 64 or more levels deep.
pub open spec fn too_deep(items: Seq<ItemView>, id: int, depth: int) -> bool
    decreases MAX_DEPTH - depth, items[id].5.len() + 1,
{
    depth >= MAX_DEPTH || deep_below(items, items[id].5, depth, items[id].5.len() as int)
}

/// One of the first `n` of `kids`, children of an element `depth` levels
/// deep, is an element that is `too_deep` one level further down.
pub open spec fn deep_below(items: Seq<ItemView>, kids: Seq<usize>, depth: int, n: int) -> bool
    decreases MAX_DEPTH - depth, n,
{
    if depth >= MAX_DEPTH || n <= 0 || n > kids.len() {
        false
    } else {
        deep_below(items, kids, depth, n - 1) || (items[kids[n - 1] as int].0 && too_deep(
            items,
            kids[n - 1] as int,
            depth + 1,
        ))
    }
}

/// `n` is the element tree that node `id` of the parsed document spans:
/// its local name, its attributes as `owned_attributes` maps them, the text
/// of its text children and, in order, one tree for each element child.
pub open spec fn tree_of(items: Seq<ItemView>, id: int, n: Node) -> bool
    decreases n, 1int,
{
    &&& n.name@ == items[id].2
    &&& forall|key: Seq<char>| #[trigger] lookup(n.attrs@, key) == attribute_value(items[id].4, key)
    &&& n.text@ == joined_text(items, items[id].5)
    &&& n.children@.len() == element_kids(items, id).len()
    &&& trees_from(items, element_kids(items, id), n, 0)
}

/// `tree_of` for the children of `n` from index `j` on, against `kids`.
pub open spec fn trees_from(items: Seq<ItemView>, kids: Seq<usize>, n: Node, j: int) -> bool
    decreases n, 0int, n.children@.len() - j,
{
    if j < 0 || j >= n.children@.len() {
        true
    } else {
        proof {
            assert(decreases_to!(n => n.children));
            assert(decreases_to!(n.children => n.children@));
            assert(decreases_to!(n.children@ => n.children@[j]));
        }
        tree_of(items, kids[j] as int, n.children@[j]) && trees_from(items, kids, n, j + 1)
    }
}

proof fn lemma_trees_from(items: Seq<ItemView>, kids: Seq<usize>, n: Node, j: int)
    requires
        0 <= j <= n.children@.len(),
        forall|k: int| j <= k < n.children@.len() ==> tree_of(items, kids[k] as int, #[trigger] n.children@[k]),
    ensures
        trees_from(items, kids, n, j),
    decreases n.children@.len() - j,
{
    if j < n.children@.len() {
        lemma_trees_from(items, kids, n, j + 1);
    }
}

proof fn lemma_deep_below_grows(items: Seq<ItemView>, kids: Seq<usize>, depth: int, a: int, b: int)
    requires
        0 <= a <= b <= kids.len(),
        deep_below(items, kids, depth, a),
    ensures
        deep_below(items, kids, depth, b),
    decreases b - a,
{
    if a < b {
        lemma_deep_below_grows(items, kids, depth, a, b - 1);
    }
}

/// The parsed document's nodes as values.
pub open spec fn items_view(items: Seq<XmlItem>) -> Seq<ItemView> {
    items.map_values(|i: XmlItem| item_view(i))
}

/// Copies the element `id` and its subtree, `depth` levels below the root.
fn owned(items: &Vec<XmlItem>, id: usize, depth: usize) -> (r: Result<Node, Error>)
    requires
        id < items@.len(),
        well_linked((0, items_view(items@))),
    ensures
        too_deep(items_view(items@), id as int, depth as int) ==> r == Err::<Node, Error>(
            Error::Limit("XML nesting exceeds 64 levels"),
        ),
        !too_deep(items_view(items@), id as int, depth as int) ==> (r matches Ok(n) && tree_of(
            items_view(items@),
            id as int,
            n,
        ) && sound(n, MAX_DEPTH - depth)),
    decreases MAX_DEPTH - depth,
{
    let ghost view = items_view(items@);
    if depth >= MAX_DEPTH {
        return Err(Error::Limit("XML nesting exceeds 64 levels"));
    }
    let item = &items[id];
    assert(view[id as int] == item_view(*item));
    let attrs = owned_attributes(&item.4);
    let kids = &item.5;
    let ghost kv = kids@;
    assert(view[id as int].5 == kv);
    let mut children: Vec<Node> = Vec::new();
    let mut text = String::new();
    let mut i: usize = 0;
    while i < kids.len()
        invariant
            depth < MAX_DEPTH,
            id < items@.len(),
            view == items_view(items@),
            well_linked((0, view)),
            kv == kids@,
            kv == view[id as int].5,
            i <= kv.len(),
            !deep_below(view, kv, depth as int, i as int),
            text@ == joined_text(view, kv.take(i as int)),
            children@.len() == kv.take(i as int).filter(|c: usize| view[c as int].0).len(),
            forall|j: int|
                0 <= j < children@.len() ==> tree_of(
                    view,
                    kv.take(i as int).filter(|c: usize| view[c as int].0)[j] as int,
                    #[trigger] children@[j],
                ) && sound(children@[j], MAX_DEPTH - depth - 1),
        decreases kids.len() - i,
    {
        let child = kids[i];
        assert(child < view.len());
        let c = &items[child];
        assert(view[child as int] == item_view(*c));
        let ghost before = kv.take(i as int).filter(|c: usize| view[c as int].0);
        proof {
            reveal_with_fuel(Seq::<usize>::filter, 1);
            assert(kv.take(i + 1).drop_last() =~= kv.take(i as int));
            assert(kv.take(i + 1).last() == child);
        }
        if c.0 {
            match owned(items, child, depth + 1) {
                Ok(n) => {
                    children.push(n);
                    proof {
                        assert(kv.take(i + 1).filter(|c: usize| view[c as int].0) =~= before.push(child));
                    }
                },
                Err(e) => {
                    proof {
                        assert(deep_below(view, kv, depth as int, i + 1));
                        lemma_deep_below_grows(view, kv, depth as int, i + 1, kv.len() as int);
                    }
                    return Err(e);
                },
            }
        } else {
            proof {
                assert(kv.take(i + 1).filter(|c: usize| view[c as int].0) =~= before);
            }
            if c.1 {
                match &c.3 {
                    Some(t) => text.append(t.as_str()),
                    None => {},
                }
            }
        }
        i = i + 1;
    }
    assert(kv.take(kv.len() as int) =~= kv);
    let name = item.2.clone();
    let n = Node { name, attrs, children, text };
    proof {
        lemma_trees_from(view, element_kids(view, id as int), n, 0);
        lemma_sound_from(n, MAX_DEPTH - depth, 0);
    }
    Ok(n)
}

/// The element tree that `parse` builds from the bytes of a part.
pub open spec fn xml_tree(bytes: Seq<u8>, n: Node) -> bool {
    &&& xml_text(bytes) matches Ok(text)
    &&& xml_document(text, false, MAX_NODES) matches Some(d)
    &&& !too_deep(d.1, d.0 as int, 0)
    &&& tree_of(d.1, d.0 as int, n)
}

/// `r` is what parsing these bytes gives: the decoding error, the parser's
/// refusal, the nesting error, or the element tree.
pub open spec fn parse_result(bytes: Seq<u8>, r: Result<Node, Error>) -> bool {
    match xml_text(bytes) {
        Err(e) => r == Err::<Node, Error>(e),
        Ok(text) => match xml_document(text, false, MAX_NODES) {
            None => r matches Err(Error::Xml(_)),
            Some(d) => if too_deep(d.1, d.0 as int, 0) {
                r == Err::<Node, Error>(Error::Limit("XML nesting exceeds 64 levels"))
            } else {
                r matches Ok(n) && xml_tree(bytes, n) && sound(n, MAX_DEPTH as int)
            },
        },
    }
}

/// The bytes decode, the parser accepts the text and its elements nest
/// fewer than 64 levels deep.
pub open spec fn parses(bytes: Seq<u8>) -> bool {
    &&& xml_text(bytes) matches Ok(text)
    &&& xml_document(text, false, MAX_NODES) matches Some(d)
    &&& !too_deep(d.1, d.0 as int, 0)
}

/// Parses an XML part: UTF-16 (after a byte order mark) or UTF-8 text,
/// without DTDs and with at most 60000 nodes, into an owned element tree of
/// at most 64 levels.
pub fn parse(bytes: &[u8]) -> (r: Result<Node, Error>)
    ensures
        parse_result(bytes@, r),
        parses(bytes@) ==> r is Ok,
{
    let text = decode_text(bytes)?;
    let (root, items) = match parse_document(text.as_str(), false, MAX_NODES) {
        Ok(d) => d,
        Err(e) => return Err(Error::Xml(e)),
    };
    owned(&items, root, 0)
}


/// A six-digit hexadecimal RGB value (as `u32::from_str_radix` reads it,
/// which allows a leading `+`) made opaque; anything else gives the
/// fallback.
pub open spec fn color_spec(value: Seq<u8>, fallback: u32) -> u32 {
    let digits = if value.len() > 1 && value[0] == 43 {
        value.drop_first()
    } else {
        value
    };
    if value.len() == 6 && digits.len() > 0 && crate::xlsx::colors::all_hex(digits) {
        (0xff000000 + crate::xlsx::colors::hex_value(digits)) as u32
    } else {
        fallback
    }
}

pub fn color(value: &str, fallback: u32) -> (r: u32)
    ensures
        r == color_spec(utf8(value@), fallback),
{
    let b = value.as_bytes();
    if b.len() != 6 {
        return fallback;
    }
    let start: usize = if b[0] == 43 {
        1
    } else {
        0
    };
    let mut v: u32 = 0;
    let mut i: usize = start;
    let ghost digits = if start == 1 {
        b@.drop_first()
    } else {
        b@
    };
    while i < 6
        invariant
            b@ == utf8(value@),
            b@.len() == 6,
            start == (if b@[0] == 43 { 1usize } else { 0usize }),
            start <= i <= 6,
            digits == b@.skip(start as int),
            crate::xlsx::colors::all_hex(digits.take(i - start)),
            v == crate::xlsx::colors::hex_value(digits.take(i - start)),
            v < crate::xlsx::colors::pow16((i - start) as nat),
        decreases 6 - i,
    {
        let c = b[i];
        let d: u32 = if 48 <= c && c <= 57 {
            (c - 48) as u32
        } else if 97 <= c && c <= 102 {
            (c - 87) as u32
        } else if 65 <= c && c <= 70 {
            (c - 55) as u32
        } else {
            assert(digits[i - start] == c);
            assert(crate::xlsx::colors::hex_digit(digits[i - start]) is None);
            assert(!crate::xlsx::colors::all_hex(digits));
            return fallback;
        };
        proof {
            assert(crate::xlsx::colors::pow16((i - start) as nat) <= crate::xlsx::colors::pow16(5)) by {
                reveal_with_fuel(crate::xlsx::colors::pow16, 7);
            }
            assert(crate::xlsx::colors::pow16(5) == 0x100000) by {
                reveal_with_fuel(crate::xlsx::colors::pow16, 7);
            }
            assert(digits.take(i - start + 1).drop_last() =~= digits.take(i - start));
            assert(digits[i - start] == c);
            assert forall|j: int| 0 <= j < i - start + 1 implies crate::xlsx::colors::hex_digit(
                #[trigger] digits.take(i - start + 1)[j],
            ) is Some by {
                if j < i - start {
                    assert(digits.take(i - start + 1)[j] == digits.take(i - start)[j]);
                }
            }
        }
        v = v * 16 + d;
        i = i + 1;
    }
    assert(digits.take(6 - start) =~= digits);
    assert(v < 0x1000000) by {
        reveal_with_fuel(crate::xlsx::colors::pow16, 8);
    }
    if start == 1 {
        assert(digits.len() > 0);
    }
    0xff000000 + v
}

} // verus!
