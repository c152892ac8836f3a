//! Package parts of a presentation read as XML with their relationships, and
//! a small cache of the layout, master and theme parts that slides share.
use crate::error::Error;
use crate::package::{
    first_failure, part_entry, part_root, related_error, related_part, related_ready, relation_part_spec,
    relations_error, relations_of, relationship_nodes, xml_error, xml_ready, Entry, Package,
};
use crate::text::utf8;
use crate::text::str_eq;
use crate::xml::Node;
use std::rc::Rc;
use vstd::prelude::*;

verus! {

/// A package part: its path, XML root and relationship targets by id.
pub struct Part {
    pub path: String,
    pub root: Node,
    pub rels: Vec<(String, String)>,
}

impl Part {
    /// Reads a part and its relationships.
    pub fn read(pkg: &mut Package, path: &str) -> (r: Result<Part, Error>)
        requires
            old(pkg).wf(),
        ensures
            final(pkg).wf(),
            final(pkg).entries() == old(pkg).entries(),
            r matches Ok(p) ==> p.path@ == path@ && crate::assoc::unique_keys(p.rels@) && part_read(
                old(pkg).entries(),
                p,
            ),
            !old(pkg).holds(path@) ==> (r matches Err(Error::MissingPart(name)) && name@ == path@),
            part_ready(old(pkg).entries(), path@, old(pkg).read_total()) ==> r is Ok,
            r matches Err(x) ==> part_error(old(pkg).entries(), path@, old(pkg).read_total(), x),
    {
        let root = pkg.xml(path)?;
        let rels = pkg.relationships(path)?;
        Ok(Part { path: path.to_owned(), root, rels })
    }
}

/// Budget spent once the part `path` is read, from `total` before.
pub open spec fn after_part(entries: Seq<Entry>, path: Seq<char>, total: u64) -> u64 {
    (total + part_entry(entries, path).2.len()) as u64
}

/// With budget `total` spent, the part `path` reads and parses, and so does
/// its relationship part, if it has one, whose internal targets all
/// resolve.
pub open spec fn part_ready(entries: Seq<Entry>, path: Seq<char>, total: u64) -> bool {
    &&& xml_ready(entries, path, total)
    &&& crate::package::find_entry(entries, relation_part_spec(path)) is None || (xml_ready(
        entries,
        relation_part_spec(path),
        after_part(entries, path, total),
    ) && forall|root: Node|
        #[trigger] part_root(entries, relation_part_spec(path), root) ==> first_failure(
            utf8(path),
            relationship_nodes(root),
        ) is None)
}

/// `x` is an error that `Part::read` can give: one of reading the part, or,
/// once it is read, one of reading its relationships.
pub open spec fn part_error(entries: Seq<Entry>, path: Seq<char>, total: u64, x: Error) -> bool {
    ||| xml_error(entries, path, total, x)
    ||| (xml_ready(entries, path, total) && relations_error(entries, path, after_part(entries, path, total), x))
}

/// `p` is the part of its path as the package with these entries holds it:
/// its element tree and its relationships.
pub open spec fn part_read(entries: Seq<Entry>, p: Part) -> bool {
    &&& part_root(entries, p.path@, p.root)
    &&& relations_of(entries, p.path@, p.rels@)
}

/// Parts a cache keeps at most.
pub const MAX_CACHED_PARTS: usize = 16;

/// XML nodes the cached parts may hold together.
pub const MAX_CACHED_NODES: usize = 100_000;

/// Estimated bytes the cached parts may hold together (16 MiB).
pub const MAX_CACHED_BYTES: usize = 16_777_216;

/// A cached part with its size estimate.
pub struct CacheEntry {
    pub part: Rc<Part>,
    pub nodes: usize,
    pub bytes: usize,
}

/// An entry as a path and its size estimate.
pub open spec fn entry_view(e: CacheEntry) -> (Seq<char>, usize, usize) {
    (e.part.path@, e.nodes, e.bytes)
}

pub open spec fn total_nodes(e: Seq<(Seq<char>, usize, usize)>) -> int
    decreases e.len(),
{
    if e.len() == 0 {
        0
    } else {
        total_nodes(e.drop_first()) + e[0].1
    }
}

pub open spec fn total_bytes(e: Seq<(Seq<char>, usize, usize)>) -> int
    decreases e.len(),
{
    if e.len() == 0 {
        0
    } else {
        total_bytes(e.drop_first()) + e[0].2
    }
}

/// Room for one more part of this size.
pub open spec fn has_room(e: Seq<(Seq<char>, usize, usize)>, nodes: int, bytes: int) -> bool {
    e.len() < MAX_CACHED_PARTS && total_nodes(e) + nodes <= MAX_CACHED_NODES && total_bytes(e)
        + bytes <= MAX_CACHED_BYTES
}

/// The entries left once the oldest are dropped until a part of this size
/// fits.
pub open spec fn evict(e: Seq<(Seq<char>, usize, usize)>, nodes: int, bytes: int) -> Seq<(Seq<char>, usize, usize)>
    decreases e.len(),
{
    if e.len() == 0 || has_room(e, nodes, bytes) {
        e
    } else {
        evict(e.drop_first(), nodes, bytes)
    }
}

/// The cache after a part is offered to it: parts too large to keep are
/// not kept; otherwise the oldest parts are dropped until it fits, and it
/// is added as the newest.
pub open spec fn admitted(e: Seq<(Seq<char>, usize, usize)>, part: (Seq<char>, usize, usize)) -> Seq<(Seq<char>, usize, usize)> {
    if part.1 <= MAX_CACHED_NODES && part.2 <= MAX_CACHED_BYTES {
        evict(e, part.1 as int, part.2 as int).push(part)
    } else {
        e
    }
}

/// Shares a part (`Rc::clone`): another pointer to the same part.
#[verifier::external_body]
fn share(part: &Rc<Part>) -> (r: Rc<Part>)
    ensures
        r == *part,
{
    Rc::clone(part)
}

/// Recently read shared parts, oldest first, with their size estimates.
pub struct Cache {
    entries: Vec<CacheEntry>,
    nodes: usize,
    bytes: usize,
}

proof fn lemma_totals_nonnegative(e: Seq<(Seq<char>, usize, usize)>)
    ensures
        total_nodes(e) >= 0,
        total_bytes(e) >= 0,
    decreases e.len(),
{
    if e.len() > 0 {
        lemma_totals_nonnegative(e.drop_first());
    }
}

proof fn lemma_totals_push(e: Seq<(Seq<char>, usize, usize)>, x: (Seq<char>, usize, usize))
    ensures
        total_nodes(e.push(x)) == total_nodes(e) + x.1,
        total_bytes(e.push(x)) == total_bytes(e) + x.2,
    decreases e.len(),
{
    if e.len() > 0 {
        assert(e.push(x).drop_first() =~= e.drop_first().push(x));
        lemma_totals_push(e.drop_first(), x);
    } else {
        assert(e.push(x).drop_first() =~= e);
    }
}

proof fn lemma_evict_room(e: Seq<(Seq<char>, usize, usize)>, nodes: int, bytes: int)
    requires
        0 <= nodes <= MAX_CACHED_NODES,
        0 <= bytes <= MAX_CACHED_BYTES,
    ensures
        has_room(evict(e, nodes, bytes), nodes, bytes),
    decreases e.len(),
{
    if e.len() > 0 && !has_room(e, nodes, bytes) {
        lemma_evict_room(e.drop_first(), nodes, bytes);
    }
}

impl Cache {
    /// The cached parts as paths and size estimates, oldest first.
    pub closed spec fn view_entries(&self) -> Seq<(Seq<char>, usize, usize)> {
        self.entries@.map_values(|e: CacheEntry| entry_view(e))
    }

    /// The cached parts, oldest first.
    pub closed spec fn parts(&self) -> Seq<Part> {
        self.entries@.map_values(|e: CacheEntry| *e.part)
    }

    /// At most 16 parts, whose totals are kept and within the limits.
    pub closed spec fn wf(&self) -> bool {
        &&& self.nodes == total_nodes(self.view_entries())
        &&& self.bytes == total_bytes(self.view_entries())
        &&& self.view_entries().len() <= MAX_CACHED_PARTS
        &&& self.nodes <= MAX_CACHED_NODES
        &&& self.bytes <= MAX_CACHED_BYTES
    }

    /// An empty cache.
    pub fn new() -> (r: Cache)
        ensures
            r.wf(),
            r.view_entries() == Seq::<(Seq<char>, usize, usize)>::empty(),
            r.parts() == Seq::<Part>::empty(),
    {
        let r = Cache { entries: Vec::new(), nodes: 0, bytes: 0 };
        assert(r.view_entries() =~= Seq::<(Seq<char>, usize, usize)>::empty());
        assert(r.parts() =~= Seq::<Part>::empty());
        r
    }

    /// The cached part with this path.
    pub fn find(&self, path: &str) -> (r: Option<Rc<Part>>)
        ensures
            match r {
                Some(p) => p.path@ == path@ && self.parts().contains(*p) && exists|i: int|
                    0 <= i < self.view_entries().len() && self.view_entries()[i].0 == path@,
                None => forall|i: int|
                    0 <= i < self.view_entries().len() ==> self.view_entries()[i].0 != path@,
            },
    {
        let mut i: usize = 0;
        while i < self.entries.len()
            invariant
                i <= self.entries@.len(),
                forall|j: int| 0 <= j < i ==> self.view_entries()[j].0 != path@,
            decreases self.entries.len() - i,
        {
            assert(self.view_entries()[i as int] == entry_view(self.entries@[i as int]));
            if str_eq(self.entries[i].part.path.as_str(), path) {
                assert(self.parts()[i as int] == *self.entries@[i as int].part);
                return Some(share(&self.entries[i].part));
            }
            i = i + 1;
        }
        None
    }

    /// Offers a part of the given size estimate: a part beyond the limits is
    /// not kept; otherwise the oldest parts are dropped until it fits and it
    /// is kept as the newest.
    pub fn keep(&mut self, part: Rc<Part>, nodes: usize, bytes: usize)
        requires
            old(self).wf(),
        ensures
            final(self).wf(),
            final(self).view_entries() == admitted(old(self).view_entries(), (part.path@, nodes, bytes)),
            nodes > MAX_CACHED_NODES || bytes > MAX_CACHED_BYTES ==> final(self).parts() == old(self).parts(),
            nodes <= MAX_CACHED_NODES && bytes <= MAX_CACHED_BYTES ==> final(self).parts() == old(
                self,
            ).parts().skip(old(self).parts().len() - (final(self).parts().len() - 1)).push(*part),
    {
        if nodes > MAX_CACHED_NODES || bytes > MAX_CACHED_BYTES {
            return;
        }
        proof {
            lemma_evict_room(self.view_entries(), nodes as int, bytes as int);
        }
        loop
            invariant
                self.wf(),
                evict(old(self).view_entries(), nodes as int, bytes as int) == evict(
                    self.view_entries(),
                    nodes as int,
                    bytes as int,
                ),
                nodes <= MAX_CACHED_NODES,
                bytes <= MAX_CACHED_BYTES,
                self.entries@.len() <= old(self).entries@.len(),
                self.parts() == old(self).parts().skip(old(self).entries@.len() - self.entries@.len()),
            ensures
                self.wf(),
                evict(old(self).view_entries(), nodes as int, bytes as int) == self.view_entries(),
                self.entries@.len() <= old(self).entries@.len(),
                self.parts() == old(self).parts().skip(old(self).entries@.len() - self.entries@.len()),
            decreases self.entries@.len(),
        {
            if self.entries.len() < MAX_CACHED_PARTS && self.nodes + nodes <= MAX_CACHED_NODES
                && self.bytes + bytes <= MAX_CACHED_BYTES {
                break;
            }
            if self.entries.len() == 0 {
                break;
            }
            let ghost before = self.view_entries();
            let ghost before_parts = self.parts();
            let first = self.entries.remove(0);
            proof {
                assert(self.parts() =~= before_parts.drop_first());
                assert(self.parts() =~= old(self).parts().skip(old(self).entries@.len() - self.entries@.len()));
                assert(self.view_entries() =~= before.drop_first());
                assert(before[0] == entry_view(first));
                lemma_totals_nonnegative(before.drop_first());
            }
            self.nodes = self.nodes - first.nodes;
            self.bytes = self.bytes - first.bytes;
        }
        let ghost kept = self.view_entries();
        let ghost kept_parts = self.parts();
        proof {
            lemma_evict_room(old(self).view_entries(), nodes as int, bytes as int);
            lemma_totals_push(kept, (part.path@, nodes, bytes));
        }
        self.nodes = self.nodes + nodes;
        self.bytes = self.bytes + bytes;
        self.entries.push(CacheEntry { part, nodes, bytes });
        proof {
            assert(self.view_entries() =~= kept.push((part.path@, nodes, bytes)));
            assert(self.parts() =~= kept_parts.push(*part));
        }
    }
}

/// The cache keeps within its limits whatever is offered to it, and a part
/// that fits the limits is the newest entry afterwards.
pub proof fn law_cache_bounded(e: Seq<(Seq<char>, usize, usize)>, part: (Seq<char>, usize, usize))
    requires
        e.len() <= MAX_CACHED_PARTS,
        total_nodes(e) <= MAX_CACHED_NODES,
        total_bytes(e) <= MAX_CACHED_BYTES,
    ensures
        admitted(e, part).len() <= MAX_CACHED_PARTS,
        total_nodes(admitted(e, part)) <= MAX_CACHED_NODES,
        total_bytes(admitted(e, part)) <= MAX_CACHED_BYTES,
        part.1 <= MAX_CACHED_NODES && part.2 <= MAX_CACHED_BYTES ==> admitted(e, part).last()
            == part,
{
    if part.1 <= MAX_CACHED_NODES && part.2 <= MAX_CACHED_BYTES {
        lemma_evict_room(e, part.1 as int, part.2 as int);
        lemma_totals_push(evict(e, part.1 as int, part.2 as int), part);
    }
}


/// Capacity of a string's buffer (`String::capacity`); what the allocator
/// gave, so nothing is stated of it.
#[verifier::external_body]
fn string_capacity(s: &String) -> usize {
    s.capacity()
}

/// Capacity of a vector's buffer (`Vec::capacity`); nothing is stated of it.
#[verifier::external_body]
fn vec_capacity<T>(v: &Vec<T>) -> usize {
    v.capacity()
}

/// Size of a node record (`std::mem::size_of`).
#[verifier::external_body]
fn node_size() -> usize {
    std::mem::size_of::<Node>()
}

/// `a * b`, saturated at the largest `usize`.
fn saturating_product(a: usize, b: usize) -> (r: usize)
    ensures
        r == capped(a * b),
{
    if a == 0 {
        return 0;
    }
    let q = usize::MAX / a;
    proof {
        vstd::arithmetic::div_mod::lemma_fundamental_div_mod(usize::MAX as int, a as int);
    }
    if b > q {
        assert(a * b > usize::MAX) by (nonlinear_arith)
            requires
                a > 0,
                b >= q + 1,
                usize::MAX as int == a * q + (usize::MAX as int) % (a as int),
                (usize::MAX as int) % (a as int) < a,
        ;
        usize::MAX
    } else {
        assert(a * b <= usize::MAX) by (nonlinear_arith)
            requires
                a > 0,
                b <= q,
                usize::MAX as int == a * q + (usize::MAX as int) % (a as int),
                (usize::MAX as int) % (a as int) >= 0,
        ;
        a * b
    }
}

/// Nodes in a tree.
pub open spec fn node_count(n: Node) -> int
    decreases n, 1int,
{
    1 + count_from(n, 0)
}

/// Nodes in the subtrees of the children from index `i` on.
pub open spec fn count_from(n: Node, i: int) -> int
    decreases n, 0int, n.children@.len() - i,
{
    if i < 0 || i >= n.children@.len() {
        0
    } else {
        proof {
            assert(decreases_to!(n => n.children));
            assert(decreases_to!(n.children => n.children@));
            assert(decreases_to!(n.children@ => n.children@[i]));
        }
        node_count(n.children@[i]) + count_from(n, i + 1)
    }
}

/// `x` capped at the largest `usize`.
pub open spec fn capped(x: int) -> int {
    if x > usize::MAX {
        usize::MAX as int
    } else {
        x
    }
}

proof fn lemma_count_positive(n: Node, i: int)
    ensures
        count_from(n, i) >= 0,
    decreases n, 0int, n.children@.len() - i,
{
    if 0 <= i < n.children@.len() {
        assert(decreases_to!(n => n.children@[i])) by {
            assert(decreases_to!(n => n.children));
            assert(decreases_to!(n.children => n.children@));
            assert(decreases_to!(n.children@ => n.children@[i]));
        }
        lemma_count_positive(n.children@[i], 0);
        lemma_count_positive(n, i + 1);
        assert(node_count(n.children@[i]) == 1 + count_from(n.children@[i], 0));
        assert(count_from(n, i) == node_count(n.children@[i]) + count_from(n, i + 1));
    }
}

/// The number of nodes of a tree (capped) and an estimate of the bytes it
/// occupies: 256 per node plus the buffers of its strings, child lists and
/// attribute lists.
pub fn graph_size(node: &Node) -> (r: (usize, usize))
    ensures
        r.0 == capped(node_count(*node)),
        r.1 >= 256,
    decreases *node, 1int,
{
    let mut bytes: usize = 256usize.saturating_add(string_capacity(&node.name)).saturating_add(
        string_capacity(&node.text),
    );
    bytes = bytes.saturating_add(saturating_product(vec_capacity(&node.children), node_size()));
    bytes = bytes.saturating_add(saturating_product(vec_capacity(&node.attrs), 128));
    let mut i: usize = 0;
    while i < node.attrs.len()
        invariant
            i <= node.attrs@.len(),
            bytes >= 256,
        decreases node.attrs.len() - i,
    {
        bytes = bytes.saturating_add(string_capacity(&node.attrs[i].0)).saturating_add(
            string_capacity(&node.attrs[i].1),
        );
        i = i + 1;
    }
    let (count, rest) = children_size(node, 0);
    proof {
        lemma_count_positive(*node, 0);
    }
    (1usize.saturating_add(count), bytes.saturating_add(rest))
}

fn children_size(node: &Node, start: usize) -> (r: (usize, usize))
    requires
        start <= node.children@.len(),
    ensures
        r.0 == capped(count_from(*node, start as int)),
    decreases *node, 0int, node.children@.len() - start,
{
    if start >= node.children.len() {
        return (0, 0);
    }
    proof {
        assert(decreases_to!(*node => node.children));
        assert(decreases_to!(node.children => node.children@));
        assert(decreases_to!(node.children@ => node.children@[start as int]));
        lemma_count_positive(node.children@[start as int], 0);
        lemma_count_positive(*node, start + 1);
    }
    let (count, bytes) = graph_size(&node.children[start]);
    let (more, more_bytes) = children_size(node, start + 1);
    (count.saturating_add(more), bytes.saturating_add(more_bytes))
}

impl Cache {
    /// The part that the first relationship of type `kind` from `source`
    /// points at, read once and then shared from the cache while it stays.
    pub fn related(&mut self, pkg: &mut Package, source: Option<&Part>, kind: &str) -> (r: Result<Option<Rc<Part>>, Error>)
        requires
            old(self).wf(),
            old(pkg).wf(),
        ensures
            final(self).wf(),
            final(pkg).wf(),
            final(pkg).entries() == old(pkg).entries(),
            source is None ==> r == Ok::<Option<Rc<Part>>, Error>(None),
            source matches Some(s) && !old(pkg).holds(relation_part_spec(s.path@)) ==> r == Ok::<
                Option<Rc<Part>>,
                Error,
            >(None),
            source matches Some(s) ==> match r {
                Ok(None) => related_part(old(pkg).entries(), s.path@, kind@, None)
                    && final(self).view_entries() == old(self).view_entries(),
                Ok(Some(p)) => related_part(old(pkg).entries(), s.path@, kind@, Some(p.path@)) && ((
                old(self).parts().contains(*p) && final(self).view_entries() == old(self).view_entries())
                    || (part_read(old(pkg).entries(), *p) && exists|bytes: usize|
                    final(self).view_entries() == #[trigger] admitted(
                        old(self).view_entries(),
                        (p.path@, capped(node_count(p.root)) as usize, bytes),
                    ))),
                Err(x) => final(self).view_entries() == old(self).view_entries() && (related_error(
                    old(pkg).entries(),
                    s.path@,
                    kind@,
                    old(pkg).read_total(),
                    x,
                ) || exists|t: Seq<char>|
                    #[trigger] related_part(old(pkg).entries(), s.path@, kind@, Some(t)) && part_error(
                        old(pkg).entries(),
                        t,
                        after_part(old(pkg).entries(), relation_part_spec(s.path@), old(pkg).read_total()),
                        x,
                    )),
            },
            source matches Some(s) && related_ready(old(pkg).entries(), s.path@, kind@, old(pkg).read_total())
                && (forall|t: Seq<char>|
                #[trigger] related_part(old(pkg).entries(), s.path@, kind@, Some(t)) ==> part_ready(
                    old(pkg).entries(),
                    t,
                    after_part(old(pkg).entries(), relation_part_spec(s.path@), old(pkg).read_total()),
                )) ==> r is Ok,
    {
        let source = match source {
            None => return Ok(None),
            Some(s) => s,
        };
        let path = match pkg.related_by_type(source.path.as_str(), kind)? {
            None => return Ok(None),
            Some(p) => p,
        };
        if let Some(part) = self.find(path.as_str()) {
            return Ok(Some(part));
        }
        let part = Rc::new(Part::read(pkg, path.as_str())?);
        let (nodes, mut bytes) = graph_size(&part.root);
        bytes = bytes.saturating_add(string_capacity(&part.path));
        let mut i: usize = 0;
        while i < part.rels.len()
            invariant
                i <= part.rels@.len(),
            decreases part.rels.len() - i,
        {
            bytes = bytes.saturating_add(128).saturating_add(string_capacity(&part.rels[i].0))
                .saturating_add(string_capacity(&part.rels[i].1));
            i = i + 1;
        }
        let ghost before = self.view_entries();
        self.keep(share(&part), nodes, bytes);
        assert(self.view_entries() == admitted(before, (part.path@, capped(node_count(part.root)) as usize, bytes)));
        Ok(Some(part))
    }
}

} // verus!
