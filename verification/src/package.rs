//! An Office package: a ZIP archive of parts linked by relationship files.
//!
//! Relationship targets are resolved against the part that names them: the
//! path is percent-decoded, `.` and empty segments are dropped and `..`
//! steps up, and no target may climb above the package root.
use crate::assoc::{get_spec, insert, unique_keys};
use crate::error::Error;
use crate::model::Kind;
use crate::text::{ends_with, str_eq, str_from_utf8, utf8};
use crate::xlsx::decimal::slice_copy;
use crate::xlsx::format::{ascii_lower, lower_bytes, lower_bytes_exec};
use crate::xml::{self, attr_spec, ends_with_spec, sound, xml_text, xml_tree, Node, MAX_DEPTH};
use crate::zip_directory::{directory, entry_count, DirectoryFault};
use std::io::Read;
use vstd::prelude::*;
use vstd::string::StringExecFns;
use vstd::utf8::*;

verus! {

broadcast use vstd::seq::group_seq_axioms;

pub const SLASH: u8 = 0x2f;

pub const DOT: u8 = 0x2e;

/// Bytes that no internal relationship target may hold: `:` `\` `?` `#` and NUL.
pub open spec fn forbidden(c: u8) -> bool {
    c == 0x3a || c == 0x5c || c == 0x3f || c == 0x23 || c == 0
}

pub open spec fn has_forbidden(b: Seq<u8>) -> bool {
    exists|i: int| 0 <= i < b.len() && forbidden(#[trigger] b[i])
}

/// The value of a hexadecimal digit.
pub open spec fn hex_value(c: u8) -> Option<u8> {
    if 48 <= c <= 57 {
        Some((c - 48) as u8)
    } else if 97 <= c <= 102 {
        Some((c - 87) as u8)
    } else if 65 <= c <= 70 {
        Some((c - 55) as u8)
    } else {
        None
    }
}

/// `%XY` escapes replaced by the byte they name; `None` for a `%` not
/// followed by two hexadecimal digits.
pub open spec fn percent_decode(b: Seq<u8>) -> Option<Seq<u8>>
    decreases b.len(),
{
    if b.len() == 0 {
        Some(Seq::empty())
    } else if b[0] == 0x25 {
        if b.len() >= 3 && hex_value(b[1]) is Some && hex_value(b[2]) is Some {
            match percent_decode(b.skip(3)) {
                Some(r) => Some(seq![(hex_value(b[1])->0 * 16 + hex_value(b[2])->0) as u8] + r),
                None => None,
            }
        } else {
            None
        }
    } else {
        match percent_decode(b.drop_first()) {
            Some(r) => Some(seq![b[0]] + r),
            None => None,
        }
    }
}

/// The pieces of `b` from `start` on, split at every `/`, where the scan has
/// reached `i`.
pub open spec fn split_from(b: Seq<u8>, start: int, i: int) -> Seq<Seq<u8>>
    decreases b.len() - i,
{
    if i >= b.len() {
        seq![b.subrange(start, b.len() as int)]
    } else if b[i] == SLASH {
        seq![b.subrange(start, i)] + split_from(b, i + 1, i + 1)
    } else {
        split_from(b, start, i + 1)
    }
}

/// `b` split at every `/` (one piece more than there are slashes).
pub open spec fn segments(b: Seq<u8>) -> Seq<Seq<u8>> {
    split_from(b, 0, 0)
}

/// The last `/` before `i`.
pub open spec fn last_slash(b: Seq<u8>, i: int) -> Option<int>
    decreases i,
{
    if i <= 0 {
        None
    } else if b[i - 1] == SLASH {
        Some(i - 1)
    } else {
        last_slash(b, i - 1)
    }
}

/// The directory pieces of a part name: everything before its last `/`.
pub open spec fn base_parts(source: Seq<u8>) -> Seq<Seq<u8>> {
    match last_slash(source, source.len() as int) {
        Some(k) => segments(source.take(k)),
        None => Seq::empty(),
    }
}

/// One path segment applied to the directory built so far.
pub open spec fn step(parts: Seq<Seq<u8>>, seg: Seq<u8>) -> Option<Seq<Seq<u8>>> {
    if seg.len() == 0 || seg == seq![DOT] {
        Some(parts)
    } else if seg == seq![DOT, DOT] {
        if parts.len() == 0 {
            None
        } else {
            Some(parts.drop_last())
        }
    } else {
        Some(parts.push(seg))
    }
}

/// All segments applied in order; `None` once a `..` climbs above the root.
pub open spec fn walk(parts: Seq<Seq<u8>>, segs: Seq<Seq<u8>>) -> Option<Seq<Seq<u8>>>
    decreases segs.len(),
{
    if segs.len() == 0 {
        Some(parts)
    } else {
        match step(parts, segs[0]) {
            None => None,
            Some(p) => walk(p, segs.drop_first()),
        }
    }
}

/// Pieces joined with `/`.
pub open spec fn join(parts: Seq<Seq<u8>>) -> Seq<u8>
    decreases parts.len(),
{
    if parts.len() == 0 {
        Seq::empty()
    } else if parts.len() == 1 {
        parts[0]
    } else {
        join(parts.drop_last()) + seq![SLASH] + parts.last()
    }
}

/// The path segments of the part that `target` names, relative to the part
/// `source` (both as UTF-8).
pub open spec fn resolve_spec(source: Seq<u8>, target: Seq<u8>) -> Result<Seq<Seq<u8>>, Error> {
    if has_forbidden(target) || (target.len() >= 2 && target[0] == SLASH && target[1] == SLASH) {
        Err(Error::Invalid("Invalid internal package relationship"))
    } else {
        match percent_decode(target) {
            None => Err(Error::Invalid("Invalid escaped path")),
            Some(d) => if !valid_utf8(d) {
                Err(Error::Invalid("Invalid relationship encoding"))
            } else if has_forbidden(d) {
                Err(Error::Invalid("Invalid escaped relationship"))
            } else {
                let base = if d.len() > 0 && d[0] == SLASH {
                    Seq::empty()
                } else {
                    base_parts(source)
                };
                match walk(base, segments(d)) {
                    None => Err(Error::Invalid("Relationship escapes package root")),
                    Some(parts) => if parts.len() == 0 {
                        Err(Error::Invalid("Empty package target"))
                    } else {
                        Ok(parts)
                    },
                }
            },
        }
    }
}

/// A segment that names a part: not empty, not `.` or `..`, without `/`.
pub open spec fn plain_segment(s: Seq<u8>) -> bool {
    &&& s.len() > 0
    &&& s != seq![DOT]
    &&& s != seq![DOT, DOT]
    &&& forall|i: int| 0 <= i < s.len() ==> s[i] != SLASH
}

pub open spec fn all_plain(parts: Seq<Seq<u8>>) -> bool {
    forall|i: int| 0 <= i < parts.len() ==> plain_segment(#[trigger] parts[i])
}

// ---------------------------------------------------------------------------
// Lemmas
proof fn lemma_walk_cons(parts: Seq<Seq<u8>>, seg: Seq<u8>, rest: Seq<Seq<u8>>)
    ensures
        walk(parts, seq![seg] + rest) == match step(parts, seg) {
            None => None,
            Some(p) => walk(p, rest),
        },
{
    assert((seq![seg] + rest)[0] == seg);
    assert((seq![seg] + rest).drop_first() =~= rest);
}

proof fn lemma_walk_single(parts: Seq<Seq<u8>>, seg: Seq<u8>)
    ensures
        walk(parts, seq![seg]) == step(parts, seg),
{
    lemma_walk_cons(parts, seg, Seq::empty());
    assert(seq![seg] + Seq::<Seq<u8>>::empty() =~= seq![seg]);
}

proof fn lemma_slash_valid()
    ensures
        valid_utf8(seq![SLASH]),
{
    let s = seq![SLASH];
    assert(pop_first_scalar(s) =~= Seq::<u8>::empty());
    reveal_with_fuel(valid_utf8, 2);
}

/// A piece of valid UTF-8 bounded by slashes (or the ends) is valid UTF-8.
proof fn lemma_valid_segment(b: Seq<u8>, lo: int, hi: int)
    requires
        valid_utf8(b),
        0 <= lo <= hi <= b.len(),
        lo == 0 || b[lo - 1] == SLASH,
        hi == b.len() || b[hi] == SLASH,
    ensures
        valid_utf8(b.subrange(lo, hi)),
{
    let c = b.subrange(lo, b.len() as int);
    assert(valid_utf8(c)) by {
        if lo == 0 {
            assert(c =~= b);
        } else {
            is_char_boundary_iff_not_is_continuation_byte(b, lo - 1);
            valid_utf8_split(b, lo - 1);
            let d = b.subrange(lo - 1, b.len() as int);
            assert(d[0] == SLASH);
            assert(length_of_first_scalar(d) == 1);
            assert(pop_first_scalar(d) =~= c);
        }
    }
    if hi < b.len() {
        assert(c[hi - lo] == SLASH);
        is_char_boundary_iff_not_is_continuation_byte(c, hi - lo);
        valid_utf8_split(c, hi - lo);
        assert(c.subrange(0, hi - lo) =~= b.subrange(lo, hi));
    } else {
        assert(c =~= b.subrange(lo, hi));
    }
}

proof fn lemma_join_valid(parts: Seq<Seq<u8>>)
    requires
        forall|i: int| 0 <= i < parts.len() ==> valid_utf8(#[trigger] parts[i]),
    ensures
        valid_utf8(join(parts)),
    decreases parts.len(),
{
    if parts.len() == 0 {
        assert(join(parts) =~= Seq::<u8>::empty());
    } else if parts.len() > 1 {
        let init = parts.drop_last();
        assert forall|i: int| 0 <= i < init.len() implies valid_utf8(#[trigger] init[i]) by {
            assert(init[i] == parts[i]);
        }
        lemma_join_valid(init);
        lemma_slash_valid();
        valid_utf8_concat(join(init), seq![SLASH]);
        assert(valid_utf8(parts[parts.len() - 1]));
        valid_utf8_concat(join(init) + seq![SLASH], parts.last());
    }
}

/// The pieces of a valid UTF-8 sequence are valid UTF-8.
proof fn lemma_split_valid(b: Seq<u8>, start: int, i: int)
    requires
        valid_utf8(b),
        0 <= start <= i <= b.len(),
        start == 0 || b[start - 1] == SLASH,
        forall|j: int| start <= j < i ==> b[j] != SLASH,
    ensures
        forall|k: int|
            0 <= k < split_from(b, start, i).len() ==> valid_utf8(
                #[trigger] split_from(b, start, i)[k],
            ),
    decreases b.len() - i,
{
    let s = split_from(b, start, i);
    if i >= b.len() {
        lemma_valid_segment(b, start, b.len() as int);
        assert(s =~= seq![b.subrange(start, b.len() as int)]);
        assert forall|k: int| 0 <= k < s.len() implies valid_utf8(#[trigger] s[k]) by {
            assert(k == 0);
        }
    } else if b[i] == SLASH {
        lemma_valid_segment(b, start, i);
        lemma_split_valid(b, i + 1, i + 1);
        let rest = split_from(b, i + 1, i + 1);
        assert forall|k: int| 0 <= k < s.len() implies valid_utf8(#[trigger] s[k]) by {
            if k > 0 {
                assert(s[k] == rest[k - 1]);
            } else {
                assert(s[0] == b.subrange(start, i));
            }
        }
    } else {
        lemma_split_valid(b, start, i + 1);
        assert(s == split_from(b, start, i + 1));
    }
}

/// Pieces contain no slash.
proof fn lemma_split_no_slash(b: Seq<u8>, start: int, i: int)
    requires
        0 <= start <= i <= b.len(),
        forall|j: int| start <= j < i ==> b[j] != SLASH,
    ensures
        forall|k: int, j: int|
            0 <= k < split_from(b, start, i).len() && 0 <= j < split_from(b, start, i)[k].len()
                ==> #[trigger] split_from(b, start, i)[k][j] != SLASH,
    decreases b.len() - i,
{
    let s = split_from(b, start, i);
    if i >= b.len() {
        assert(s =~= seq![b.subrange(start, b.len() as int)]);
        assert forall|k: int, j: int| 0 <= k < s.len() && 0 <= j < s[k].len() implies #[trigger] s[k][j] != SLASH by {
            assert(k == 0);
            assert(s[k] == b.subrange(start, b.len() as int));
            assert(s[k][j] == b[start + j]);
        }
    } else if b[i] == SLASH {
        lemma_split_no_slash(b, i + 1, i + 1);
        let rest = split_from(b, i + 1, i + 1);
        assert forall|k: int, j: int| 0 <= k < s.len() && 0 <= j < s[k].len() implies #[trigger] s[k][j] != SLASH by {
            if k > 0 {
                assert(s[k] == rest[k - 1]);
            } else {
                assert(s[0] == b.subrange(start, i));
                assert(s[0][j] == b[start + j]);
            }
        }
    } else {
        lemma_split_no_slash(b, start, i + 1);
        assert(s == split_from(b, start, i + 1));
    }
}

/// Walking slash-free segments from plain pieces leaves plain pieces.
proof fn lemma_walk_plain(parts: Seq<Seq<u8>>, segs: Seq<Seq<u8>>)
    requires
        all_plain(parts),
        forall|k: int, j: int|
            0 <= k < segs.len() && 0 <= j < segs[k].len() ==> #[trigger] segs[k][j] != SLASH,
    ensures
        walk(parts, segs) matches Some(r) ==> all_plain(r),
    decreases segs.len(),
{
    if segs.len() > 0 {
        let rest = segs.drop_first();
        assert forall|k: int, j: int|
            0 <= k < rest.len() && 0 <= j < rest[k].len() implies #[trigger] rest[k][j] != SLASH by {
            assert(rest[k] == segs[k + 1]);
        }
        match step(parts, segs[0]) {
            None => {},
            Some(p) => {
                assert(all_plain(p)) by {
                    if p.len() == parts.len() + 1 {
                        assert forall|j: int| 0 <= j < segs[0].len() implies segs[0][j] != SLASH by {
                            assert(segs[0][j] != SLASH);
                        }
                    }
                    assert forall|i: int| 0 <= i < p.len() implies plain_segment(#[trigger] p[i]) by {
                        if i < parts.len() {
                            assert(p[i] == parts[i]);
                        } else {
                            assert(forall|j: int| 0 <= j < segs[0].len() ==> segs[0][j] != SLASH);
                        }
                    }
                }
                lemma_walk_plain(p, rest);
            },
        }
    }
}

/// A resolved relationship never leaves the package: when the directory of
/// the source part is made of plain names, the target is a non-empty
/// sequence of plain names, with no empty, `.` or `..` segment left.
pub proof fn law_resolved_target_is_plain(source: Seq<u8>, target: Seq<u8>)
    requires
        all_plain(base_parts(source)),
    ensures
        resolve_spec(source, target) matches Ok(parts) ==> parts.len() > 0 && all_plain(parts),
{
    if let Some(d) = percent_decode(target) {
        lemma_split_no_slash(d, 0, 0);
        assert(all_plain(Seq::<Seq<u8>>::empty()));
        let base = if d.len() > 0 && d[0] == SLASH {
            Seq::empty()
        } else {
            base_parts(source)
        };
        lemma_walk_plain(base, segments(d));
    }
}

// ---------------------------------------------------------------------------
// Executable resolution
fn hex_digit(c: u8) -> (r: Option<u8>)
    ensures
        r == hex_value(c),
{
    if 48 <= c && c <= 57 {
        Some(c - 48)
    } else if 97 <= c && c <= 102 {
        Some(c - 87)
    } else if 65 <= c && c <= 70 {
        Some(c - 55)
    } else {
        None
    }
}

fn contains_forbidden(b: &[u8]) -> (r: bool)
    ensures
        r == has_forbidden(b@),
{
    let mut i: usize = 0;
    while i < b.len()
        invariant
            i <= b@.len(),
            forall|j: int| 0 <= j < i ==> !forbidden(b@[j]),
        decreases b.len() - i,
    {
        let c = b[i];
        if c == 0x3a || c == 0x5c || c == 0x3f || c == 0x23 || c == 0 {
            assert(forbidden(b@[i as int]));
            return true;
        }
        i = i + 1;
    }
    false
}

fn decode_percent(b: &[u8]) -> (r: Option<Vec<u8>>)
    ensures
        match r {
            Some(v) => percent_decode(b@) == Some(v@),
            None => percent_decode(b@) is None,
        },
{
    let mut out: Vec<u8> = Vec::new();
    let mut i: usize = 0;
    proof {
        assert(b@.skip(0) =~= b@);
        if let Some(r) = percent_decode(b@) {
            assert(out@ + r =~= r);
        }
    }
    while i < b.len()
        invariant
            i <= b@.len(),
            percent_decode(b@) == match percent_decode(b@.skip(i as int)) {
                Some(r) => Some(out@ + r),
                None => None,
            },
        decreases b.len() - i,
    {
        let ghost rest = b@.skip(i as int);
        if b[i] == 0x25 {
            if b.len() - i < 3 {
                return None;
            }
            let first = hex_digit(b[i + 1]);
            let second = hex_digit(b[i + 2]);
            match (first, second) {
                (Some(x), Some(y)) => {
                    let v: u8 = x * 16 + y;
                    proof {
                        assert(rest.skip(3) =~= b@.skip(i + 3));
                        match percent_decode(b@.skip(i + 3)) {
                            Some(r) => {
                                assert(out@ + (seq![v] + r) =~= out@.push(v) + r);
                            },
                            None => {},
                        }
                    }
                    out.push(v);
                    i = i + 3;
                },
                _ => {
                    return None;
                },
            }
        } else {
            let c = b[i];
            proof {
                assert(rest.drop_first() =~= b@.skip(i + 1));
                match percent_decode(b@.skip(i + 1)) {
                    Some(r) => {
                        assert(out@ + (seq![c] + r) =~= out@.push(c) + r);
                    },
                    None => {},
                }
            }
            out.push(c);
            i = i + 1;
        }
    }
    proof {
        assert(b@.skip(i as int) =~= Seq::<u8>::empty());
        assert(out@ + Seq::<u8>::empty() =~= out@);
    }
    Some(out)
}

/// The byte sequences held by a vector of byte vectors.
pub open spec fn pieces(v: Seq<Vec<u8>>) -> Seq<Seq<u8>> {
    v.map_values(|p: Vec<u8>| p@)
}

pub open spec fn all_valid(v: Seq<Vec<u8>>) -> bool {
    forall|k: int| 0 <= k < v.len() ==> valid_utf8(#[trigger] v[k]@)
}

/// Applies one segment to the directory built so far.
fn apply_segment(parts: &mut Vec<Vec<u8>>, seg: Vec<u8>) -> (ok: bool)
    ensures
        ok == (step(pieces(old(parts)@), seg@) is Some),
        ok ==> step(pieces(old(parts)@), seg@) == Some(pieces(final(parts)@)),
        !ok ==> final(parts)@ == old(parts)@,
        all_valid(old(parts)@) && valid_utf8(seg@) ==> all_valid(final(parts)@),
{
    let n = seg.len();
    if n == 0 || (n == 1 && seg[0] == DOT) {
        proof {
            if n == 1 {
                assert(seg@ =~= seq![DOT]);
            }
        }
        true
    } else if n == 2 && seg[0] == DOT && seg[1] == DOT {
        proof {
            assert(seg@ =~= seq![DOT, DOT]);
        }
        if parts.len() == 0 {
            return false;
        }
        let ghost before = parts@;
        parts.pop();
        proof {
            assert(pieces(parts@) =~= pieces(before).drop_last());
        }
        true
    } else {
        proof {
            assert(seg@ != seq![DOT]);
            assert(seg@ != seq![DOT, DOT]);
        }
        let ghost before = parts@;
        parts.push(seg);
        proof {
            assert(pieces(parts@) =~= pieces(before).push(seg@));
            assert(forall|k: int| 0 <= k < before.len() ==> parts@[k] == before[k]);
        }
        true
    }
}

/// Applies the segments of `b` to `parts`.
fn walk_segments(b: &[u8], parts: &mut Vec<Vec<u8>>) -> (ok: bool)
    ensures
        ok == (walk(pieces(old(parts)@), segments(b@)) is Some),
        ok ==> walk(pieces(old(parts)@), segments(b@)) == Some(pieces(final(parts)@)),
        valid_utf8(b@) && all_valid(old(parts)@) ==> all_valid(final(parts)@),
{
    let ghost initial = pieces(parts@);
    let ghost valid = valid_utf8(b@) && all_valid(parts@);
    let mut start: usize = 0;
    let mut i: usize = 0;
    while i < b.len()
        invariant
            start <= i <= b@.len(),
            initial == pieces(old(parts)@),
            start == 0 || b@[start - 1] == SLASH,
            forall|j: int| start <= j < i ==> b@[j] != SLASH,
            walk(initial, segments(b@)) == walk(pieces(parts@), split_from(b@, start as int, i as int)),
            valid ==> valid_utf8(b@) && all_valid(parts@),
        decreases b.len() - i,
    {
        if b[i] == SLASH {
            let seg = slice_copy(b, start, i);
            proof {
                if valid {
                    lemma_valid_segment(b@, start as int, i as int);
                }
                lemma_walk_cons(pieces(parts@), seg@, split_from(b@, i + 1, i + 1));
                assert(split_from(b@, start as int, i as int) == seq![seg@] + split_from(
                    b@,
                    i + 1,
                    i + 1,
                ));
            }
            let ghost before = pieces(parts@);
            if !apply_segment(parts, seg) {
                assert(step(before, seg@) is None);
                assert(walk(before, split_from(b@, start as int, i as int)) is None);
                return false;
            }
            start = i + 1;
        }
        i = i + 1;
    }
    let seg = slice_copy(b, start, b.len());
    proof {
        if valid {
            lemma_valid_segment(b@, start as int, b@.len() as int);
        }
        lemma_walk_single(pieces(parts@), seg@);
    }
    apply_segment(parts, seg)
}

/// The segments of `b`, split at every `/`.
fn split_segments(b: &[u8]) -> (r: Vec<Vec<u8>>)
    ensures
        pieces(r@) == segments(b@),
{
    let mut r: Vec<Vec<u8>> = Vec::new();
    let mut start: usize = 0;
    let mut i: usize = 0;
    proof {
        assert(pieces(r@) + segments(b@) =~= segments(b@));
    }
    while i < b.len()
        invariant
            start <= i <= b@.len(),
            segments(b@) == pieces(r@) + split_from(b@, start as int, i as int),
        decreases b.len() - i,
    {
        if b[i] == SLASH {
            let seg = slice_copy(b, start, i);
            let ghost before = pieces(r@);
            r.push(seg);
            proof {
                assert(pieces(r@) =~= before.push(seg@));
                assert(before + split_from(b@, start as int, i as int) =~= pieces(r@) + split_from(
                    b@,
                    i + 1,
                    i + 1,
                ));
            }
            start = i + 1;
        }
        i = i + 1;
    }
    let seg = slice_copy(b, start, b.len());
    let ghost before = pieces(r@);
    r.push(seg);
    proof {
        assert(pieces(r@) =~= before + seq![seg@]);
    }
    r
}

/// Position of the last `/` in `b`.
pub fn find_last_slash(b: &[u8]) -> (r: Option<usize>)
    ensures
        match r {
            Some(k) => last_slash(b@, b@.len() as int) == Some(k as int) && k < b@.len() && b@[k as int] == SLASH,
            None => last_slash(b@, b@.len() as int) is None,
        },
{
    let mut i = b.len();
    while i > 0
        invariant
            i <= b@.len(),
            last_slash(b@, b@.len() as int) == last_slash(b@, i as int),
        decreases i,
    {
        if b[i - 1] == SLASH {
            return Some(i - 1);
        }
        i = i - 1;
    }
    None
}

/// Joins pieces with `/`.
fn join_parts(parts: &Vec<Vec<u8>>) -> (r: Vec<u8>)
    ensures
        r@ == join(pieces(parts@)),
{
    let mut r: Vec<u8> = Vec::new();
    let mut k: usize = 0;
    while k < parts.len()
        invariant
            k <= parts@.len(),
            r@ == join(pieces(parts@).take(k as int)),
        decreases parts.len() - k,
    {
        let ghost before = r@;
        if k > 0 {
            r.push(SLASH);
        }
        let piece = &parts[k];
        let mut j: usize = 0;
        let ghost mid = r@;
        while j < piece.len()
            invariant
                j <= piece@.len(),
                r@ == mid + piece@.take(j as int),
            decreases piece.len() - j,
        {
            r.push(piece[j]);
            proof {
                assert(piece@.take(j + 1) =~= piece@.take(j as int).push(piece@[j as int]));
            }
            j = j + 1;
        }
        proof {
            let dv = pieces(parts@);
            assert(piece@.take(piece@.len() as int) =~= piece@);
            assert(dv.take(k + 1).drop_last() =~= dv.take(k as int));
            assert(dv.take(k + 1).last() == dv[k as int]);
            if k == 0 {
                assert(before =~= Seq::<u8>::empty());
                assert(r@ =~= dv[0]);
            } else {
                assert(r@ =~= before + seq![SLASH] + dv[k as int]);
            }
        }
        k = k + 1;
    }
    proof {
        assert(pieces(parts@).take(parts@.len() as int) =~= pieces(parts@));
    }
    r
}

/// Resolves a relationship `target` found in the part `source` to the name of
/// the part it points at.
pub fn resolve(source: &str, target: &str) -> (r: Result<String, Error>)
    ensures
        match resolve_spec(utf8(source@), utf8(target@)) {
            Ok(parts) => r matches Ok(s) && utf8(s@) == join(parts),
            Err(e) => r == Err::<String, Error>(e),
        },
{
    let t = target.as_bytes();
    if contains_forbidden(t) || (t.len() >= 2 && t[0] == SLASH && t[1] == SLASH) {
        return Err(Error::Invalid("Invalid internal package relationship"));
    }
    let decoded = match decode_percent(t) {
        Some(d) => d,
        None => return Err(Error::Invalid("Invalid escaped path")),
    };
    if str_from_utf8(decoded.as_slice()).is_none() {
        return Err(Error::Invalid("Invalid relationship encoding"));
    }
    if contains_forbidden(decoded.as_slice()) {
        return Err(Error::Invalid("Invalid escaped relationship"));
    }
    let s = source.as_bytes();
    proof {
        encode_utf8_valid_utf8(source@);
    }
    let ghost base = if decoded@.len() > 0 && decoded@[0] == SLASH {
        Seq::<Seq<u8>>::empty()
    } else {
        base_parts(s@)
    };
    let mut parts: Vec<Vec<u8>> = if decoded.len() > 0 && decoded[0] == SLASH {
        let v: Vec<Vec<u8>> = Vec::new();
        assert(pieces(v@) =~= base);
        v
    } else {
        match find_last_slash(s) {
            None => {
                let v: Vec<Vec<u8>> = Vec::new();
                assert(pieces(v@) =~= base);
                v
            },
            Some(k) => {
                let dir = slice_copy(s, 0, k);
                proof {
                    assert(s@.take(k as int) =~= dir@);
                    lemma_valid_segment(s@, 0, k as int);
                    lemma_split_valid(dir@, 0, 0);
                }
                split_segments(dir.as_slice())
            },
        }
    };
    proof {
        assert(all_valid(parts@)) by {
            assert forall|k: int| 0 <= k < parts@.len() implies valid_utf8(#[trigger] parts@[k]@) by {
                assert(pieces(parts@)[k] == parts@[k]@);
            }
        }
    }
    if !walk_segments(decoded.as_slice(), &mut parts) {
        return Err(Error::Invalid("Relationship escapes package root"));
    }
    if parts.len() == 0 {
        return Err(Error::Invalid("Empty package target"));
    }
    let joined = join_parts(&parts);
    proof {
        assert forall|k: int| 0 <= k < pieces(parts@).len() implies valid_utf8(
            #[trigger] pieces(parts@)[k],
        ) by {
            assert(pieces(parts@)[k] == parts@[k]@);
        }
        lemma_join_valid(pieces(parts@));
    }
    match str_from_utf8(joined.as_slice()) {
        Some(text) => {
            proof {
                decode_utf8_encode_utf8(joined@);
            }
            Ok(text.to_owned())
        },
        None => Err(Error::Invalid("Invalid relationship encoding")),
    }
}


// ---------------------------------------------------------------------------
// Relationship parts

/// `_rels/`
pub open spec fn rels_dir() -> Seq<u8> {
    seq![0x5fu8, 0x72u8, 0x65u8, 0x6cu8, 0x73u8, 0x2fu8]
}

/// `.rels`
pub open spec fn rels_ext() -> Seq<u8> {
    seq![0x2eu8, 0x72u8, 0x65u8, 0x6cu8, 0x73u8]
}

/// The relationship part of a part: `dir/_rels/name.rels` for `dir/name`,
/// `_rels/name.rels` for a name without a directory (and for the package
/// itself, whose name is empty).
pub open spec fn relation_path(source: Seq<u8>) -> Seq<u8> {
    match last_slash(source, source.len() as int) {
        None => rels_dir() + source + rels_ext(),
        Some(k) => source.take(k) + seq![SLASH] + rels_dir() + source.skip(k + 1) + rels_ext(),
    }
}

proof fn lemma_ascii_valid(s: Seq<u8>)
    requires
        forall|i: int| 0 <= i < s.len() ==> s[i] < 0x80,
    ensures
        valid_utf8(s),
    decreases s.len(),
{
    if s.len() > 0 {
        assert(pop_first_scalar(s) =~= s.drop_first());
        lemma_ascii_valid(s.drop_first());
    }
}

fn push_all(out: &mut Vec<u8>, piece: &[u8])
    ensures
        final(out)@ == old(out)@ + piece@,
{
    let mut i: usize = 0;
    while i < piece.len()
        invariant
            i <= piece@.len(),
            out@ == old(out)@ + piece@.take(i as int),
        decreases piece.len() - i,
    {
        out.push(piece[i]);
        proof {
            assert(piece@.take(i + 1) =~= piece@.take(i as int).push(piece@[i as int]));
        }
        i = i + 1;
    }
    assert(piece@.take(piece@.len() as int) =~= piece@);
}

fn push_rels_dir(out: &mut Vec<u8>)
    ensures
        final(out)@ == old(out)@ + rels_dir(),
{
    out.push(0x5f);
    out.push(0x72);
    out.push(0x65);
    out.push(0x6c);
    out.push(0x73);
    out.push(0x2f);
    assert(final(out)@ =~= old(out)@ + rels_dir());
}

fn push_rels_ext(out: &mut Vec<u8>)
    ensures
        final(out)@ == old(out)@ + rels_ext(),
{
    out.push(0x2e);
    out.push(0x72);
    out.push(0x65);
    out.push(0x6c);
    out.push(0x73);
    assert(final(out)@ =~= old(out)@ + rels_ext());
}

/// The relationship part of `source`, as characters.
pub open spec fn relation_part_spec(source: Seq<char>) -> Seq<char> {
    decode_utf8(relation_path(utf8(source)))
}

/// The name of the relationship part that belongs to `source`.
pub fn relation_part(source: &str) -> (r: String)
    ensures
        utf8(r@) == relation_path(utf8(source@)),
        r@ == relation_part_spec(source@),
{
    let s = source.as_bytes();
    let n = s.len();
    proof {
        encode_utf8_valid_utf8(source@);
        lemma_ascii_valid(rels_dir());
        lemma_ascii_valid(rels_ext());
        lemma_slash_valid();
    }
    let mut out: Vec<u8> = Vec::new();
    match find_last_slash(s) {
        None => {
            push_rels_dir(&mut out);
            push_all(&mut out, s);
            push_rels_ext(&mut out);
            proof {
                assert(out@ =~= rels_dir() + s@ + rels_ext());
                valid_utf8_concat(rels_dir(), s@);
                valid_utf8_concat(rels_dir() + s@, rels_ext());
            }
        },
        Some(k) => {
            let dir = slice_copy(s, 0, k);
            let name = slice_copy(s, k + 1, n);
            push_all(&mut out, dir.as_slice());
            out.push(SLASH);
            push_rels_dir(&mut out);
            push_all(&mut out, name.as_slice());
            push_rels_ext(&mut out);
            proof {
                assert(s@.take(k as int) =~= dir@);
                assert(s@.skip(k + 1) =~= name@);
                assert(out@ =~= dir@ + seq![SLASH] + rels_dir() + name@ + rels_ext());
                lemma_valid_segment(s@, 0, k as int);
                lemma_valid_segment(s@, k + 1, s@.len() as int);
                valid_utf8_concat(dir@, seq![SLASH]);
                valid_utf8_concat(dir@ + seq![SLASH], rels_dir());
                valid_utf8_concat(dir@ + seq![SLASH] + rels_dir(), name@);
                valid_utf8_concat(dir@ + seq![SLASH] + rels_dir() + name@, rels_ext());
            }
        },
    }
    let r = match str_from_utf8(out.as_slice()) {
        Some(text) => {
            proof {
                decode_utf8_encode_utf8(out@);
            }
            text.to_owned()
        },
        None => String::new(),
    };
    proof {
        encode_utf8_decode_utf8(r@);
    }
    r
}

/// ASCII case-insensitive equality of two strings (`str::eq_ignore_ascii_case`).
pub fn eq_ignore_ascii_case(a: &str, b: &str) -> (r: bool)
    ensures
        r == (lower_bytes(utf8(a@)) == lower_bytes(utf8(b@))),
{
    let x = lower_bytes_exec(a.as_bytes());
    let y = lower_bytes_exec(b.as_bytes());
    crate::text::bytes_eq(x.as_slice(), y.as_slice())
}

/// A relationship whose target lies outside the package.
pub open spec fn is_external(n: Node) -> bool {
    lower_bytes(utf8(attr_spec(n, "TargetMode"@))) == lower_bytes(utf8("External"@))
}

/// The `Relationship` elements of a relationship part, in order.
pub open spec fn relationship_nodes(root: Node) -> Seq<Node> {
    root.children@.filter(|c: Node| c.name@ == "Relationship"@)
}

/// The first internal relationship whose target does not resolve, and why.
pub open spec fn first_failure(source: Seq<u8>, nodes: Seq<Node>) -> Option<Error>
    decreases nodes.len(),
{
    if nodes.len() == 0 {
        None
    } else if !is_external(nodes[0]) && resolve_spec(source, utf8(attr_spec(nodes[0], "Target"@))) is Err {
        Some(resolve_spec(source, utf8(attr_spec(nodes[0], "Target"@)))->Err_0)
    } else {
        first_failure(source, nodes.drop_first())
    }
}

/// The resolved target of the last internal relationship with this Id.
pub open spec fn last_target(source: Seq<u8>, nodes: Seq<Node>, id: Seq<char>) -> Option<Seq<u8>>
    decreases nodes.len(),
{
    if nodes.len() == 0 {
        None
    } else if !is_external(nodes.last()) && attr_spec(nodes.last(), "Id"@) == id {
        match resolve_spec(source, utf8(attr_spec(nodes.last(), "Target"@))) {
            Ok(parts) => Some(join(parts)),
            Err(_) => None,
        }
    } else {
        last_target(source, nodes.drop_last(), id)
    }
}

proof fn lemma_first_failure_append(source: Seq<u8>, p: Seq<Node>, q: Seq<Node>)
    requires
        first_failure(source, p) is None,
    ensures
        first_failure(source, p + q) == first_failure(source, q),
    decreases p.len(),
{
    if p.len() > 0 {
        assert((p + q).drop_first() =~= p.drop_first() + q);
        assert((p + q)[0] == p[0]);
        lemma_first_failure_append(source, p.drop_first(), q);
    } else {
        assert(p + q =~= q);
    }
}

proof fn lemma_first_failure_push(source: Seq<u8>, nodes: Seq<Node>, n: Node)
    requires
        first_failure(source, nodes) is None,
    ensures
        first_failure(source, nodes.push(n)) == first_failure(source, seq![n]),
    decreases nodes.len(),
{
    if nodes.len() > 0 {
        assert(nodes.push(n).drop_first() =~= nodes.drop_first().push(n));
        lemma_first_failure_push(source, nodes.drop_first(), n);
    } else {
        assert(nodes.push(n) =~= seq![n]);
    }
}

/// The internal relationships declared under `root`: each Id with the part
/// its target resolves to (a later relationship with the same Id replaces an
/// earlier one); external targets are left out. Fails with the first target
/// that does not resolve.
pub fn relationship_targets(source: &str, root: &Node) -> (r: Result<Vec<(String, String)>, Error>)
    ensures
        match first_failure(utf8(source@), relationship_nodes(*root)) {
            Some(e) => r == Err::<Vec<(String, String)>, Error>(e),
            None => r matches Ok(m) && unique_keys(m@) && forall|id: Seq<char>|
                #![trigger get_spec(m@, id)]
                match get_spec(m@, id) {
                    Some(v) => last_target(utf8(source@), relationship_nodes(*root), id) == Some(
                        utf8(v@),
                    ),
                    None => last_target(utf8(source@), relationship_nodes(*root), id) is None,
                },
        },
{
    let nodes = root.named("Relationship");
    let ghost all = relationship_nodes(*root);
    let ghost src = utf8(source@);
    assert(nodes@.map_values(|c: &Node| *c) == all);
    let mut m: Vec<(String, String)> = Vec::new();
    let mut i: usize = 0;
    while i < nodes.len()
        invariant
            i <= nodes@.len(),
            src == utf8(source@),
            all == relationship_nodes(*root),
            nodes@.map_values(|c: &Node| *c) == all,
            first_failure(src, all.take(i as int)) is None,
            unique_keys(m@),
            forall|id: Seq<char>|
                #![trigger get_spec(m@, id)]
                match get_spec(m@, id) {
                    Some(v) => last_target(src, all.take(i as int), id) == Some(utf8(v@)),
                    None => last_target(src, all.take(i as int), id) is None,
                },
        decreases nodes.len() - i,
    {
        let n = nodes[i];
        let ghost prefix = all.take(i as int);
        assert(all[i as int] == *n);
        assert(all.take(i + 1) =~= prefix.push(*n));
        assert(all.take(i + 1).drop_last() =~= prefix);
        proof {
            lemma_first_failure_push(src, prefix, *n);
            assert(seq![*n].drop_first() =~= Seq::<Node>::empty());
            assert(first_failure(src, Seq::<Node>::empty()) is None);
        }
        if !eq_ignore_ascii_case(n.attr("TargetMode"), "External") {
            let target = match resolve(source, n.attr("Target")) {
                Ok(t) => t,
                Err(e) => {
                    proof {
                        assert(all =~= prefix + all.skip(i as int));
                        assert(all.skip(i as int)[0] == *n);
                        assert(!is_external(*n));
                        assert(resolve_spec(src, utf8(attr_spec(*n, "Target"@))) == Err::<Seq<Seq<u8>>, Error>(e));
                        assert(first_failure(src, all.skip(i as int)) == Some(e));
                        lemma_first_failure_append(src, prefix, all.skip(i as int));
                    }
                    return Err(e);
                },
            };
            let key = n.attr("Id").to_owned();
            let ghost before = m@;
            insert(&mut m, key, target);
            proof {
                assert forall|id: Seq<char>| #![trigger get_spec(m@, id)] match get_spec(m@, id) {
                    Some(v) => last_target(src, all.take(i + 1), id) == Some(utf8(v@)),
                    None => last_target(src, all.take(i + 1), id) is None,
                } by {
                    if id != key@ {
                        assert(get_spec(m@, id) == get_spec(before, id));
                    }
                }
            }
        }
        i = i + 1;
    }
    proof {
        assert(all.take(nodes@.len() as int) =~= all);
    }
    Ok(m)
}

/// The first internal relationship whose Type ends with `/` + `kind`.
pub open spec fn first_related(nodes: Seq<Node>, kind: Seq<char>) -> Option<Node>
    decreases nodes.len(),
{
    if nodes.len() == 0 {
        None
    } else if ends_with_spec(attr_spec(nodes[0], "Type"@), seq!['/'] + kind) && !is_external(nodes[0]) {
        Some(nodes[0])
    } else {
        first_related(nodes.drop_first(), kind)
    }
}

/// The part that the first internal relationship of type `kind` under
/// `root` points at.
pub fn related_target(source: &str, root: &Node, kind: &str) -> (r: Result<Option<String>, Error>)
    ensures
        match first_related(relationship_nodes(*root), kind@) {
            None => r == Ok::<Option<String>, Error>(None),
            Some(n) => match resolve_spec(utf8(source@), utf8(attr_spec(n, "Target"@))) {
                Ok(parts) => r matches Ok(Some(s)) && utf8(s@) == join(parts),
                Err(e) => r == Err::<Option<String>, Error>(e),
            },
        },
{
    let mut suffix = String::from_str("/");
    suffix.append(kind);
    proof {
        reveal_strlit("/");
        assert(suffix@ =~= seq!['/'] + kind@);
    }
    let nodes = root.named("Relationship");
    let ghost all = relationship_nodes(*root);
    assert(nodes@.map_values(|c: &Node| *c) == all);
    let mut i: usize = 0;
    assert(all.skip(0) =~= all);
    while i < nodes.len()
        invariant
            i <= nodes@.len(),
            suffix@ == seq!['/'] + kind@,
            all == relationship_nodes(*root),
            nodes@.map_values(|c: &Node| *c) == all,
            first_related(all, kind@) == first_related(all.skip(i as int), kind@),
        decreases nodes.len() - i,
    {
        let n = nodes[i];
        assert(all.skip(i as int)[0] == *n);
        assert(all.skip(i as int).drop_first() =~= all.skip(i + 1));
        if ends_with(n.attr("Type"), suffix.as_str()) && !eq_ignore_ascii_case(
            n.attr("TargetMode"),
            "External",
        ) {
            return match resolve(source, n.attr("Target")) {
                Ok(target) => Ok(Some(target)),
                Err(e) => Err(e),
            };
        }
        i = i + 1;
    }
    Ok(None)
}


// ---------------------------------------------------------------------------
// The package

/// Largest input accepted, in bytes (64 MiB).
pub const MAX_INPUT: usize = 67108864;

/// Largest total of declared entry sizes, and of bytes read from the parts
/// of one package (128 MiB).
pub const MAX_EXPANDED: u64 = 134217728;

/// Largest XML part read (4 MiB).
pub const MAX_XML: u64 = 4194304;

/// The archive reader over the package bytes.
pub type Archive = zip::ZipArchive<std::io::Cursor<Vec<u8>>>;

/// An archive entry: its name, its declared uncompressed size, the bytes
/// that reading it yields, whether the archive opens it (`by_index`) and
/// whether reading it to its end succeeds.
pub type Entry = (Seq<char>, u64, Seq<u8>, bool, bool);

/// The entries of an archive in directory order.
pub uninterp spec fn archive_entries(archive: zip::ZipArchive<std::io::Cursor<Vec<u8>>>) -> Seq<Entry>;

/// The entries that the ZIP reader finds in these bytes, in directory
/// order; nothing when it refuses them.
pub uninterp spec fn zip_entries(bytes: Seq<u8>) -> Option<Seq<Entry>>;

/// No two entries share a name.
pub open spec fn distinct_names(e: Seq<Entry>) -> bool {
    forall|i: int, j: int| 0 <= i < j < e.len() ==> e[i].0 != e[j].0
}

/// Sum of the declared sizes.
pub open spec fn declared_total(e: Seq<Entry>) -> int
    decreases e.len(),
{
    if e.len() == 0 {
        0
    } else {
        declared_total(e.drop_last()) + e.last().1
    }
}

/// Index of the entry named `name`.
pub open spec fn find_entry(e: Seq<Entry>, name: Seq<char>) -> Option<int> {
    if exists|i: int| 0 <= i < e.len() && e[i].0 == name {
        Some(choose|i: int| 0 <= i < e.len() && e[i].0 == name)
    } else {
        None
    }
}

/// At most `n` leading bytes of `s`.
pub open spec fn prefix(s: Seq<u8>, n: int) -> Seq<u8> {
    if s.len() <= n {
        s
    } else {
        s.take(n)
    }
}

/// `zip::ZipArchive::new` over the bytes held in memory
/// (`std::io::Cursor::new`). Claimed without proof: the call succeeds
/// exactly when `zip_entries` names entries for the bytes, and the archive
/// then holds those entries; the archive keeps its entries in a map keyed by
/// name, so no two share one.
#[verifier::external_body]
fn open_archive(bytes: Vec<u8>) -> (r: Result<Archive, zip::result::ZipError>)
    ensures
        match zip_entries(bytes@) {
            Some(e) => r matches Ok(a) && archive_entries(a) == e && distinct_names(e),
            None => r is Err,
        },
{
    zip::ZipArchive::new(std::io::Cursor::new(bytes))
}

/// `ZipArchive::len`: the number of entries.
#[verifier::external_body]
fn archive_len(archive: &Archive) -> (r: usize)
    ensures
        r == archive_entries(*archive).len(),
{
    archive.len()
}

/// `ZipArchive::index_for_name`: the index of the entry with this name.
#[verifier::external_body]
fn index_for_name(archive: &Archive, name: &str) -> (r: Option<usize>)
    ensures
        match r {
            Some(i) => i < archive_entries(*archive).len() && archive_entries(*archive)[i as int].0
                == name@,
            None => forall|i: int|
                0 <= i < archive_entries(*archive).len() ==> archive_entries(*archive)[i].0 != name@,
        },
{
    archive.index_for_name(name)
}

/// `ZipArchive::by_index`, then `ZipFile::size`: the declared uncompressed
/// size of an entry. Opening fails for an index past the end, and for
/// entries the archive cannot open (encrypted, unknown compression, a bad
/// local header); whether it opens an entry is part of the entry.
#[verifier::external_body]
fn entry_size(archive: &mut Archive, index: usize) -> (r: Result<u64, zip::result::ZipError>)
    ensures
        archive_entries(*final(archive)) == archive_entries(*old(archive)),
        (r is Ok) == (index < archive_entries(*old(archive)).len() && archive_entries(
            *old(archive),
        )[index as int].3),
        r matches Ok(size) ==> size == archive_entries(*old(archive))[index as int].1,
{
    archive.by_index(index).map(|file| file.size())
}

/// `ZipArchive::by_index`, then `Read::take(cap)` and `Read::read_to_end`:
/// at most `cap` bytes of an entry's content. An entry shorter than `cap`
/// is read to its end, so the read succeeds exactly when reading the entry
/// to its end does; of a longer entry only a prefix is read, and nothing is
/// claimed of whether that succeeds.
#[verifier::external_body]
fn read_entry(archive: &mut Archive, index: usize, cap: u64) -> (r: Result<Vec<u8>, Error>)
    ensures
        archive_entries(*final(archive)) == archive_entries(*old(archive)),
        r matches Ok(bytes) ==> index < archive_entries(*old(archive)).len() && bytes@ == prefix(
            archive_entries(*old(archive))[index as int].2,
            cap as int,
        ),
        r matches Err(e) ==> e is Zip || e is Io,
        index < archive_entries(*old(archive)).len() && archive_entries(*old(archive))[index as int].3
            && archive_entries(*old(archive))[index as int].2.len() < cap ==> (r is Ok) == archive_entries(
            *old(archive),
        )[index as int].4,
{
    let file = archive.by_index(index).map_err(Error::Zip)?;
    let mut bytes = Vec::new();
    file.take(cap).read_to_end(&mut bytes).map_err(Error::Io)?;
    Ok(bytes)
}

/// `zip::result::ZipError::InvalidArchive` with this reason.
#[verifier::external_body]
fn invalid_archive(reason: &'static str) -> zip::result::ZipError {
    zip::result::ZipError::InvalidArchive(reason.into())
}

/// The error reported for a refused central directory (a missing end
/// record is reported as an archive error).
pub open spec fn fault_error(f: DirectoryFault) -> Error {
    match f {
        DirectoryFault::MissingEndRecord => Error::Invalid("Missing ZIP end record"),
        DirectoryFault::Zip64 => Error::Invalid("ZIP64 packages are not supported"),
        DirectoryFault::Split => Error::Invalid("Split ZIP packages are not supported"),
        DirectoryFault::TooManyEntries => Error::Limit("Package exceeds 4096 entries"),
        DirectoryFault::Bounds => Error::Invalid("Invalid ZIP directory bounds"),
        DirectoryFault::Truncated => Error::Invalid("Truncated ZIP directory"),
        DirectoryFault::BadEntry => Error::Invalid("Invalid ZIP directory entry"),
        DirectoryFault::EntryOverrun => Error::Invalid("ZIP entry exceeds directory bounds"),
        DirectoryFault::CountMismatch => Error::Invalid("ZIP entry count does not match directory"),
    }
}

/// `e` is how the fault `f` is reported.
pub open spec fn reports(e: Error, f: DirectoryFault) -> bool {
    if f is MissingEndRecord {
        e is Zip
    } else {
        e == fault_error(f)
    }
}

fn directory_error(f: DirectoryFault) -> (e: Error)
    ensures
        reports(e, f),
{
    match f {
        DirectoryFault::MissingEndRecord => Error::Zip(invalid_archive("Missing ZIP end record")),
        DirectoryFault::Zip64 => Error::Invalid("ZIP64 packages are not supported"),
        DirectoryFault::Split => Error::Invalid("Split ZIP packages are not supported"),
        DirectoryFault::TooManyEntries => Error::Limit("Package exceeds 4096 entries"),
        DirectoryFault::Bounds => Error::Invalid("Invalid ZIP directory bounds"),
        DirectoryFault::Truncated => Error::Invalid("Truncated ZIP directory"),
        DirectoryFault::BadEntry => Error::Invalid("Invalid ZIP directory entry"),
        DirectoryFault::EntryOverrun => Error::Invalid("ZIP entry exceeds directory bounds"),
        DirectoryFault::CountMismatch => Error::Invalid("ZIP entry count does not match directory"),
    }
}

/// Adds one entry's declared size to the running total of a package.
pub fn add_expanded(total: u64, size: u64) -> (r: Result<u64, Error>)
    ensures
        total + size > u64::MAX ==> r == Err::<u64, Error>(Error::Limit("Expanded package is too large")),
        total + size <= u64::MAX && total + size > MAX_EXPANDED ==> r == Err::<u64, Error>(
            Error::Limit("Expanded package exceeds 128 MiB"),
        ),
        total + size <= MAX_EXPANDED ==> r == Ok::<u64, Error>((total + size) as u64),
{
    match total.checked_add(size) {
        None => Err(Error::Limit("Expanded package is too large")),
        Some(sum) => if sum > MAX_EXPANDED {
            Err(Error::Limit("Expanded package exceeds 128 MiB"))
        } else {
            Ok(sum)
        },
    }
}

/// The entry named `name` (meaningful when the entries hold one).
pub open spec fn part_entry(entries: Seq<Entry>, name: Seq<char>) -> Entry {
    entries[find_entry(entries, name)->Some_0]
}

/// Reading an entry of at most `limit` bytes succeeds with budget `total`
/// spent: it opens and reads, its declared size and content fit the limit
/// and its content fits the rest of the 128 MiB read budget.
pub open spec fn readable(e: Entry, limit: u64, total: u64) -> bool {
    &&& e.3
    &&& e.4
    &&& e.1 <= limit
    &&& e.2.len() <= limit
    &&& total + e.2.len() <= MAX_EXPANDED
}

/// What `Package::read` gives for a held entry with budget `total` spent,
/// and the budget spent afterwards.
pub open spec fn read_outcome(e: Entry, limit: u64, total: u64, r: Result<Vec<u8>, Error>, after: u64) -> bool {
    if !e.3 {
        r matches Err(Error::Zip(_)) && after == total
    } else if e.1 > limit {
        r == Err::<Vec<u8>, Error>(Error::Limit("Package part is too large")) && after == total
    } else if e.4 && e.2.len() <= limit {
        if total + e.2.len() <= MAX_EXPANDED {
            r matches Ok(b) && b@ == e.2 && after == total + e.2.len()
        } else {
            r == Err::<Vec<u8>, Error>(Error::Limit("Package read budget exceeded"))
        }
    } else {
        r matches Err(x) && (x is Zip || x is Io || x == Error::Limit("Package read budget exceeded"))
    }
}

/// The part `name` is held, reads within 4 MiB and the budget, and parses.
pub open spec fn xml_ready(entries: Seq<Entry>, name: Seq<char>, total: u64) -> bool {
    &&& find_entry(entries, name) is Some
    &&& readable(part_entry(entries, name), MAX_XML, total)
    &&& xml::parses(part_entry(entries, name).2)
}

/// `x` is an error that `Package::relationships` can give for `source`:
/// one of reading its relationship part, or the first target of that part
/// that does not resolve.
pub open spec fn relations_error(entries: Seq<Entry>, source: Seq<char>, total: u64, x: Error) -> bool {
    ||| xml_error(entries, relation_part_spec(source), total, x)
    ||| exists|root: Node|
        #[trigger] part_root(entries, relation_part_spec(source), root) && first_failure(
            utf8(source),
            relationship_nodes(root),
        ) == Some(x)
}

/// `x` is an error that `Package::related_by_type` can give: one of
/// reading the relationship part of `source`, or the failure to resolve
/// the target of its first internal relationship of type `kind`.
pub open spec fn related_error(entries: Seq<Entry>, source: Seq<char>, kind: Seq<char>, total: u64, x: Error) -> bool {
    ||| xml_error(entries, relation_part_spec(source), total, x)
    ||| exists|root: Node|
        #[trigger] part_root(entries, relation_part_spec(source), root) && (first_related(
            relationship_nodes(root),
            kind,
        ) matches Some(n) && resolve_spec(utf8(source), utf8(attr_spec(n, "Target"@))) == Err::<
            Seq<Seq<u8>>,
            Error,
        >(x))
}

/// `x` is an error that `Package::xml` can give for the part `name` with
/// budget `total` spent: the missing part, the size limit, the budget
/// limit, or what parsing the content gives; a read that fails partway
/// (an entry that does not read to its end, or content longer than its
/// declared size) leaves the error open among those of the archive.
pub open spec fn xml_error(entries: Seq<Entry>, name: Seq<char>, total: u64, x: Error) -> bool {
    if find_entry(entries, name) is None {
        x matches Error::MissingPart(n) && n@ == name
    } else {
        let e = part_entry(entries, name);
        if !e.3 {
            x is Zip
        } else if e.1 > MAX_XML {
            x == Error::Limit("Package part is too large")
        } else if e.4 && e.2.len() <= MAX_XML {
            if total + e.2.len() > MAX_EXPANDED {
                x == Error::Limit("Package read budget exceeded")
            } else {
                xml::parse_result(e.2, Err(x))
            }
        } else {
            x is Zip || x is Io || x == Error::Limit("Package read budget exceeded")
        }
    }
}

/// The first entry from `i` on that the archive cannot open, or whose
/// declared size takes the running total past 128 MiB; the number of
/// entries when there is none.
pub open spec fn expansion_stop(e: Seq<Entry>, i: int) -> int
    decreases e.len() - i,
{
    if i < 0 || i >= e.len() {
        e.len() as int
    } else if !e[i].3 || declared_total(e.take(i + 1)) > MAX_EXPANDED {
        i
    } else {
        expansion_stop(e, i + 1)
    }
}

/// The entries of the package that `Package::new` opens from these bytes;
/// nothing when it refuses them.
pub open spec fn opened_entries(bytes: Seq<u8>) -> Option<Seq<Entry>> {
    if bytes.len() > MAX_INPUT {
        None
    } else {
        match directory(bytes) {
            Err(_) => None,
            Ok(count) => match zip_entries(bytes) {
                None => None,
                Some(e) => if e.len() == count && expansion_stop(e, 0) == e.len() {
                    Some(e)
                } else {
                    None
                },
            },
        }
    }
}

proof fn lemma_stop_range(e: Seq<Entry>, i: int)
    requires
        0 <= i,
    ensures
        i <= expansion_stop(e, i) <= e.len() || (i > e.len() && expansion_stop(e, i) == e.len()),
    decreases e.len() - i,
{
    if i < e.len() {
        lemma_stop_range(e, i + 1);
    }
}

proof fn lemma_stop_total(e: Seq<Entry>, i: int)
    requires
        0 <= i,
        i < e.len() || e.len() == 0,
        expansion_stop(e, i) == e.len(),
    ensures
        declared_total(e) <= MAX_EXPANDED,
    decreases e.len() - i,
{
    assert(e.take(e.len() as int) =~= e);
    if i + 1 < e.len() {
        lemma_stop_total(e, i + 1);
    }
}

/// Entries that all open and whose declared sizes add up past 128 MiB stop
/// the expansion scan at an entry that opens, so opening such a package
/// fails with a limit error.
proof fn lemma_expanded_limit(e: Seq<Entry>)
    requires
        declared_total(e) > MAX_EXPANDED,
        forall|i: int| 0 <= i < e.len() ==> #[trigger] e[i].3,
    ensures
        0 <= expansion_stop(e, 0) < e.len(),
        e[expansion_stop(e, 0)].3,
{
    lemma_stop_range(e, 0);
    if expansion_stop(e, 0) == e.len() {
        lemma_stop_total(e, 0);
    }
}

/// An opened Office package and the bytes read from it so far.
pub struct Package {
    archive: Archive,
    read_bytes: u64,
}

impl Package {
    /// The entries of the package: name, declared size, content.
    pub closed spec fn entries(&self) -> Seq<Entry> {
        archive_entries(self.archive)
    }

    /// Bytes read from parts so far.
    pub closed spec fn read_total(&self) -> u64 {
        self.read_bytes
    }

    /// Entry names are distinct, there are at most 4096 entries, the
    /// archive opens every one of them and their declared sizes add up to at
    /// most 128 MiB.
    pub open spec fn wf(&self) -> bool {
        &&& distinct_names(self.entries())
        &&& self.entries().len() <= 4096
        &&& forall|i: int| 0 <= i < self.entries().len() ==> #[trigger] self.entries()[i].3
        &&& declared_total(self.entries()) <= MAX_EXPANDED
    }

    /// The package holds a part of this name.
    pub open spec fn holds(&self, name: Seq<char>) -> bool {
        find_entry(self.entries(), name) is Some
    }

    /// Opens a package from its bytes: at most 64 MiB, a central directory
    /// that passes `entry_count`, as many archive entries as directory
    /// records (fewer means a duplicate name), and declared sizes adding up
    /// to at most 128 MiB.
    #[verifier::loop_isolation(false)]
    pub fn new(bytes: Vec<u8>) -> (r: Result<Package, Error>)
        ensures
            bytes@.len() > MAX_INPUT ==> r == Err::<Package, Error>(Error::Limit("Input exceeds 64 MiB")),
            bytes@.len() <= MAX_INPUT ==> match directory(bytes@) {
                Err(f) => r matches Err(e) && reports(e, f),
                Ok(count) => match zip_entries(bytes@) {
                    None => r matches Err(Error::Zip(_)),
                    Some(e) => (e.len() == count && declared_total(e) > MAX_EXPANDED && (forall|i: int|
                        0 <= i < e.len() ==> #[trigger] e[i].3) ==> (r matches Err(Error::Limit(_))))
                        && if e.len() != count {
                        r == Err::<Package, Error>(Error::Invalid("Duplicate package entry"))
                    } else if expansion_stop(e, 0) < e.len() {
                        if e[expansion_stop(e, 0)].3 {
                            r matches Err(Error::Limit(_))
                        } else {
                            r matches Err(Error::Zip(_))
                        }
                    } else {
                        r matches Ok(p) && p.entries() == e
                    },
                },
            },
            r matches Ok(p) ==> p.wf() && p.read_total() == 0 && opened_entries(bytes@) == Some(
                p.entries(),
            ),
            opened_entries(bytes@) is Some ==> r is Ok,
    {
        proof {
            if bytes@.len() <= MAX_INPUT && directory(bytes@) is Ok && zip_entries(bytes@) is Some {
                let e = zip_entries(bytes@)->Some_0;
                lemma_stop_range(e, 0);
                if declared_total(e) > MAX_EXPANDED && (forall|i: int| 0 <= i < e.len() ==> #[trigger] e[i].3) {
                    lemma_expanded_limit(e);
                }
            }
        }
        if bytes.len() > MAX_INPUT {
            return Err(Error::Limit("Input exceeds 64 MiB"));
        }
        let count = match entry_count(bytes.as_slice()) {
            Ok(n) => n,
            Err(f) => return Err(directory_error(f)),
        };
        let mut archive = match open_archive(bytes) {
            Ok(a) => a,
            Err(e) => return Err(Error::Zip(e)),
        };
        let n = archive_len(&archive);
        if n != count {
            return Err(Error::Invalid("Duplicate package entry"));
        }
        let ghost entries = archive_entries(archive);
        let mut expanded: u64 = 0;
        let mut i: usize = 0;
        while i < n
            invariant
                i <= n,
                n == entries.len(),
                archive_entries(archive) == entries,
                expanded == declared_total(entries.take(i as int)),
                expanded <= MAX_EXPANDED,
                expansion_stop(entries, 0) == expansion_stop(entries, i as int),
                forall|j: int| 0 <= j < i ==> #[trigger] entries[j].3,
            decreases n - i,
        {
            let size = match entry_size(&mut archive, i) {
                Ok(s) => s,
                Err(e) => return Err(Error::Zip(e)),
            };
            assert(entries.take(i + 1).drop_last() =~= entries.take(i as int));
            expanded = match add_expanded(expanded, size) {
                Ok(t) => t,
                Err(e) => return Err(e),
            };
            i = i + 1;
        }
        assert(entries.take(n as int) =~= entries);
        Ok(Package { archive, read_bytes: 0 })
    }

    /// Whether the package holds a part of this name.
    pub fn has(&self, part: &str) -> (r: bool)
        ensures
            r == self.holds(part@),
    {
        index_for_name(&self.archive, part).is_some()
    }

    /// The bytes of a part of at most `limit` bytes. Every byte read counts
    /// against the package's read budget of 128 MiB; once a read passes it,
    /// that read and every later one fails.
    pub fn read(&mut self, part: &str, limit: u64) -> (r: Result<Vec<u8>, Error>)
        requires
            old(self).wf(),
            limit < u64::MAX,
        ensures
            final(self).wf(),
            final(self).entries() == old(self).entries(),
            final(self).read_total() >= old(self).read_total(),
            !old(self).holds(part@) ==> (r matches Err(Error::MissingPart(name)) && name@ == part@
                && final(self).read_total() == old(self).read_total()),
            r matches Ok(bytes) ==> find_entry(old(self).entries(), part@) matches Some(i) && bytes@
                == old(self).entries()[i].2 && old(self).entries()[i].1 <= limit && bytes@.len()
                <= limit && final(self).read_total() == old(self).read_total() + bytes@.len()
                && final(self).read_total() <= MAX_EXPANDED,
            r == Err::<Vec<u8>, Error>(Error::Limit("Package part is too large")) ==> (find_entry(
                old(self).entries(),
                part@,
            ) matches Some(i) && old(self).entries()[i].1 > limit),
            r == Err::<Vec<u8>, Error>(Error::Limit("Package read budget exceeded")) ==> (find_entry(
                old(self).entries(),
                part@,
            ) matches Some(i) && (old(self).entries()[i].2.len() > limit || old(self).read_total()
                + old(self).entries()[i].2.len() > MAX_EXPANDED || old(self).read_total()
                > MAX_EXPANDED)),
            old(self).holds(part@) ==> read_outcome(
                part_entry(old(self).entries(), part@),
                limit,
                old(self).read_total(),
                r,
                final(self).read_total(),
            ),
            r matches Err(x) ==> (x is MissingPart || x is Limit || x is Zip || x is Io),
    {
        let ghost entries = archive_entries(self.archive);
        let index = match index_for_name(&self.archive, part) {
            Some(i) => i,
            None => return Err(Error::MissingPart(part.to_owned())),
        };
        proof {
            assert(find_entry(entries, part@) == Some(index as int)) by {
                let j = choose|j: int| 0 <= j < entries.len() && entries[j].0 == part@;
                assert(j == index as int);
            }
        }
        let size = match entry_size(&mut self.archive, index) {
            Ok(s) => s,
            Err(e) => return Err(Error::Zip(e)),
        };
        if size > limit {
            return Err(Error::Limit("Package part is too large"));
        }
        let bytes = read_entry(&mut self.archive, index, limit + 1)?;
        let length = bytes.len() as u64;
        self.read_bytes = self.read_bytes.saturating_add(length);
        if length > limit || self.read_bytes > MAX_EXPANDED {
            return Err(Error::Limit("Package read budget exceeded"));
        }
        Ok(bytes)
    }

    /// A part parsed as XML (at most 4 MiB).
    pub fn xml(&mut self, part: &str) -> (r: Result<Node, Error>)
        requires
            old(self).wf(),
        ensures
            final(self).wf(),
            final(self).entries() == old(self).entries(),
            !old(self).holds(part@) ==> (r matches Err(Error::MissingPart(name)) && name@ == part@),
            r matches Ok(n) ==> part_root(old(self).entries(), part@, n) && sound(n, MAX_DEPTH as int),
            old(self).holds(part@) && part_entry(old(self).entries(), part@).3 && part_entry(
                old(self).entries(),
                part@,
            ).1 > MAX_XML ==> r == Err::<Node, Error>(Error::Limit("Package part is too large")),
            old(self).holds(part@) && readable(
                part_entry(old(self).entries(), part@),
                MAX_XML,
                old(self).read_total(),
            ) ==> xml::parse_result(part_entry(old(self).entries(), part@).2, r)
                && final(self).read_total() == old(self).read_total() + part_entry(
                old(self).entries(),
                part@,
            ).2.len(),
            !old(self).holds(part@) ==> final(self).read_total() == old(self).read_total(),
            xml_ready(old(self).entries(), part@, old(self).read_total()) ==> r is Ok,
            r is Ok ==> xml_ready(old(self).entries(), part@, old(self).read_total())
                && final(self).read_total() == old(self).read_total() + part_entry(
                old(self).entries(),
                part@,
            ).2.len(),
            r matches Err(x) ==> xml_error(old(self).entries(), part@, old(self).read_total(), x),
    {
        let bytes = self.read(part, MAX_XML)?;
        xml::parse(bytes.as_slice())
    }

    /// A part parsed as XML, or nothing when the package lacks it.
    pub fn optional_xml(&mut self, part: &str) -> (r: Result<Option<Node>, Error>)
        requires
            old(self).wf(),
        ensures
            final(self).wf(),
            final(self).entries() == old(self).entries(),
            !old(self).holds(part@) ==> r == Ok::<Option<Node>, Error>(None),
            old(self).holds(part@) ==> (r is Err || (r matches Ok(Some(n)) && part_root(
                old(self).entries(),
                part@,
                n,
            ) && sound(n, MAX_DEPTH as int))),
            !old(self).holds(part@) ==> final(self).read_total() == old(self).read_total(),
            xml_ready(old(self).entries(), part@, old(self).read_total()) ==> r is Ok
                && final(self).read_total() == old(self).read_total() + part_entry(
                old(self).entries(),
                part@,
            ).2.len(),
            r matches Ok(Some(_)) ==> xml_ready(old(self).entries(), part@, old(self).read_total())
                && final(self).read_total() == old(self).read_total() + part_entry(
                old(self).entries(),
                part@,
            ).2.len(),
            r matches Err(x) ==> xml_error(old(self).entries(), part@, old(self).read_total(), x),
    {
        if self.has(part) {
            match self.xml(part) {
                Ok(n) => Ok(Some(n)),
                Err(e) => Err(e),
            }
        } else {
            Ok(None)
        }
    }

    /// The internal relationships of the part `source` (the package itself
    /// for an empty name): each Id with the part it points at.
    pub fn relationships(&mut self, source: &str) -> (r: Result<Vec<(String, String)>, Error>)
        requires
            old(self).wf(),
        ensures
            final(self).wf(),
            final(self).entries() == old(self).entries(),
            r matches Ok(m) ==> unique_keys(m@) && relations_of(old(self).entries(), source@, m@),
            !old(self).holds(relation_part_spec(source@)) ==> (r matches Ok(m) && m@.len() == 0)
                && final(self).read_total() == old(self).read_total(),
            xml_ready(old(self).entries(), relation_part_spec(source@), old(self).read_total())
                ==> final(self).read_total() == old(self).read_total() + part_entry(
                old(self).entries(),
                relation_part_spec(source@),
            ).2.len(),
            xml_ready(old(self).entries(), relation_part_spec(source@), old(self).read_total()) && (
            forall|root: Node|
                #[trigger] part_root(old(self).entries(), relation_part_spec(source@), root) ==> first_failure(
                    utf8(source@),
                    relationship_nodes(root),
                ) is None) ==> r is Ok,
            r matches Err(x) ==> relations_error(old(self).entries(), source@, old(self).read_total(), x),
            r is Ok && old(self).holds(relation_part_spec(source@)) ==> xml_ready(
                old(self).entries(),
                relation_part_spec(source@),
                old(self).read_total(),
            ),
            xml_ready(old(self).entries(), relation_part_spec(source@), old(self).read_total()) ==> (
            r matches Err(x) ==> exists|root: Node|
                #[trigger] part_root(old(self).entries(), relation_part_spec(source@), root) && first_failure(
                    utf8(source@),
                    relationship_nodes(root),
                ) == Some(x)),
    {
        let path = relation_part(source);
        match self.optional_xml(path.as_str())? {
            None => Ok(Vec::new()),
            Some(root) => {
                let r = relationship_targets(source, &root);
                proof {
                    assert(part_root(self.entries(), relation_part_spec(source@), root));
                    if r is Ok {
                        assert(targets_of(source@, root, r->Ok_0@));
                    }
                }
                r
            },
        }
    }

    /// The part that the first internal relationship of type `kind` from
    /// `source` points at.
    pub fn related_by_type(&mut self, source: &str, kind: &str) -> (r: Result<Option<String>, Error>)
        requires
            old(self).wf(),
        ensures
            final(self).wf(),
            final(self).entries() == old(self).entries(),
            !old(self).holds(relation_part_spec(source@)) ==> r == Ok::<Option<String>, Error>(None),
            r matches Ok(x) ==> related_part(old(self).entries(), source@, kind@, xml::opt_text(x)),
            !old(self).holds(relation_part_spec(source@)) ==> final(self).read_total() == old(
                self,
            ).read_total(),
            xml_ready(old(self).entries(), relation_part_spec(source@), old(self).read_total())
                ==> final(self).read_total() == old(self).read_total() + part_entry(
                old(self).entries(),
                relation_part_spec(source@),
            ).2.len(),
            xml_ready(old(self).entries(), relation_part_spec(source@), old(self).read_total()) && (
            forall|root: Node|
                #[trigger] part_root(old(self).entries(), relation_part_spec(source@), root)
                    ==> resolves_first(source@, root, kind@)) ==> r is Ok,
            xml_ready(old(self).entries(), relation_part_spec(source@), old(self).read_total()) && (
            forall|root: Node|
                #[trigger] part_root(old(self).entries(), relation_part_spec(source@), root)
                    ==> first_related(relationship_nodes(root), kind@) is None) ==> r == Ok::<
                Option<String>,
                Error,
            >(None),
            r matches Err(x) ==> related_error(old(self).entries(), source@, kind@, old(self).read_total(), x),
            r matches Ok(Some(_)) ==> xml_ready(
                old(self).entries(),
                relation_part_spec(source@),
                old(self).read_total(),
            ) && final(self).read_total() == old(self).read_total() + part_entry(
                old(self).entries(),
                relation_part_spec(source@),
            ).2.len(),
    {
        let path = relation_part(source);
        match self.optional_xml(path.as_str())? {
            None => Ok(None),
            Some(root) => {
                let r = related_target(source, &root, kind);
                proof {
                    assert(part_root(self.entries(), relation_part_spec(source@), root));
                    if r is Ok {
                        assert(related_in(source@, root, kind@, xml::opt_text(r->Ok_0)));
                    }
                }
                r
            },
        }
    }
}

/// `root` is the element tree of the package part `part`, a part of at most
/// 4 MiB.
pub open spec fn part_root(entries: Seq<Entry>, part: Seq<char>, root: Node) -> bool {
    &&& find_entry(entries, part) matches Some(i)
    &&& entries[i].2.len() <= MAX_XML
    &&& xml_tree(entries[i].2, root)
}

/// The relationships `m` are those that the relationship part under `root`
/// declares for `source`: every internal target resolves, and each Id maps
/// to the target of its last relationship.
pub open spec fn targets_of(source: Seq<char>, root: Node, m: Seq<(String, String)>) -> bool {
    &&& first_failure(utf8(source), relationship_nodes(root)) is None
    &&& forall|id: Seq<char>|
        #![trigger get_spec(m, id)]
        match get_spec(m, id) {
            Some(v) => last_target(utf8(source), relationship_nodes(root), id) == Some(utf8(v@)),
            None => last_target(utf8(source), relationship_nodes(root), id) is None,
        }
}

/// `m` holds the internal relationships of the part `source` in a package
/// with these entries: none when it has no relationship part, else those
/// that its relationship part declares.
pub open spec fn relations_of(entries: Seq<Entry>, source: Seq<char>, m: Seq<(String, String)>) -> bool {
    if find_entry(entries, relation_part_spec(source)) is None {
        m.len() == 0
    } else {
        exists|root: Node| #[trigger] part_root(entries, relation_part_spec(source), root) && targets_of(source, root, m)
    }
}

/// `target` is the part that the first internal relationship of type `kind`
/// under `root` points at, resolved against `source`.
pub open spec fn related_in(source: Seq<char>, root: Node, kind: Seq<char>, target: Option<Seq<char>>) -> bool {
    match first_related(relationship_nodes(root), kind) {
        None => target is None,
        Some(n) => match resolve_spec(utf8(source), utf8(attr_spec(n, "Target"@))) {
            Ok(parts) => target matches Some(t) && utf8(t) == join(parts),
            Err(_) => false,
        },
    }
}

/// The first internal relationship of type `kind` under `root`, if there is
/// one, has a target that resolves against `source`.
pub open spec fn resolves_first(source: Seq<char>, root: Node, kind: Seq<char>) -> bool {
    match first_related(relationship_nodes(root), kind) {
        None => true,
        Some(n) => resolve_spec(utf8(source), utf8(attr_spec(n, "Target"@))) is Ok,
    }
}

/// `target` is the part that the first internal relationship of type `kind`
/// from the part `source` points at in a package with these entries; none
/// when it has no relationship part.
pub open spec fn related_part(entries: Seq<Entry>, source: Seq<char>, kind: Seq<char>, target: Option<Seq<char>>) -> bool {
    if find_entry(entries, relation_part_spec(source)) is None {
        target is None
    } else {
        exists|root: Node| #[trigger] part_root(entries, relation_part_spec(source), root) && related_in(source, root, kind, target)
    }
}

/// With budget `total` spent, the relationship part of `source` reads and
/// parses, the first internal relationship of type `kind` in it (if any)
/// resolves, and the part it points at reads and parses with the budget
/// that is then left.
pub open spec fn related_ready(entries: Seq<Entry>, source: Seq<char>, kind: Seq<char>, total: u64) -> bool {
    let rel = relation_part_spec(source);
    &&& xml_ready(entries, rel, total)
    &&& forall|root: Node|
        #[trigger] part_root(entries, rel, root) ==> resolves_first(
            source,
            root,
            kind,
        )
    &&& forall|part: Seq<char>|
        #[trigger] related_part(entries, source, kind, Some(part))
            ==> xml_ready(
            entries,
            part,
            (total + part_entry(entries, rel).2.len()) as u64,
        )
}

/// The kind of document whose main part has this root element.
pub fn document_kind(root: &str) -> (r: Result<Kind, Error>)
    ensures
        root@ == "document"@ ==> r == Ok::<Kind, Error>(Kind::DOCX),
        root@ == "presentation"@ ==> r == Ok::<Kind, Error>(Kind::PPTX),
        root@ == "workbook"@ ==> r == Ok::<Kind, Error>(Kind::XLSX),
        root@ != "document"@ && root@ != "presentation"@ && root@ != "workbook"@ ==> r == Err::<
            Kind,
            Error,
        >(Error::Invalid("Only DOCX, PPTX and XLSX are supported")),
{
    proof {
        reveal_strlit("document");
        reveal_strlit("presentation");
        reveal_strlit("workbook");
        assert("document"@.len() != "presentation"@.len());
        assert("workbook"@.len() != "presentation"@.len());
        assert("document"@[0] != "workbook"@[0]);
    }
    if str_eq(root, "document") {
        Ok(Kind::DOCX)
    } else if str_eq(root, "presentation") {
        Ok(Kind::PPTX)
    } else if str_eq(root, "workbook") {
        Ok(Kind::XLSX)
    } else {
        Err(Error::Invalid("Only DOCX, PPTX and XLSX are supported"))
    }
}

/// An opened document: its package, the name of its main part, that part's
/// XML and the kind of document it is.
pub struct Opened {
    pub package: Package,
    pub part: String,
    pub root: Node,
    pub kind: Kind,
}

/// Opens an Office document from its bytes: the package, the main part that
/// the package relationships name as `officeDocument`, and its kind, told by
/// the main part's root element.
pub fn parse_reader(input: Vec<u8>) -> (r: Result<Opened, Error>)
    ensures
        input@.len() > MAX_INPUT ==> r == Err::<Opened, Error>(Error::Limit("Input exceeds 64 MiB")),
        input@.len() <= MAX_INPUT ==> (directory(input@) matches Err(f) ==> (r matches Err(e) && reports(e, f))),
        r matches Ok(o) ==> o.package.wf() && o.package.holds(o.part@) && sound(o.root, MAX_DEPTH as int)
            && document_kind_spec(o.root.name@) == Some(o.kind) && opened_entries(input@) == Some(
            o.package.entries(),
        ) && related_part(o.package.entries(), ""@, "officeDocument"@, Some(o.part@)) && part_root(
            o.package.entries(),
            o.part@,
            o.root,
        ),
        opened_entries(input@) matches Some(e) && no_main_part(e) ==> r == Err::<Opened, Error>(
            Error::Invalid("Only DOCX, PPTX and XLSX packages are supported"),
        ),
        opened_entries(input@) matches Some(e) && related_ready(e, ""@, "officeDocument"@, 0) && has_main_part(e) && (
        forall|part: Seq<char>, root: Node|
            related_part(e, ""@, "officeDocument"@, Some(part)) && #[trigger] part_root(e, part, root)
                ==> document_kind_spec(root.name@) is Some) ==> r is Ok,
        opened_entries(input@) matches Some(e) && related_ready(e, ""@, "officeDocument"@, 0) && has_main_part(e) && (
        forall|part: Seq<char>, root: Node|
            related_part(e, ""@, "officeDocument"@, Some(part)) && #[trigger] part_root(e, part, root)
                ==> document_kind_spec(root.name@) is None) ==> r == Err::<Opened, Error>(
            Error::Invalid("Only DOCX, PPTX and XLSX are supported"),
        ),
{
    let mut package = Package::new(input)?;
    let ghost e = package.entries();
    let part = match package.related_by_type("", "officeDocument")? {
        Some(p) => p,
        None => return Err(Error::Invalid("Only DOCX, PPTX and XLSX packages are supported")),
    };
    assert(related_part(e, ""@, "officeDocument"@, Some(part@)));
    let root = package.xml(part.as_str())?;
    assert(part_root(e, part@, root));
    let kind = match document_kind(root.name.as_str()) {
        Ok(k) => k,
        Err(x) => return Err(x),
    };
    Ok(Opened { package, part, root, kind })
}

/// A package with these entries has no main part: no package
/// relationship part, or one that reads, parses and has no internal
/// `officeDocument` relationship.
pub open spec fn no_main_part(e: Seq<Entry>) -> bool {
    let rel = relation_part_spec(""@);
    ||| find_entry(e, rel) is None
    ||| (xml_ready(e, rel, 0) && forall|root: Node|
        #[trigger] part_root(e, rel, root) ==> first_related(relationship_nodes(root), "officeDocument"@) is None)
}

/// The package relationship part of a package with these entries has an
/// internal `officeDocument` relationship.
pub open spec fn has_main_part(e: Seq<Entry>) -> bool {
    forall|root: Node|
        #[trigger] part_root(e, relation_part_spec(""@), root) ==> first_related(
            relationship_nodes(root),
            "officeDocument"@,
        ) is Some
}

/// The kind named by a main part's root element.
pub open spec fn document_kind_spec(name: Seq<char>) -> Option<Kind> {
    if name == "document"@ {
        Some(Kind::DOCX)
    } else if name == "presentation"@ {
        Some(Kind::PPTX)
    } else if name == "workbook"@ {
        Some(Kind::XLSX)
    } else {
        None
    }
}

} // verus!
