//! Validation of a ZIP central directory, read from the raw package bytes.
//!
//! The archive reader merges entries that share a name, so the physical
//! directory records are counted here first: a package whose record count
//! differs from the reader's entry count holds a duplicate entry.
use vstd::prelude::*;

verus! {

/// How far before the end of the input the end record may start: the
/// 22-byte record itself plus the longest comment.
pub const TAIL: usize = 65557;

/// Most directory entries a package may hold.
pub const MAX_ENTRIES: u16 = 4096;

/// Why a central directory was refused.
#[derive(Debug, Clone, Copy, PartialEq, Eq, Structural)]
pub enum DirectoryFault {
    MissingEndRecord,
    Zip64,
    Split,
    TooManyEntries,
    Bounds,
    Truncated,
    BadEntry,
    EntryOverrun,
    CountMismatch,
}

/// Little-endian 16-bit word at `i`.
pub open spec fn word(b: Seq<u8>, i: int) -> int {
    b[i] + 256 * b[i + 1]
}

/// Little-endian 32-bit word at `i`.
pub open spec fn dword(b: Seq<u8>, i: int) -> int {
    word(b, i) + 65536 * word(b, i + 2)
}

/// First offset at which the end record is searched.
pub open spec fn tail_start(len: int) -> int {
    if len > TAIL as int {
        len - TAIL as int
    } else {
        0
    }
}

/// Four bytes `P K c d` at `i`.
pub open spec fn signature(b: Seq<u8>, i: int, c: u8, d: u8) -> bool {
    b[i] == 0x50 && b[i + 1] == 0x4b && b[i + 2] == c && b[i + 3] == d
}

/// An end-of-central-directory record starts at `o`, and its comment runs
/// exactly to the end of the input.
pub open spec fn is_end_record(b: Seq<u8>, o: int) -> bool {
    &&& tail_start(b.len() as int) <= o
    &&& o + 22 <= b.len()
    &&& signature(b, o, 5, 6)
    &&& o + 22 + word(b, o + 20) == b.len()
}

/// The last end record at or before `o`.
pub open spec fn scan_end(b: Seq<u8>, o: int) -> Option<int>
    decreases o - tail_start(b.len() as int) + 1,
{
    if o < tail_start(b.len() as int) {
        None
    } else if is_end_record(b, o) {
        Some(o)
    } else {
        scan_end(b, o - 1)
    }
}

/// Walks `remaining` directory records from `position`, none of which may
/// pass `end`; gives the position after the last one.
pub open spec fn walk(b: Seq<u8>, position: int, end: int, remaining: nat) -> Result<int, DirectoryFault>
    decreases remaining,
{
    if remaining == 0 {
        Ok(position)
    } else if position + 46 > end {
        Err(DirectoryFault::Truncated)
    } else if !signature(b, position, 1, 2) {
        Err(DirectoryFault::BadEntry)
    } else {
        let next = position + 46 + word(b, position + 28) + word(b, position + 30) + word(
            b,
            position + 32,
        );
        if next > end {
            Err(DirectoryFault::EntryOverrun)
        } else {
            walk(b, next, end, (remaining - 1) as nat)
        }
    }
}

/// The number of central directory records of a package, or why its
/// directory is refused.
pub open spec fn directory(b: Seq<u8>) -> Result<usize, DirectoryFault> {
    match scan_end(b, b.len() - 22) {
        None => Err(DirectoryFault::MissingEndRecord),
        Some(o) => {
            let count = word(b, o + 10);
            let size = dword(b, o + 12);
            let start = dword(b, o + 16);
            if count == 0xffff || size == 0xffff_ffff || start == 0xffff_ffff {
                Err(DirectoryFault::Zip64)
            } else if word(b, o + 4) != 0 || word(b, o + 6) != 0 || word(b, o + 8) != count {
                Err(DirectoryFault::Split)
            } else if count > MAX_ENTRIES {
                Err(DirectoryFault::TooManyEntries)
            } else if start + size != o {
                Err(DirectoryFault::Bounds)
            } else {
                match walk(b, start, o, count as nat) {
                    Err(f) => Err(f),
                    Ok(p) => if p != o {
                        Err(DirectoryFault::CountMismatch)
                    } else {
                        Ok(count as usize)
                    },
                }
            }
        },
    }
}

/// What `scan_end` finds is the last end record below its start, and
/// nothing between them is one.
pub proof fn lemma_scan_end(b: Seq<u8>, o: int)
    ensures
        match scan_end(b, o) {
            Some(p) => is_end_record(b, p) && p <= o && forall|q: int|
                p < q <= o ==> !is_end_record(b, q),
            None => forall|q: int| q <= o ==> !is_end_record(b, q),
        },
    decreases o - tail_start(b.len() as int) + 1,
{
    if o >= tail_start(b.len() as int) && !is_end_record(b, o) {
        lemma_scan_end(b, o - 1);
    }
}

/// The directory is read from the last end record of the input: no later
/// offset holds one.
pub proof fn law_last_end_record(b: Seq<u8>)
    ensures
        scan_end(b, b.len() - 22) matches Some(o) ==> forall|q: int|
            o < q ==> !is_end_record(b, q),
        scan_end(b, b.len() - 22) is None ==> forall|q: int| !is_end_record(b, q),
{
    lemma_scan_end(b, b.len() - 22);
}

fn word_at(b: &[u8], i: usize) -> (r: u16)
    requires
        i + 1 < b@.len(),
    ensures
        r == word(b@, i as int),
{
    (b[i] as u16) + (b[i + 1] as u16) * 256
}

fn dword_at(b: &[u8], i: usize) -> (r: u32)
    requires
        i + 3 < b@.len(),
    ensures
        r == dword(b@, i as int),
{
    (b[i] as u32) + (b[i + 1] as u32) * 256 + (b[i + 2] as u32) * 65536 + (b[i + 3] as u32)
        * 16777216
}

fn signature_at(b: &[u8], i: usize, c: u8, d: u8) -> (r: bool)
    requires
        i + 3 < b@.len(),
    ensures
        r == signature(b@, i as int, c, d),
{
    b[i] == 0x50 && b[i + 1] == 0x4b && b[i + 2] == c && b[i + 3] == d
}

/// Offset of the last end record, searched backwards from the end.
fn find_end_record(b: &[u8]) -> (r: Option<usize>)
    ensures
        match r {
            Some(o) => scan_end(b@, b@.len() - 22) == Some(o as int) && is_end_record(b@, o as int),
            None => scan_end(b@, b@.len() - 22) is None,
        },
{
    let len = b.len();
    if len < 22 {
        return None;
    }
    let start: usize = if len > TAIL {
        len - TAIL
    } else {
        0
    };
    let mut o: usize = len - 22;
    loop
        invariant
            len == b@.len(),
            start == tail_start(len as int),
            start <= o <= len - 22,
            scan_end(b@, len - 22) == scan_end(b@, o as int),
        decreases o,
    {
        if signature_at(b, o, 5, 6) && word_at(b, o + 20) as usize == len - o - 22 {
            return Some(o);
        }
        if o == start {
            assert(scan_end(b@, o - 1) is None);
            return None;
        }
        o = o - 1;
    }
}

/// Counts the central directory records of `b`, following the end record
/// that closes the input.
#[verifier::loop_isolation(false)]
pub fn entry_count(b: &[u8]) -> (r: Result<usize, DirectoryFault>)
    ensures
        r == directory(b@),
        r matches Ok(n) ==> n <= MAX_ENTRIES,
{
    let o = match find_end_record(b) {
        None => return Err(DirectoryFault::MissingEndRecord),
        Some(o) => o,
    };
    let len = b.len();
    assert(o + 22 <= len);
    let count = word_at(b, o + 10);
    let size = dword_at(b, o + 12);
    let start = dword_at(b, o + 16);
    if count == 0xffff || size == 0xffff_ffff || start == 0xffff_ffff {
        return Err(DirectoryFault::Zip64);
    }
    if word_at(b, o + 4) != 0 || word_at(b, o + 6) != 0 || word_at(b, o + 8) != count {
        return Err(DirectoryFault::Split);
    }
    if count > MAX_ENTRIES {
        return Err(DirectoryFault::TooManyEntries);
    }
    let end: u64 = start as u64 + size as u64;
    if end != o as u64 {
        return Err(DirectoryFault::Bounds);
    }
    let mut position: u64 = start as u64;
    let mut i: u16 = 0;
    while i < count
        invariant
            o + 22 <= b@.len(),
            end == o,
            end == start as u64 + size as u64,
            position <= end,
            i <= count,
            walk(b@, start as int, o as int, count as nat) == walk(
                b@,
                position as int,
                o as int,
                (count - i) as nat,
            ),
        decreases count - i,
    {
        if position + 46 > end {
            return Err(DirectoryFault::Truncated);
        }
        let p = position as usize;
        if !signature_at(b, p, 1, 2) {
            return Err(DirectoryFault::BadEntry);
        }
        let next = position + 46 + word_at(b, p + 28) as u64 + word_at(b, p + 30) as u64
            + word_at(b, p + 32) as u64;
        if next > end {
            return Err(DirectoryFault::EntryOverrun);
        }
        position = next;
        i = i + 1;
    }
    if position != end {
        return Err(DirectoryFault::CountMismatch);
    }
    Ok(count as usize)
}

} // verus!
