//! XLSX number formats: built-in format ids and the rendering of stored
//! numbers in the supported number, percent, date and time codes.
use super::dates;
use super::decimal::{find_either, find_either_exec, leading_zeros, leading_zeros_exec, quantize_spec, slice_copy, Decimal, parse_decimal_spec};
use crate::digits::{all_digits, is_digit, lemma_int_of_zeros, zeros};
use crate::text::{ascii_chars, ascii_string, bytes_eq, str_eq};
use vstd::prelude::*;
use vstd::string::StringSliceAdditionalSpecFns;
use vstd::utf8::encode_utf8;

verus! {

broadcast use vstd::seq::group_seq_axioms;

/// The format code of a built-in number format id, for the ids this
/// renderer supports.
pub open spec fn builtin_spec(id: u32) -> Option<Seq<char>> {
    if id == 0 {
        Some("General"@)
    } else if id == 1 {
        Some("0"@)
    } else if id == 2 {
        Some("0.00"@)
    } else if id == 3 {
        Some("#,##0"@)
    } else if id == 4 {
        Some("#,##0.00"@)
    } else if id == 9 {
        Some("0%"@)
    } else if id == 10 {
        Some("0.00%"@)
    } else if id == 14 {
        Some("mm-dd-yy"@)
    } else if id == 15 {
        Some("d-mmm-yy"@)
    } else if id == 16 {
        Some("d-mmm"@)
    } else if id == 17 {
        Some("mmm-yy"@)
    } else if id == 18 {
        Some("h:mm AM/PM"@)
    } else if id == 19 {
        Some("h:mm:ss AM/PM"@)
    } else if id == 20 {
        Some("h:mm"@)
    } else if id == 21 {
        Some("h:mm:ss"@)
    } else if id == 22 {
        Some("m/d/yy h:mm"@)
    } else if id == 45 {
        Some("mm:ss"@)
    } else if id == 46 {
        Some("[h]:mm:ss"@)
    } else if id == 49 {
        Some("@"@)
    } else {
        None
    }
}

/// The format code of a built-in number format id.
pub fn builtin(id: u32) -> (r: Option<&'static str>)
    ensures
        match r {
            Some(code) => builtin_spec(id) == Some(code@),
            None => builtin_spec(id) is None,
        },
{
    match id {
        0 => Some("General"),
        1 => Some("0"),
        2 => Some("0.00"),
        3 => Some("#,##0"),
        4 => Some("#,##0.00"),
        9 => Some("0%"),
        10 => Some("0.00%"),
        14 => Some("mm-dd-yy"),
        15 => Some("d-mmm-yy"),
        16 => Some("d-mmm"),
        17 => Some("mmm-yy"),
        18 => Some("h:mm AM/PM"),
        19 => Some("h:mm:ss AM/PM"),
        20 => Some("h:mm"),
        21 => Some("h:mm:ss"),
        22 => Some("m/d/yy h:mm"),
        45 => Some("mm:ss"),
        46 => Some("[h]:mm:ss"),
        49 => Some("@"),
        _ => None,
    }
}

/// Integer digits with a comma before every group of three counted from the
/// end (`total` is the length of the whole digit run of which `s` is a prefix).
pub open spec fn grouping(s: Seq<u8>, total: int, grouped: bool) -> Seq<u8>
    decreases s.len(),
{
    if s.len() == 0 {
        seq![]
    } else {
        let i = s.len() - 1;
        grouping(s.drop_last(), total, grouped) + (if grouped && i > 0 && (total - i) % 3 == 0 {
            seq![44u8]
        } else {
            seq![]
        }) + seq![s.last()]
    }
}

/// The length of `s` once trailing zeros beyond position `lo` are dropped.
pub open spec fn trim_end(s: Seq<u8>, lo: int) -> int
    decreases s.len(),
{
    if s.len() > lo && s.len() > 0 && s.last() == 48 {
        trim_end(s.drop_last(), lo)
    } else {
        s.len() as int
    }
}

/// Some digit is not a zero.
pub open spec fn has_nonzero(s: Seq<u8>) -> bool {
    exists|i: int| 0 <= i < s.len() && s[i] != 48
}

pub open spec fn all_hashes(s: Seq<u8>) -> bool {
    forall|i: int| 0 <= i < s.len() ==> s[i] == 35
}

/// The shape of a `0`/`#,##0` number code: whether it ends in `%`, whether
/// it groups thousands, its number of decimals and how many of those are
/// mandatory `0`s (the rest must be optional `#`s); at most 15 decimals.
pub open spec fn number_code(c: Seq<u8>) -> Option<(bool, bool, int, int)> {
    let percent = c.len() > 0 && c.last() == 37;
    let body = if percent {
        c.drop_last()
    } else {
        c
    };
    let dot = find_either(body, 46, 46);
    let integer = body.take(dot);
    let decimals = if dot < body.len() {
        body.skip(dot + 1)
    } else {
        seq![]
    };
    let grouped = integer == "#,##0".spec_bytes();
    let required = leading_zeros(decimals);
    if !(integer == "0".spec_bytes() || grouped) {
        None
    } else if decimals.len() > 15 || !all_hashes(decimals.skip(required)) || (decimals.len() == 0
        && dot < body.len()) {
        None
    } else {
        Some((percent, grouped, decimals.len() as int, required))
    }
}

/// Rounded integer digits shown with `decimals` fraction digits: a minus sign
/// when asked, at least one integer digit, thousands commas when grouped,
/// trailing optional zeros dropped (the point too when nothing follows it).
pub open spec fn render_number(
    negative: bool,
    digits: Seq<u8>,
    decimals: int,
    required: int,
    grouped: bool,
    percent: bool,
) -> Seq<u8> {
    let pad: nat = if decimals + 1 > digits.len() {
        (decimals + 1 - digits.len()) as nat
    } else {
        0
    };
    let padded = zeros(pad) + digits;
    let split = padded.len() - decimals;
    let end = trim_end(padded, split + required);
    (if negative {
        seq![45u8]
    } else {
        seq![]
    }) + grouping(padded.take(split), split, grouped) + (if end > split {
        seq![46u8] + padded.subrange(split, end)
    } else {
        seq![]
    }) + (if percent {
        seq![37u8]
    } else {
        seq![]
    })
}

/// A number written in a `0` or `#,##0` code with up to 15 decimals
/// (`0` mandatory, then `#` optional) and an optional `%`: rounded half away
/// from zero, grouped by thousands for `#,##0`, optional trailing zeros
/// dropped, and a minus sign only when a nonzero digit is shown.
pub open spec fn number_spec(d: (bool, Seq<u8>, int), c: Seq<u8>) -> Option<Seq<u8>> {
    match number_code(c) {
        None => None,
        Some((percent, grouped, decimals, required)) => match quantize_spec(
            d.1,
            d.2,
            decimals + (if percent {
                2int
            } else {
                0int
            }),
            true,
        ) {
            None => None,
            Some(digits) => Some(
                render_number(
                    d.0 && has_nonzero(digits),
                    digits,
                    decimals,
                    required,
                    grouped,
                    percent,
                ),
            ),
        },
    }
}

proof fn lemma_trim_end(s: Seq<u8>, lo: int)
    ensures
        trim_end(s, lo) <= s.len(),
        lo <= s.len() ==> lo <= trim_end(s, lo),
    decreases s.len(),
{
    if s.len() > lo && s.len() > 0 && s.last() == 48 {
        lemma_trim_end(s.drop_last(), lo);
    }
}

/// Reads the shape of a number code (see `number_code`).
#[verifier::loop_isolation(false)]
fn number_code_exec(code: &[u8]) -> (r: Option<(bool, bool, usize, usize)>)
    ensures
        match r {
            Some((p, g, d, q)) => number_code(code@) == Some((p, g, d as int, q as int)) && d <= 15 && q <= d,
            None => number_code(code@) is None,
        },
{
    let percent = code.len() > 0 && code[code.len() - 1] == 37;
    let body = if percent {
        slice_copy(code, 0, code.len() - 1)
    } else {
        slice_copy(code, 0, code.len())
    };
    assert(body@ =~= (if percent {
        code@.drop_last()
    } else {
        code@
    }));
    let dot = find_either_exec(&body, 46, 46);
    let integer = slice_copy(&body, 0, dot);
    assert(integer@ =~= body@.take(dot as int));
    let decimals = if dot < body.len() {
        slice_copy(&body, dot + 1, body.len())
    } else {
        Vec::new()
    };
    assert(decimals@ =~= (if dot < body@.len() {
        body@.skip(dot + 1)
    } else {
        seq![]
    }));
    let grouped = bytes_eq(&integer, "#,##0".as_bytes());
    if !(bytes_eq(&integer, "0".as_bytes()) || grouped) {
        return None;
    }
    let required = leading_zeros_exec(&decimals);
    if decimals.len() > 15 {
        return None;
    }
    let mut k = required;
    proof {
        crate::xlsx::decimal::lemma_leading_zeros_pub(decimals@);
    }
    while k < decimals.len()
        invariant
            required <= k <= decimals@.len(),
            forall|i: int| required <= i < k ==> decimals@[i] == 35,
        decreases decimals.len() - k,
    {
        if decimals[k] != 35 {
            assert(decimals@.skip(required as int)[k - required] != 35);
            return None;
        }
        k = k + 1;
    }
    assert(all_hashes(decimals@.skip(required as int)));
    if decimals.len() == 0 && dot < body.len() {
        return None;
    }
    Some((percent, grouped, decimals.len(), required))
}

/// `digits` with zeros in front up to `width` digits.
fn left_pad(digits: &Vec<u8>, width: usize) -> (r: Vec<u8>)
    ensures
        r@ == zeros(
            (if width > digits@.len() {
                width - digits@.len()
            } else {
                0int
            }) as nat,
        ) + digits@,
{
    let pad: usize = if width > digits.len() {
        width - digits.len()
    } else {
        0
    };
    let mut padded: Vec<u8> = Vec::new();
    let mut z: usize = 0;
    while z < pad
        invariant
            z <= pad,
            padded@ == zeros(z as nat),
        decreases pad - z,
    {
        padded.push(48);
        proof {
            assert(zeros(z as nat).push(48u8) =~= zeros((z + 1) as nat));
        }
        z = z + 1;
    }
    let mut dcopy = digits.clone();
    padded.append(&mut dcopy);
    assert(padded@ =~= zeros(pad as nat) + digits@);
    padded
}

/// Appends the first `split` digits, with thousands commas when grouped.
fn push_grouped(out: &mut Vec<u8>, padded: &Vec<u8>, split: usize, grouped: bool)
    requires
        split <= padded@.len(),
    ensures
        final(out)@ == old(out)@ + grouping(padded@.take(split as int), split as int, grouped),
{
    let ghost head = out@;
    let mut index: usize = 0;
    assert(padded@.take(0) =~= Seq::<u8>::empty());
    while index < split
        invariant
            index <= split <= padded@.len(),
            out@ == head + grouping(padded@.take(index as int), split as int, grouped),
        decreases split - index,
    {
        if grouped && index > 0 && (split - index) % 3 == 0 {
            out.push(44);
        }
        out.push(padded[index]);
        proof {
            let t = padded@.take(index + 1);
            assert(t.drop_last() =~= padded@.take(index as int));
            assert(t.last() == padded@[index as int]);
            assert(out@ =~= head + grouping(t, split as int, grouped));
        }
        index = index + 1;
    }
}

/// The length of `padded` without trailing zeros beyond `lo`.
fn trimmed_end(padded: &Vec<u8>, lo: usize) -> (r: usize)
    requires
        lo <= padded@.len(),
    ensures
        r == trim_end(padded@, lo as int),
        lo <= r <= padded@.len(),
{
    let mut end = padded.len();
    assert(padded@.take(end as int) =~= padded@);
    while end > lo && padded[end - 1] == 48
        invariant
            lo <= end <= padded@.len(),
            trim_end(padded@, lo as int) == trim_end(padded@.take(end as int), lo as int),
        decreases end,
    {
        proof {
            assert(padded@.take(end as int).drop_last() =~= padded@.take(end - 1));
        }
        end = end - 1;
    }
    end
}

/// Lays out rounded digits (see `render_number`).
fn render_number_exec(
    negative: bool,
    digits: &Vec<u8>,
    decimals: usize,
    required: usize,
    grouped: bool,
    percent: bool,
) -> (r: Vec<u8>)
    requires
        decimals <= 15,
        required <= decimals,
        digits@.len() <= 1000,
    ensures
        r@ == render_number(negative, digits@, decimals as int, required as int, grouped, percent),
{
    let padded = left_pad(digits, decimals + 1);
    let split = padded.len() - decimals;
    let mut result: Vec<u8> = Vec::new();
    if negative {
        result.push(45);
    }
    push_grouped(&mut result, &padded, split, grouped);
    let end = trimmed_end(&padded, split + required);
    if end > split {
        result.push(46);
        let fraction = slice_copy(&padded, split, end);
        crate::digits::push_all(&mut result, &fraction);
    }
    if percent {
        result.push(37);
    }
    assert(result@ =~= render_number(negative, digits@, decimals as int, required as int, grouped, percent));
    result
}

/// Writes a decimal in a `0`/`#,##0` number code (see `number_spec`).
#[verifier::loop_isolation(false)]
pub fn number(value: &Decimal, code: &[u8]) -> (r: Option<Vec<u8>>)
    requires
        value.wf(),
    ensures
        match r {
            Some(t) => number_spec(value.model(), code@) == Some(t@),
            None => number_spec(value.model(), code@) is None,
        },
{
    let (percent, grouped, decimals, required) = match number_code_exec(code) {
        Some(shape) => shape,
        None => return None,
    };
    let places = decimals as i32 + if percent {
        2
    } else {
        0
    };
    let digits = match value.quantize(places, true) {
        Some(q) => q,
        None => return None,
    };
    let mut any_nonzero = false;
    let mut j: usize = 0;
    while j < digits.len()
        invariant
            j <= digits@.len(),
            any_nonzero == exists|i: int| 0 <= i < j && digits@[i] != 48,
        decreases digits.len() - j,
    {
        if digits[j] != 48 {
            any_nonzero = true;
        }
        j = j + 1;
    }
    let negative = value.negative && any_nonzero;
    assert(negative == (value.negative && has_nonzero(digits@)));
    assert(places as int == decimals as int + (if percent { 2int } else { 0int }));
    let r = render_number_exec(negative, &digits, decimals, required, grouped, percent);
    assert(number_spec(value.model(), code@) == Some(
        render_number(negative, digits@, decimals as int, required as int, grouped, percent),
    ));
    Some(r)
}

pub open spec fn ascii_lower(b: u8) -> u8 {
    if 65 <= b <= 90 {
        (b + 32) as u8
    } else {
        b
    }
}

pub open spec fn lower_bytes(s: Seq<u8>) -> Seq<u8> {
    s.map_values(|b: u8| ascii_lower(b))
}

/// ASCII lower case of a byte string.
pub fn lower_bytes_exec(s: &[u8]) -> (r: Vec<u8>)
    ensures
        r@ == lower_bytes(s@),
{
    let mut r: Vec<u8> = Vec::new();
    let mut i: usize = 0;
    while i < s.len()
        invariant
            i <= s@.len(),
            r@ == lower_bytes(s@.take(i as int)),
        decreases s.len() - i,
    {
        let b = s[i];
        r.push(if 65 <= b && b <= 90 {
            b + 32
        } else {
            b
        });
        proof {
            assert(lower_bytes(s@.take(i + 1)) =~= lower_bytes(s@.take(i as int)).push(ascii_lower(b)));
        }
        i = i + 1;
    }
    assert(s@.take(s@.len() as int) =~= s@);
    r
}

/// The text shown for a stored cell value in a number format code: the
/// value unchanged for `General` (any case) and `@`; a number, percent, date
/// or time rendering for the supported codes; `None` (the caller keeps the
/// raw value) for anything else, for values over 512 bytes, codes over 64
/// bytes and values that are not finite numbers.
pub open spec fn display_spec(raw: Seq<char>, code: Seq<char>, date1904: bool) -> Option<Seq<char>> {
    let rb = encode_utf8(raw);
    let cb = encode_utf8(code);
    if lower_bytes(cb) == "general".spec_bytes() || code == "@"@ {
        Some(raw)
    } else if rb.len() > 512 || cb.len() > 64 {
        None
    } else {
        match parse_decimal_spec(rb) {
            None => None,
            Some(d) => {
                let text = if cb.len() > 0 && (cb[0] == 48 || cb[0] == 35) {
                    number_spec(d, cb)
                } else {
                    dates::display_spec(d, lower_bytes(cb), date1904)
                };
                match text {
                    Some(t) => Some(ascii_chars(t)),
                    None => None,
                }
            },
        }
    }
}

/// Renders a stored cell value in a number format code (see `display_spec`).
pub fn display(raw: &str, code: &str, date1904: bool) -> (r: Option<String>)
    ensures
        match r {
            Some(t) => display_spec(raw@, code@, date1904) == Some(t@),
            None => display_spec(raw@, code@, date1904) is None,
        },
{
    let cb = code.as_bytes();
    let lc = lower_bytes_exec(cb);
    if bytes_eq(&lc, "general".as_bytes()) || str_eq(code, "@") {
        return Some(raw.to_owned());
    }
    if raw.as_bytes().len() > 512 || cb.len() > 64 {
        return None;
    }
    let value = match Decimal::parse(raw) {
        Some(v) => v,
        None => return None,
    };
    let text = if cb.len() > 0 && (cb[0] == 48 || cb[0] == 35) {
        number(&value, cb)
    } else {
        dates::display(&value, &lc, date1904)
    };
    match text {
        Some(t) => Some(ascii_string(&t)),
        None => None,
    }
}

} // verus!
