//! Automatic list numbering labels (`buAutoNum` schemes).
use super::chart_data::parse_usize;
use crate::digits::{decimal, push_all, push_padded};
use crate::error::Error;
use crate::text::{ascii_chars, ascii_string, str_eq, utf8};
use crate::xml::{attr_spec, Node};
use vstd::prelude::*;
use vstd::string::StringSliceAdditionalSpecFns;

verus! {

broadcast use vstd::seq::group_seq_axioms;

/// How list items are counted.
#[derive(PartialEq, Eq, Structural, Clone, Copy)]
pub enum Numeral {
    Decimal,
    Alphabetic,
    Roman,
}

/// A numbering scheme: numeral kind, upper case, text before and after.
pub open spec fn scheme_spec(scheme: Seq<char>) -> Option<(Numeral, bool, Seq<u8>, Seq<u8>)> {
    let period = ". ".spec_bytes();
    let paren = ") ".spec_bytes();
    let open = "(".spec_bytes();
    let none = Seq::<u8>::empty();
    if scheme == "arabicPeriod"@ {
        Some((Numeral::Decimal, false, none, period))
    } else if scheme == "arabicParenR"@ {
        Some((Numeral::Decimal, false, none, paren))
    } else if scheme == "arabicParenBoth"@ {
        Some((Numeral::Decimal, false, open, paren))
    } else if scheme == "arabicPlain"@ {
        Some((Numeral::Decimal, false, none, " ".spec_bytes()))
    } else if scheme == "alphaLcPeriod"@ {
        Some((Numeral::Alphabetic, false, none, period))
    } else if scheme == "alphaUcPeriod"@ {
        Some((Numeral::Alphabetic, true, none, period))
    } else if scheme == "alphaLcParenR"@ {
        Some((Numeral::Alphabetic, false, none, paren))
    } else if scheme == "alphaUcParenR"@ {
        Some((Numeral::Alphabetic, true, none, paren))
    } else if scheme == "alphaLcParenBoth"@ {
        Some((Numeral::Alphabetic, false, open, paren))
    } else if scheme == "alphaUcParenBoth"@ {
        Some((Numeral::Alphabetic, true, open, paren))
    } else if scheme == "romanLcPeriod"@ {
        Some((Numeral::Roman, false, none, period))
    } else if scheme == "romanUcPeriod"@ {
        Some((Numeral::Roman, true, none, period))
    } else if scheme == "romanLcParenR"@ {
        Some((Numeral::Roman, false, none, paren))
    } else if scheme == "romanUcParenR"@ {
        Some((Numeral::Roman, true, none, paren))
    } else if scheme == "romanLcParenBoth"@ {
        Some((Numeral::Roman, false, open, paren))
    } else if scheme == "romanUcParenBoth"@ {
        Some((Numeral::Roman, true, open, paren))
    } else {
        None
    }
}

/// Values of the roman numeral table, largest first.
pub open spec fn roman_value(k: int) -> nat {
    if k == 0 {
        1000
    } else if k == 1 {
        900
    } else if k == 2 {
        500
    } else if k == 3 {
        400
    } else if k == 4 {
        100
    } else if k == 5 {
        90
    } else if k == 6 {
        50
    } else if k == 7 {
        40
    } else if k == 8 {
        10
    } else if k == 9 {
        9
    } else if k == 10 {
        5
    } else if k == 11 {
        4
    } else {
        1
    }
}

/// Lower-case symbols of the roman numeral table.
pub open spec fn roman_symbol(k: int) -> Seq<u8> {
    if k == 0 {
        "m".spec_bytes()
    } else if k == 1 {
        "cm".spec_bytes()
    } else if k == 2 {
        "d".spec_bytes()
    } else if k == 3 {
        "cd".spec_bytes()
    } else if k == 4 {
        "c".spec_bytes()
    } else if k == 5 {
        "xc".spec_bytes()
    } else if k == 6 {
        "l".spec_bytes()
    } else if k == 7 {
        "xl".spec_bytes()
    } else if k == 8 {
        "x".spec_bytes()
    } else if k == 9 {
        "ix".spec_bytes()
    } else if k == 10 {
        "v".spec_bytes()
    } else if k == 11 {
        "iv".spec_bytes()
    } else {
        "i".spec_bytes()
    }
}

/// `n` written greedily with the table entries from `k` on.
pub open spec fn roman_from(n: nat, k: int) -> Seq<u8>
    decreases 13 - k, n,
{
    if k < 0 || k >= 13 {
        Seq::empty()
    } else if n >= roman_value(k) {
        roman_symbol(k) + roman_from((n - roman_value(k)) as nat, k)
    } else {
        roman_from(n, k + 1)
    }
}

/// Lower-case roman numeral of 1..=3999.
pub open spec fn roman_spec(n: u32) -> Option<Seq<u8>> {
    if 1 <= n <= 3999 {
        Some(roman_from(n as nat, 0))
    } else {
        None
    }
}

/// The sum of the table values used by `roman_from`.
pub open spec fn roman_sum(n: nat, k: int) -> nat
    decreases 13 - k, n,
{
    if k < 0 || k >= 13 {
        0
    } else if n >= roman_value(k) {
        roman_value(k) + roman_sum((n - roman_value(k)) as nat, k)
    } else {
        roman_sum(n, k + 1)
    }
}

/// The value of a lower-case roman letter (0 for any other byte).
pub open spec fn letter_value(b: u8) -> int {
    if b == 105 {
        1
    } else if b == 118 {
        5
    } else if b == 120 {
        10
    } else if b == 108 {
        50
    } else if b == 99 {
        100
    } else if b == 100 {
        500
    } else if b == 109 {
        1000
    } else {
        0
    }
}

/// How a reader values a roman numeral: each letter counts its value,
/// negated when a larger letter follows it.
pub open spec fn numeral_value(s: Seq<u8>) -> int
    decreases s.len(),
{
    if s.len() == 0 {
        0
    } else if s.len() >= 2 && letter_value(s[0]) < letter_value(s[1]) {
        numeral_value(s.drop_first()) - letter_value(s[0])
    } else {
        numeral_value(s.drop_first()) + letter_value(s[0])
    }
}

proof fn lemma_ascii_literal(s: &str)
    requires
        vstd::string::is_ascii(s),
    ensures
        s.spec_bytes() == Seq::new(s@.len(), |i: int| s@[i] as u8),
{
    vstd::string::is_ascii_spec_bytes(s);
}

proof fn lemma_symbol_bytes(k: int)
    requires
        0 <= k < 13,
    ensures
        roman_symbol(k) == (if k == 0 {
            seq![109u8]
        } else if k == 1 {
            seq![99u8, 109u8]
        } else if k == 2 {
            seq![100u8]
        } else if k == 3 {
            seq![99u8, 100u8]
        } else if k == 4 {
            seq![99u8]
        } else if k == 5 {
            seq![120u8, 99u8]
        } else if k == 6 {
            seq![108u8]
        } else if k == 7 {
            seq![120u8, 108u8]
        } else if k == 8 {
            seq![120u8]
        } else if k == 9 {
            seq![105u8, 120u8]
        } else if k == 10 {
            seq![118u8]
        } else if k == 11 {
            seq![105u8, 118u8]
        } else {
            seq![105u8]
        }),
{
    reveal_strlit("m");
    reveal_strlit("cm");
    reveal_strlit("d");
    reveal_strlit("cd");
    reveal_strlit("c");
    reveal_strlit("xc");
    reveal_strlit("l");
    reveal_strlit("xl");
    reveal_strlit("x");
    reveal_strlit("ix");
    reveal_strlit("v");
    reveal_strlit("iv");
    reveal_strlit("i");
    if k == 0 {
        lemma_ascii_literal("m");
        assert(roman_symbol(k) =~= seq![109u8]);
    } else if k == 1 {
        lemma_ascii_literal("cm");
        assert(roman_symbol(k) =~= seq![99u8, 109u8]);
    } else if k == 2 {
        lemma_ascii_literal("d");
        assert(roman_symbol(k) =~= seq![100u8]);
    } else if k == 3 {
        lemma_ascii_literal("cd");
        assert(roman_symbol(k) =~= seq![99u8, 100u8]);
    } else if k == 4 {
        lemma_ascii_literal("c");
        assert(roman_symbol(k) =~= seq![99u8]);
    } else if k == 5 {
        lemma_ascii_literal("xc");
        assert(roman_symbol(k) =~= seq![120u8, 99u8]);
    } else if k == 6 {
        lemma_ascii_literal("l");
        assert(roman_symbol(k) =~= seq![108u8]);
    } else if k == 7 {
        lemma_ascii_literal("xl");
        assert(roman_symbol(k) =~= seq![120u8, 108u8]);
    } else if k == 8 {
        lemma_ascii_literal("x");
        assert(roman_symbol(k) =~= seq![120u8]);
    } else if k == 9 {
        lemma_ascii_literal("ix");
        assert(roman_symbol(k) =~= seq![105u8, 120u8]);
    } else if k == 10 {
        lemma_ascii_literal("v");
        assert(roman_symbol(k) =~= seq![118u8]);
    } else if k == 11 {
        lemma_ascii_literal("iv");
        assert(roman_symbol(k) =~= seq![105u8, 118u8]);
    } else {
        lemma_ascii_literal("i");
        assert(roman_symbol(k) =~= seq![105u8]);
    }
}

/// Each entry of the roman numeral table is a standard numeral for its
/// value: one letter, or a smaller letter before a larger one (never a
/// letter four times over); read as a numeral it gives that value; its
/// first letter is worth at most the value and its last at least it.
pub proof fn law_roman_symbols(k: int)
    requires
        0 <= k < 13,
    ensures
        1 <= roman_symbol(k).len() <= 2,
        roman_symbol(k).len() == 2 ==> 0 < letter_value(roman_symbol(k)[0]) < letter_value(roman_symbol(k)[1]),
        forall|i: int| 0 <= i < roman_symbol(k).len() ==> letter_value(#[trigger] roman_symbol(k)[i]) > 0,
        numeral_value(roman_symbol(k)) == roman_value(k),
        letter_value(roman_symbol(k)[0]) <= roman_value(k),
        letter_value(roman_symbol(k).last()) >= roman_value(k),
{
    lemma_symbol_bytes(k);
    let s = roman_symbol(k);
    reveal_with_fuel(numeral_value, 3);
    if s.len() == 2 {
        assert(s.drop_first().drop_first() =~= Seq::<u8>::empty());
        assert(s.drop_first() =~= seq![s[1]]);
    } else {
        assert(s.drop_first() =~= Seq::<u8>::empty());
    }
}

proof fn lemma_numeral_append(a: Seq<u8>, b: Seq<u8>)
    requires
        a.len() == 0 || b.len() == 0 || letter_value(a.last()) >= letter_value(b[0]),
    ensures
        numeral_value(a + b) == numeral_value(a) + numeral_value(b),
    decreases a.len(),
{
    if a.len() == 0 {
        assert(a + b =~= b);
    } else if b.len() == 0 {
        assert(a + b =~= a);
    } else {
        assert((a + b).drop_first() =~= a.drop_first() + b);
        assert((a + b)[0] == a[0]);
        if a.len() >= 2 {
            assert((a + b)[1] == a[1]);
            assert(a.drop_first().last() == a.last());
        } else {
            assert((a + b)[1] == b[0]);
            assert(a.drop_first() =~= Seq::<u8>::empty());
        }
        lemma_numeral_append(a.drop_first(), b);
    }
}

proof fn lemma_values_decrease(j: int, k: int)
    requires
        0 <= j <= k < 13,
    ensures
        roman_value(k) <= roman_value(j),
{
}

proof fn lemma_roman_first(n: nat, k: int)
    requires
        0 <= k < 13,
        roman_from(n, k).len() > 0,
    ensures
        letter_value(roman_from(n, k)[0]) <= roman_value(k),
    decreases 13 - k, n,
{
    if n >= roman_value(k) {
        law_roman_symbols(k);
        assert(roman_from(n, k)[0] == roman_symbol(k)[0]);
    } else if k + 1 < 13 {
        lemma_roman_first(n, k + 1);
        lemma_values_decrease(k, k + 1);
    } else {
        assert(roman_from(n, k + 1).len() == 0);
    }
}

proof fn lemma_roman_value(n: nat, k: int)
    requires
        0 <= k <= 13,
    ensures
        numeral_value(roman_from(n, k)) == roman_sum(n, k),
    decreases 13 - k, n,
{
    if k < 13 {
        if n >= roman_value(k) {
            let rest = roman_from((n - roman_value(k)) as nat, k);
            lemma_roman_value((n - roman_value(k)) as nat, k);
            law_roman_symbols(k);
            if rest.len() > 0 {
                lemma_roman_first((n - roman_value(k)) as nat, k);
            }
            lemma_numeral_append(roman_symbol(k), rest);
        } else {
            lemma_roman_value(n, k + 1);
        }
    }
}

/// A roman list label, read back as a numeral, is the number it counts.
pub proof fn law_roman_reads_back(n: u32)
    requires
        1 <= n <= 3999,
    ensures
        roman_spec(n) matches Some(t) && numeral_value(t) == n,
{
    lemma_roman_value(n as nat, 0);
    law_roman_sum(n as nat);
}

/// The greedy roman numeral accounts for the whole number.
pub proof fn law_roman_sum(n: nat)
    ensures
        roman_sum(n, 0) == n,
{
    lemma_roman_sum(n, 0);
}

proof fn lemma_roman_sum(n: nat, k: int)
    requires
        0 <= k <= 12,
    ensures
        roman_sum(n, k) == n,
    decreases 13 - k, n,
{
    if n >= roman_value(k) {
        lemma_roman_sum((n - roman_value(k)) as nat, k);
    } else if k < 12 {
        lemma_roman_sum(n, k + 1);
    } else {
        assert(roman_sum(n, 13) == 0);
    }
}

pub fn roman(number: u32) -> (r: Option<Vec<u8>>)
    ensures
        match r {
            Some(t) => roman_spec(number) == Some(t@),
            None => roman_spec(number) is None,
        },
{
    if !(1 <= number && number <= 3999) {
        return None;
    }
    let values: [u32; 13] = [1000, 900, 500, 400, 100, 90, 50, 40, 10, 9, 5, 4, 1];
    let mut label: Vec<u8> = Vec::new();
    let mut n = number;
    let mut k: usize = 0;
    while k < 13
        invariant
            k <= 13,
            values@ == seq![1000u32, 900, 500, 400, 100, 90, 50, 40, 10, 9, 5, 4, 1],
            label@ + roman_from(n as nat, k as int) == roman_from(number as nat, 0),
        decreases 13 - k,
    {
        let value = values[k];
        assert(value == roman_value(k as int));
        while n >= value
            invariant
                k < 13,
                value == roman_value(k as int),
                value >= 1,
                label@ + roman_from(n as nat, k as int) == roman_from(number as nat, 0),
            decreases n,
        {
            let symbol = roman_symbol_exec(k);
            let ghost before = label@;
            push_all(&mut label, symbol.as_bytes());
            proof {
                assert(label@ + roman_from((n - value) as nat, k as int) =~= before + roman_from(
                    n as nat,
                    k as int,
                ));
            }
            n = n - value;
        }
        k = k + 1;
    }
    assert(roman_from(n as nat, 13) =~= Seq::<u8>::empty());
    assert(label@ =~= roman_from(number as nat, 0));
    Some(label)
}

fn roman_symbol_exec(k: usize) -> (r: &'static str)
    requires
        k < 13,
    ensures
        r.spec_bytes() == roman_symbol(k as int),
{
    if k == 0 {
        "m"
    } else if k == 1 {
        "cm"
    } else if k == 2 {
        "d"
    } else if k == 3 {
        "cd"
    } else if k == 4 {
        "c"
    } else if k == 5 {
        "xc"
    } else if k == 6 {
        "l"
    } else if k == 7 {
        "xl"
    } else if k == 8 {
        "x"
    } else if k == 9 {
        "ix"
    } else if k == 10 {
        "v"
    } else if k == 11 {
        "iv"
    } else {
        "i"
    }
}

/// ASCII upper case of one byte.
pub open spec fn ascii_upper(b: u8) -> u8 {
    if 97 <= b <= 122 {
        (b - 32) as u8
    } else {
        b
    }
}

/// The letter for item `index + 1`: `a`…`z`, then `aa`…`zz`, and so on.
pub open spec fn alphabetic_spec(number: u32) -> Option<Seq<u8>> {
    if number == 0 {
        None
    } else {
        let index = number - 1;
        Some(Seq::new((index / 26 + 1) as nat, |i: int| (97 + index % 26) as u8))
    }
}

/// The label of list item `number` in `scheme`; `None` for an unknown
/// scheme, for item 0 in alphabetic schemes and outside 1..=3999 in roman ones.
pub open spec fn format_spec(number: u32, scheme: Seq<char>) -> Option<Seq<char>> {
    match scheme_spec(scheme) {
        None => None,
        Some((numeral, uppercase, prefix, suffix)) => {
            let label = match numeral {
                Numeral::Decimal => Some(decimal(number as nat)),
                Numeral::Alphabetic => alphabetic_spec(number),
                Numeral::Roman => roman_spec(number),
            };
            match label {
                None => None,
                Some(l) => Some(
                    ascii_chars(
                        prefix + (if uppercase {
                            l.map_values(|b: u8| ascii_upper(b))
                        } else {
                            l
                        }) + suffix,
                    ),
                ),
            }
        },
    }
}

fn scheme_exec(scheme: &str) -> (r: Option<(Numeral, bool, &'static str, &'static str)>)
    ensures
        match r {
            Some((n, u, p, s)) => scheme_spec(scheme@) == Some((n, u, p.spec_bytes(), s.spec_bytes())),
            None => scheme_spec(scheme@) is None,
        },
{
    proof {
        reveal_strlit("");
        crate::text::lemma_empty_bytes("");
    }
    if str_eq(scheme, "arabicPeriod") {
        Some((Numeral::Decimal, false, "", ". "))
    } else if str_eq(scheme, "arabicParenR") {
        Some((Numeral::Decimal, false, "", ") "))
    } else if str_eq(scheme, "arabicParenBoth") {
        Some((Numeral::Decimal, false, "(", ") "))
    } else if str_eq(scheme, "arabicPlain") {
        Some((Numeral::Decimal, false, "", " "))
    } else if str_eq(scheme, "alphaLcPeriod") {
        Some((Numeral::Alphabetic, false, "", ". "))
    } else if str_eq(scheme, "alphaUcPeriod") {
        Some((Numeral::Alphabetic, true, "", ". "))
    } else if str_eq(scheme, "alphaLcParenR") {
        Some((Numeral::Alphabetic, false, "", ") "))
    } else if str_eq(scheme, "alphaUcParenR") {
        Some((Numeral::Alphabetic, true, "", ") "))
    } else if str_eq(scheme, "alphaLcParenBoth") {
        Some((Numeral::Alphabetic, false, "(", ") "))
    } else if str_eq(scheme, "alphaUcParenBoth") {
        Some((Numeral::Alphabetic, true, "(", ") "))
    } else if str_eq(scheme, "romanLcPeriod") {
        Some((Numeral::Roman, false, "", ". "))
    } else if str_eq(scheme, "romanUcPeriod") {
        Some((Numeral::Roman, true, "", ". "))
    } else if str_eq(scheme, "romanLcParenR") {
        Some((Numeral::Roman, false, "", ") "))
    } else if str_eq(scheme, "romanUcParenR") {
        Some((Numeral::Roman, true, "", ") "))
    } else if str_eq(scheme, "romanLcParenBoth") {
        Some((Numeral::Roman, false, "(", ") "))
    } else if str_eq(scheme, "romanUcParenBoth") {
        Some((Numeral::Roman, true, "(", ") "))
    } else {
        None
    }
}

/// The label of list item `number` in `scheme` (see `format_spec`).
pub fn format(number: u32, scheme: &str) -> (r: Option<String>)
    ensures
        match r {
            Some(t) => format_spec(number, scheme@) == Some(t@),
            None => format_spec(number, scheme@) is None,
        },
{
    let (numeral, uppercase, prefix, suffix) = match scheme_exec(scheme) {
        Some(s) => s,
        None => return None,
    };
    let label: Vec<u8> = match numeral {
        Numeral::Decimal => {
            let mut l: Vec<u8> = Vec::new();
            push_padded(&mut l, number as u64, 1);
            proof {
                crate::xlsx::dates::lemma_padded_one(number as nat);
                assert(l@ =~= decimal(number as nat));
            }
            l
        },
        Numeral::Alphabetic => {
            if number == 0 {
                return None;
            }
            let index = number - 1;
            let letter: u8 = (97 + index % 26) as u8;
            let count = index / 26 + 1;
            let mut l: Vec<u8> = Vec::new();
            let mut i: u32 = 0;
            while i < count
                invariant
                    i <= count,
                    l@ == Seq::new(i as nat, |j: int| letter),
                decreases count - i,
            {
                l.push(letter);
                proof {
                    assert(l@ =~= Seq::new((i + 1) as nat, |j: int| letter));
                }
                i = i + 1;
            }
            proof {
                assert(l@ =~= alphabetic_spec(number).unwrap());
            }
            l
        },
        Numeral::Roman => match roman(number) {
            Some(l) => l,
            None => return None,
        },
    };
    let mut out: Vec<u8> = Vec::new();
    push_all(&mut out, prefix.as_bytes());
    let ghost before = out@;
    let mut i: usize = 0;
    while i < label.len()
        invariant
            i <= label@.len(),
            out@ == before + (if uppercase {
                label@.take(i as int).map_values(|b: u8| ascii_upper(b))
            } else {
                label@.take(i as int)
            }),
        decreases label.len() - i,
    {
        let b = label[i];
        out.push(if uppercase && 97 <= b && b <= 122 {
            b - 32
        } else {
            b
        });
        proof {
            assert(label@.take(i + 1) =~= label@.take(i as int).push(b));
            assert(label@.take(i + 1).map_values(|b: u8| ascii_upper(b)) =~= label@.take(i as int).map_values(
                |b: u8| ascii_upper(b),
            ).push(ascii_upper(b)));
        }
        i = i + 1;
    }
    assert(label@.take(i as int) =~= label@);
    push_all(&mut out, suffix.as_bytes());
    Some(ascii_string(&out))
}

/// List levels that keep their own counter.
pub const LIST_LEVELS: usize = 9;

/// `str::parse::<u32>`: an optional `+` and digits whose value fits in
/// `u32`.
pub open spec fn parse_u32_spec(b: Seq<u8>) -> Option<u32> {
    match super::chart_data::parse_usize_spec(b) {
        Some(v) => if v <= u32::MAX {
            Some(v as u32)
        } else {
            None
        },
        None => None,
    }
}

/// Where a numbered list starts: its `startAt` clamped to 1..=32767, or 1.
pub open spec fn start_spec(bullet: Node) -> u32 {
    match parse_u32_spec(utf8(attr_spec(bullet, "startAt"@))) {
        Some(v) => if v < 1 {
            1
        } else if v > 32767 {
            32767
        } else {
            v
        },
        None => 1,
    }
}

/// The automatic numbering counters of a text body, one per list level; 0
/// means the level has not been numbered since it was last reset.
pub struct ListCounters {
    pub counters: Vec<u32>,
}

impl ListCounters {
    pub open spec fn wf(&self) -> bool {
        self.counters@.len() == LIST_LEVELS
    }

    /// All levels fresh.
    pub fn new() -> (r: ListCounters)
        ensures
            r.wf(),
            forall|j: int| 0 <= j < LIST_LEVELS ==> r.counters@[j] == 0,
    {
        let mut counters: Vec<u32> = Vec::new();
        let mut i: usize = 0;
        while i < LIST_LEVELS
            invariant
                i <= LIST_LEVELS,
                counters@.len() == i,
                forall|j: int| 0 <= j < i ==> counters@[j] == 0,
            decreases LIST_LEVELS - i,
        {
            counters.push(0);
            i = i + 1;
        }
        ListCounters { counters }
    }

    /// The label of the next automatically numbered paragraph at `level`
    /// (a `buAutoNum` bullet), and whether its scheme was unknown so that
    /// decimal numbers are used. A fresh level starts at the bullet's
    /// `startAt`; the counter then moves on by one. A level beyond the
    /// ninth is an error.
    pub fn number(&mut self, level: usize, bullet: &Node) -> (r: Result<(String, bool), Error>)
        requires
            old(self).wf(),
            level < LIST_LEVELS ==> old(self).counters@[level as int] < u32::MAX,
        ensures
            final(self).wf(),
            level >= LIST_LEVELS ==> r == Err::<(String, bool), Error>(
                Error::Invalid("Invalid PPTX list level"),
            ) && final(self).counters@ == old(self).counters@,
            level < LIST_LEVELS ==> {
                let current = old(self).counters@[level as int];
                let n = if current == 0 {
                    start_spec(*bullet)
                } else {
                    current
                };
                &&& final(self).counters@ == old(self).counters@.update(level as int, (n + 1) as u32)
                &&& r matches Ok((label, fallback)) && match format_spec(n, attr_spec(*bullet, "type"@)) {
                    Some(t) => label@ == t && !fallback,
                    None => Some(label@) == format_spec(n, "arabicPeriod"@) && fallback,
                }
            },
    {
        if level >= LIST_LEVELS {
            return Err(Error::Invalid("Invalid PPTX list level"));
        }
        let mut n = self.counters[level];
        if n == 0 {
            n = match parse_usize(bullet.attr("startAt")) {
                Some(v) => if v <= 4_294_967_295 {
                    let v = v as u32;
                    if v < 1 {
                        1
                    } else if v > 32767 {
                        32767
                    } else {
                        v
                    }
                } else {
                    1
                },
                None => 1,
            };
        }
        let result = match format(n, bullet.attr("type")) {
            Some(label) => (label, false),
            None => {
                proof {
                    reveal_strlit("arabicPeriod");
                }
                match format(n, "arabicPeriod") {
                    Some(label) => (label, true),
                    None => {
                        proof {
                            assert(scheme_spec("arabicPeriod"@) is Some);
                        }
                        (String::new(), true)
                    },
                }
            },
        };
        self.counters.set(level, n + 1);
        Ok(result)
    }

    /// Ends a paragraph at `level`: deeper levels start afresh.
    pub fn finish(&mut self, level: usize)
        requires
            old(self).wf(),
        ensures
            final(self).wf(),
            forall|j: int| 0 <= j < LIST_LEVELS ==> #[trigger] final(self).counters@[j] == if j
                > level {
                0
            } else {
                old(self).counters@[j]
            },
    {
        if level >= LIST_LEVELS {
            return;
        }
        let mut j: usize = level + 1;
        while j < LIST_LEVELS
            invariant
                level < j <= LIST_LEVELS,
                self.wf(),
                forall|k: int| 0 <= k < LIST_LEVELS ==> #[trigger] self.counters@[k] == if level
                    < k < j {
                    0
                } else {
                    old(self).counters@[k]
                },
            decreases LIST_LEVELS - j,
        {
            self.counters.set(j, 0);
            j = j + 1;
        }
    }
}

} // verus!
