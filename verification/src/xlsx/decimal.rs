//! Exact decimal numbers read from XLSX cell text, and the test that a cell
//! value is a finite double-precision number.
use crate::digits::{
    all_digits, canonical, int_of, is_digit, lemma_all_digits_append, lemma_canonical_int_of,
    lemma_int_of_append, lemma_int_of_prefix_le, lemma_int_of_push, lemma_int_of_zeros,
    lemma_pow10_positive, no_leading_zero, pow10, zeros,
};
use vstd::prelude::*;
use vstd::string::StringSliceAdditionalSpecFns;

verus! {

broadcast use vstd::seq::group_seq_axioms;

/// Digits of `2^1024 - 2^970`: the smallest magnitude that reads as an
/// infinite `f64` (it is the tie between `f64::MAX` and `2^1024`, which rounds
/// to the even side, infinity).
pub const DOUBLE_LIMIT: &'static str = "179769313486231580793728971405303415079934132710037826936173778980444968292764750946649017977587207096330286416692887910946555547851940402630657488671505820681908902000708383676273854845817711531764475730270069855571366959622842914819860834936475292719074168444365510704342711559699508093042880177904174497792";

pub open spec fn double_limit() -> Seq<u8> {
    DOUBLE_LIMIT.spec_bytes()
}

/// Length of an optional leading `-` or `+`.
pub open spec fn sign_len(s: Seq<u8>) -> int {
    if s.len() > 0 && (s[0] == 45 || s[0] == 43) {
        1
    } else {
        0
    }
}

/// Index of the first byte equal to `a` or `b`, or the length when there is none.
pub open spec fn find_either(s: Seq<u8>, a: u8, b: u8) -> int
    decreases s.len(),
{
    if s.len() == 0 {
        0
    } else if s[0] == a || s[0] == b {
        0
    } else {
        1 + find_either(s.drop_first(), a, b)
    }
}

/// Number of leading `'0'` bytes.
pub open spec fn leading_zeros(s: Seq<u8>) -> int
    decreases s.len(),
{
    if s.len() == 0 || s[0] != 48 {
        0
    } else {
        1 + leading_zeros(s.drop_first())
    }
}

/// An optionally signed, non-empty run of digits, as an unbounded integer.
pub open spec fn signed_integer(s: Seq<u8>) -> Option<int> {
    let body = s.skip(sign_len(s));
    if body.len() == 0 || !all_digits(body) {
        None
    } else if s[0] == 45 {
        Some(-(int_of(body) as int))
    } else {
        Some(int_of(body) as int)
    }
}

/// `str::parse::<i32>`: a signed integer that fits in `i32`.
pub open spec fn parse_i32_spec(s: Seq<u8>) -> Option<int> {
    match signed_integer(s) {
        Some(v) => if i32::MIN <= v <= i32::MAX {
            Some(v)
        } else {
            None
        },
        None => None,
    }
}

/// The limit digit at `i`, comparing `a` padded on the right with zeros.
pub open spec fn padded_at(a: Seq<u8>, i: int) -> u8 {
    if 0 <= i < a.len() {
        a[i]
    } else {
        48
    }
}

/// `a`, read as the leading digits of a number with as many integer digits
/// as `b`, is strictly below `b` (comparison from position `i` on).
pub open spec fn below_from(a: Seq<u8>, b: Seq<u8>, i: int) -> bool
    decreases b.len() - i,
{
    if i >= b.len() || i < 0 {
        false
    } else if padded_at(a, i) < b[i] {
        true
    } else if padded_at(a, i) > b[i] {
        false
    } else {
        below_from(a, b, i + 1)
    }
}

/// `0.d₁d₂…dₙ × 10^point` (with `d₁ ≠ 0`, or no digits for zero) is below
/// the magnitude at which a decimal literal reads as an infinite `f64`.
pub open spec fn within_double_range(digits: Seq<u8>, point: int) -> bool {
    digits.len() == 0 || point < 309 || (point == 309 && below_from(digits, double_limit(), 0))
}

/// The mantissa part of an unsigned literal: up to the first `e`/`E`.
pub open spec fn split_literal(s: Seq<u8>) -> (Seq<u8>, Option<Seq<u8>>, Seq<u8>, Seq<u8>) {
    let u = s.skip(sign_len(s));
    let e = find_either(u, 101, 69);
    let mantissa = u.take(e);
    let exponent = if e < u.len() {
        Some(u.skip(e + 1))
    } else {
        None
    };
    let dot = find_either(mantissa, 46, 46);
    let integer = mantissa.take(dot);
    let fraction = if dot < mantissa.len() {
        mantissa.skip(dot + 1)
    } else {
        seq![]
    };
    (mantissa, exponent, integer, fraction)
}

/// `str::parse::<f64>` accepts the text and yields a finite number: an
/// optionally signed decimal with digits and at most one point, and an
/// optional exponent, whose magnitude is below the overflow limit.
pub open spec fn finite_number_spec(s: Seq<u8>) -> bool {
    let (mantissa, exponent, integer, fraction) = split_literal(s);
    let digits = integer + fraction;
    let x = match exponent {
        Some(t) => signed_integer(t),
        None => Some(0int),
    };
    &&& digits.len() > 0
    &&& all_digits(digits)
    &&& x is Some
    &&& within_double_range(
        digits.skip(leading_zeros(digits)),
        integer.len() - leading_zeros(digits) + x.unwrap(),
    )
}

/// The decimal read from cell text: sign, significant digits and the
/// position of the decimal point (`0.d₁d₂… × 10^point`).
pub open spec fn parse_decimal_spec(s: Seq<u8>) -> Option<(bool, Seq<u8>, int)> {
    let (mantissa, exponent, integer, fraction) = split_literal(s);
    let digits = integer + fraction;
    let x = match exponent {
        Some(t) => parse_i32_spec(t),
        None => Some(0int),
    };
    if x is None || x.unwrap() < -400 || x.unwrap() > 400 || digits.len() == 0 || !all_digits(
        digits,
    ) {
        None
    } else {
        let lead = leading_zeros(digits);
        let rest = digits.skip(lead);
        let point = integer.len() + x.unwrap() - lead;
        if within_double_range(rest, point) {
            Some((s.len() > 0 && s[0] == 45, rest, point))
        } else {
            None
        }
    }
}

/// A copy of `s[lo..hi]`.
pub fn slice_copy(s: &[u8], lo: usize, hi: usize) -> (r: Vec<u8>)
    requires
        lo <= hi <= s@.len(),
    ensures
        r@ == s@.subrange(lo as int, hi as int),
{
    let mut r: Vec<u8> = Vec::new();
    let mut i = lo;
    while i < hi
        invariant
            lo <= i <= hi <= s@.len(),
            r@ == s@.subrange(lo as int, i as int),
        decreases hi - i,
    {
        r.push(s[i]);
        proof {
            assert(s@.subrange(lo as int, i + 1) =~= s@.subrange(lo as int, i as int).push(s@[i as int]));
        }
        i = i + 1;
    }
    r
}

proof fn lemma_find_either_bound(s: Seq<u8>, a: u8, b: u8)
    ensures
        0 <= find_either(s, a, b) <= s.len(),
        find_either(s, a, b) < s.len() ==> (s[find_either(s, a, b)] == a || s[find_either(s, a, b)] == b),
        forall|j: int| 0 <= j < find_either(s, a, b) ==> s[j] != a && s[j] != b,
    decreases s.len(),
{
    if s.len() > 0 && !(s[0] == a || s[0] == b) {
        lemma_find_either_bound(s.drop_first(), a, b);
        assert forall|j: int| 0 <= j < find_either(s, a, b) implies s[j] != a && s[j] != b by {
            if j > 0 {
                assert(s[j] == s.drop_first()[j - 1]);
            }
        }
    }
}

proof fn lemma_find_either_unique(s: Seq<u8>, a: u8, b: u8, k: int)
    requires
        0 <= k <= s.len(),
        k < s.len() ==> (s[k] == a || s[k] == b),
        forall|j: int| 0 <= j < k ==> s[j] != a && s[j] != b,
    ensures
        find_either(s, a, b) == k,
    decreases s.len(),
{
    if s.len() > 0 && k > 0 {
        assert forall|j: int| 0 <= j < k - 1 implies s.drop_first()[j] != a && s.drop_first()[j] != b by {
            assert(s.drop_first()[j] == s[j + 1]);
        }
        lemma_find_either_unique(s.drop_first(), a, b, k - 1);
    }
}

/// First index of `a` or `b` in `s`, or its length.
pub fn find_either_exec(s: &[u8], a: u8, b: u8) -> (r: usize)
    ensures
        r == find_either(s@, a, b),
        r <= s@.len(),
{
    let mut i: usize = 0;
    while i < s.len()
        invariant
            i <= s@.len(),
            forall|j: int| 0 <= j < i ==> s@[j] != a && s@[j] != b,
        decreases s.len() - i,
    {
        if s[i] == a || s[i] == b {
            proof {
                lemma_find_either_unique(s@, a, b, i as int);
            }
            return i;
        }
        i = i + 1;
    }
    proof {
        lemma_find_either_unique(s@, a, b, i as int);
    }
    i
}

proof fn lemma_leading_zeros(s: Seq<u8>)
    ensures
        0 <= leading_zeros(s) <= s.len(),
        forall|j: int| 0 <= j < leading_zeros(s) ==> s[j] == 48,
        leading_zeros(s) < s.len() ==> s[leading_zeros(s)] != 48,
    decreases s.len(),
{
    if s.len() > 0 && s[0] == 48 {
        lemma_leading_zeros(s.drop_first());
        assert forall|j: int| 0 <= j < leading_zeros(s) implies s[j] == 48 by {
            if j > 0 {
                assert(s[j] == s.drop_first()[j - 1]);
            }
        }
    }
}

proof fn lemma_leading_zeros_unique(s: Seq<u8>, k: int)
    requires
        0 <= k <= s.len(),
        forall|j: int| 0 <= j < k ==> s[j] == 48,
        k < s.len() ==> s[k] != 48,
    ensures
        leading_zeros(s) == k,
    decreases s.len(),
{
    if k > 0 {
        assert forall|j: int| 0 <= j < k - 1 implies s.drop_first()[j] == 48 by {
            assert(s.drop_first()[j] == s[j + 1]);
        }
        lemma_leading_zeros_unique(s.drop_first(), k - 1);
    }
}

pub proof fn lemma_leading_zeros_pub(s: Seq<u8>)
    ensures
        0 <= leading_zeros(s) <= s.len(),
        forall|j: int| 0 <= j < leading_zeros(s) ==> s[j] == 48,
        leading_zeros(s) < s.len() ==> s[leading_zeros(s)] != 48,
{
    lemma_leading_zeros(s);
}

/// Number of leading `'0'` bytes of `s`.
pub fn leading_zeros_exec(s: &[u8]) -> (r: usize)
    ensures
        r == leading_zeros(s@),
{
    let mut i: usize = 0;
    while i < s.len() && s[i] == 48
        invariant
            i <= s@.len(),
            forall|j: int| 0 <= j < i ==> s@[j] == 48,
        decreases s.len() - i,
    {
        i = i + 1;
    }
    proof {
        lemma_leading_zeros_unique(s@, i as int);
    }
    i
}

/// Every byte of `s` is an ASCII digit.
pub fn all_digits_exec(s: &[u8]) -> (r: bool)
    ensures
        r == all_digits(s@),
{
    let mut i: usize = 0;
    while i < s.len()
        invariant
            i <= s@.len(),
            forall|j: int| 0 <= j < i ==> is_digit(#[trigger] s@[j]),
        decreases s.len() - i,
    {
        if !(48 <= s[i] && s[i] <= 57) {
            return false;
        }
        i = i + 1;
    }
    true
}

/// The value of a digit string, saturated at `cap`.
pub fn digits_value_capped(s: &[u8], cap: u128) -> (r: u128)
    requires
        all_digits(s@),
        cap <= u128::MAX / 16,
    ensures
        r == if int_of(s@) <= cap {
            int_of(s@)
        } else {
            cap as nat
        },
{
    let mut v: u128 = 0;
    let mut i: usize = 0;
    while i < s.len()
        invariant
            i <= s@.len(),
            all_digits(s@),
            cap <= u128::MAX / 16,
            v == if int_of(s@.take(i as int)) <= cap {
                int_of(s@.take(i as int))
            } else {
                cap as nat
            },
        decreases s.len() - i,
    {
        let d = s[i];
        proof {
            assert(is_digit(s@[i as int]));
            assert(s@.take(i + 1) =~= s@.take(i as int).push(d));
            lemma_int_of_push(s@.take(i as int), d);
        }
        let next = v * 10 + (d - 48) as u128;
        v = if next <= cap {
            next
        } else {
            cap
        };
        i = i + 1;
    }
    assert(s@.take(s@.len() as int) =~= s@);
    v
}

/// `str::parse::<i32>` on a byte string.
pub fn parse_i32(s: &[u8]) -> (r: Option<i32>)
    ensures
        match r {
            Some(v) => parse_i32_spec(s@) == Some(v as int),
            None => parse_i32_spec(s@) is None,
        },
{
    let sign: usize = if s.len() > 0 && (s[0] == 45 || s[0] == 43) {
        1
    } else {
        0
    };
    let body = slice_copy(s, sign, s.len());
    assert(body@ =~= s@.skip(sign_len(s@)));
    if body.len() == 0 || !all_digits_exec(&body) {
        return None;
    }
    let cap: u128 = 1_099_511_627_776;
    let v = digits_value_capped(&body, cap);
    if sign == 1 && s[0] == 45 {
        if v <= 2147483648 {
            Some((0 - (v as i64)) as i32)
        } else {
            None
        }
    } else if v <= 2147483647 {
        Some(v as i32)
    } else {
        None
    }
}

/// `0.digits × 10^point` is below the overflow limit of `f64` literals.
pub fn within_double_range_exec(digits: &[u8], point: i128) -> (r: bool)
    ensures
        r == within_double_range(digits@, point as int),
{
    if digits.len() == 0 || point < 309 {
        return true;
    }
    if point > 309 {
        return false;
    }
    let limit = DOUBLE_LIMIT.as_bytes();
    let mut i: usize = 0;
    while i < limit.len()
        invariant
            i <= limit@.len(),
            limit@ == double_limit(),
            digits@.len() > 0,
            point == 309,
            below_from(digits@, limit@, 0) == below_from(digits@, limit@, i as int),
        decreases limit.len() - i,
    {
        let d: u8 = if i < digits.len() {
            digits[i]
        } else {
            48
        };
        assert(d == padded_at(digits@, i as int));
        if d < limit[i] {
            assert(below_from(digits@, limit@, i as int));
            return true;
        }
        if d > limit[i] {
            assert(!below_from(digits@, limit@, i as int));
            return false;
        }
        assert(below_from(digits@, limit@, i as int) == below_from(digits@, limit@, i + 1));
        i = i + 1;
    }
    assert(!below_from(digits@, limit@, i as int));
    false
}

/// A decimal number: `±0.d₁d₂…dₙ × 10^point`, digits without a leading zero.
pub struct Decimal {
    pub negative: bool,
    pub digits: Vec<u8>,
    pub point: i32,
}

impl Decimal {
    pub open spec fn model(&self) -> (bool, Seq<u8>, int) {
        (self.negative, self.digits@, self.point as int)
    }

    /// Digits are ASCII digits without a leading zero, and the point lies
    /// in the range reached by at most 512 digits and an exponent of ±400.
    pub open spec fn wf(&self) -> bool {
        &&& all_digits(self.digits@)
        &&& no_leading_zero(self.digits@)
        &&& -2000 <= self.point <= 2000
        &&& self.digits@.len() <= 4000
    }

    /// Reads a decimal from cell text; `None` when the text is longer than
    /// 512 bytes (the longest cell value shown as a number), is not a finite
    /// number or has an exponent outside ±400.
    #[verifier::rlimit(40)]
    pub fn parse(raw: &str) -> (r: Option<Decimal>)
        ensures
            raw.spec_bytes().len() > 512 ==> r is None,
            raw.spec_bytes().len() <= 512 ==> match r {
                Some(d) => d.wf() && parse_decimal_spec(raw.spec_bytes()) == Some(d.model())
                    && -1000 <= d.point <= 1000 && d.digits@.len() <= 512,
                None => parse_decimal_spec(raw.spec_bytes()) is None,
            },
    {
        if raw.as_bytes().len() > 512 {
            return None;
        }
        let s = raw.as_bytes();
        let ghost sb = s@;
        let sign: usize = if s.len() > 0 && (s[0] == 45 || s[0] == 43) {
            1
        } else {
            0
        };
        let u = slice_copy(s, sign, s.len());
        assert(u@ =~= sb.skip(sign_len(sb)));
        let e = find_either_exec(&u, 101, 69);
        let mantissa = slice_copy(&u, 0, e);
        assert(mantissa@ =~= u@.take(e as int));
        let x: i32 = if e < u.len() {
            let t = slice_copy(&u, e + 1, u.len());
            assert(t@ =~= u@.skip(e + 1));
            match parse_i32(&t) {
                Some(v) => v,
                None => return None,
            }
        } else {
            0
        };
        if x < -400 || x > 400 {
            return None;
        }
        let dot = find_either_exec(&mantissa, 46, 46);
        let integer = slice_copy(&mantissa, 0, dot);
        assert(integer@ =~= mantissa@.take(dot as int));
        let fraction = if dot < mantissa.len() {
            slice_copy(&mantissa, dot + 1, mantissa.len())
        } else {
            Vec::new()
        };
        assert(fraction@ =~= (if dot < mantissa@.len() {
            mantissa@.skip(dot + 1)
        } else {
            seq![]
        }));
        let mut digits = integer.clone();
        let mut f2 = fraction.clone();
        digits.append(&mut f2);
        assert(digits@ =~= integer@ + fraction@);
        if digits.len() == 0 || !all_digits_exec(&digits) {
            return None;
        }
        let lead = leading_zeros_exec(&digits);
        proof {
            lemma_leading_zeros(digits@);
        }
        let rest = slice_copy(&digits, lead, digits.len());
        assert(rest@ =~= digits@.skip(lead as int));
        let point: i128 = integer.len() as i128 + x as i128 - lead as i128;
        if !within_double_range_exec(&rest, point) {
            return None;
        }
        proof {
            assert forall|i: int| 0 <= i < rest@.len() implies is_digit(#[trigger] rest@[i]) by {
                assert(rest@[i] == digits@[i + lead]);
            }
        }
        Some(Decimal { negative: s.len() > 0 && s[0] == 45, digits: rest, point: point as i32 })
    }
}

/// The exponent of a float literal, with its magnitude saturated at `2^100`.
fn exponent_saturated(t: &[u8]) -> (r: Option<i128>)
    ensures
        match r {
            None => signed_integer(t@) is None,
            Some(x) => signed_integer(t@) is Some && {
                let exact = signed_integer(t@).unwrap();
                let cap = 0x10000000000000000000000000int;
                &&& -cap <= x <= cap
                &&& (exact == x || (x == cap && exact > cap) || (x == -cap && exact < -cap))
            },
        },
{
    let tsign: usize = if t.len() > 0 && (t[0] == 45 || t[0] == 43) {
        1
    } else {
        0
    };
    let body = slice_copy(t, tsign, t.len());
    assert(body@ =~= t@.skip(sign_len(t@)));
    if body.len() == 0 || !all_digits_exec(&body) {
        return None;
    }
    let cap: u128 = 0x10000000000000000000000000;
    let v = digits_value_capped(&body, cap);
    if tsign == 1 && t[0] == 45 {
        Some(0 - (v as i128))
    } else {
        Some(v as i128)
    }
}

/// `str::parse::<f64>` succeeds on the text and gives a finite value.
pub fn is_finite_number(raw: &str) -> (r: bool)
    ensures
        r == finite_number_spec(raw.spec_bytes()),
{
    let s = raw.as_bytes();
    let ghost sb = s@;
    let sign: usize = if s.len() > 0 && (s[0] == 45 || s[0] == 43) {
        1
    } else {
        0
    };
    let u = slice_copy(s, sign, s.len());
    assert(u@ =~= sb.skip(sign_len(sb)));
    let e = find_either_exec(&u, 101, 69);
    let mantissa = slice_copy(&u, 0, e);
    assert(mantissa@ =~= u@.take(e as int));
    let ghost exponent_part: Option<Seq<u8>> = if e < u@.len() {
        Some(u@.skip(e + 1))
    } else {
        None
    };
    let x: i128 = if e < u.len() {
        let t = slice_copy(&u, e + 1, u.len());
        assert(t@ =~= u@.skip(e + 1));
        match exponent_saturated(&t) {
            Some(v) => v,
            None => {
                assert(split_literal(sb).1 == exponent_part);
                return false;
            },
        }
    } else {
        0
    };
    let dot = find_either_exec(&mantissa, 46, 46);
    let integer = slice_copy(&mantissa, 0, dot);
    assert(integer@ =~= mantissa@.take(dot as int));
    let fraction = if dot < mantissa.len() {
        slice_copy(&mantissa, dot + 1, mantissa.len())
    } else {
        Vec::new()
    };
    assert(fraction@ =~= (if dot < mantissa@.len() {
        mantissa@.skip(dot + 1)
    } else {
        seq![]
    }));
    assert(split_literal(sb) == (mantissa@, exponent_part, integer@, fraction@));
    let mut digits = integer.clone();
    let mut f2 = fraction.clone();
    digits.append(&mut f2);
    assert(digits@ =~= integer@ + fraction@);
    if digits.len() == 0 || !all_digits_exec(&digits) {
        return false;
    }
    let lead = leading_zeros_exec(&digits);
    proof {
        lemma_leading_zeros(digits@);
    }
    let rest = slice_copy(&digits, lead, digits.len());
    assert(rest@ =~= digits@.skip(lead as int));
    let point: i128 = integer.len() as i128 - lead as i128 + x;
    let r = within_double_range_exec(&rest, point);
    proof {
        let xs = match exponent_part {
            Some(t) => signed_integer(t),
            None => Some(0int),
        };
        let exact_point = integer@.len() - lead + xs.unwrap();
        // A saturated exponent puts the point on the same side of 309.
        assert(within_double_range(rest@, point as int) == within_double_range(rest@, exact_point));
    }
    r
}

/// Adding one to a digit string, carrying to the left (an all-nines string
/// grows by a leading one).
pub open spec fn increment(s: Seq<u8>) -> Seq<u8>
    decreases s.len(),
{
    if s.len() == 0 {
        seq![49u8]
    } else if s.last() < 57 {
        s.drop_last().push((s.last() + 1) as u8)
    } else {
        increment(s.drop_last()).push(48u8)
    }
}

/// The integer digits of `0.digits × 10^(point + places)`: truncated, or
/// rounded half away from zero when `round`, and `"0"` when nothing remains.
/// `None` when more than 512 integer digits would be needed.
pub open spec fn quantize_spec(digits: Seq<u8>, point: int, places: int, round: bool) -> Option<Seq<u8>> {
    let end = point + places;
    if end > 512 {
        None
    } else if end < 0 || digits.len() == 0 {
        Some(seq![48u8])
    } else {
        let kept = if end <= digits.len() {
            digits.take(end)
        } else {
            digits + zeros((end - digits.len()) as nat)
        };
        let bumped = if round && end < digits.len() && digits[end] >= 53 {
            increment(kept)
        } else {
            kept
        };
        Some(
            if bumped.len() == 0 {
                seq![48u8]
            } else {
                bumped
            },
        )
    }
}

/// The decimal multiplied by a positive integer: the digits of the product
/// of the significand and `m`, with the point moved by the digits gained.
pub open spec fn scaled_spec(digits: Seq<u8>, point: int, m: nat) -> (Seq<u8>, int) {
    let product = canonical(int_of(digits) * m);
    (product, point + product.len() - digits.len())
}

/// A non-negative decimal multiplied by `m` and brought to an integer
/// (truncated, or rounded half up when `round`); `None` for a negative
/// nonzero value or a result above `u64::MAX`.
pub open spec fn units_spec(d: (bool, Seq<u8>, int), m: nat, round: bool) -> Option<nat> {
    if d.0 && d.1.len() > 0 {
        None
    } else {
        let (digits, point) = scaled_spec(d.1, d.2, m);
        match quantize_spec(digits, point, 0, round) {
            Some(q) => if int_of(q) <= u64::MAX {
                Some(int_of(q))
            } else {
                None
            },
            None => None,
        }
    }
}

/// When every digit from `k` on is a nine, the increment carries through them.
proof fn lemma_increment_nines(s: Seq<u8>, k: int)
    requires
        0 <= k <= s.len(),
        forall|i: int| k <= i < s.len() ==> s[i] == 57,
    ensures
        increment(s) == increment(s.take(k)) + zeros((s.len() - k) as nat),
    decreases s.len() - k,
{
    if k == s.len() {
        assert(s.take(k) =~= s);
        assert(increment(s) + zeros(0) =~= increment(s));
    } else {
        let t = s.drop_last();
        assert(s.last() == 57);
        assert forall|i: int| k <= i < t.len() implies t[i] == 57 by {
            assert(t[i] == s[i]);
        }
        lemma_increment_nines(t, k);
        assert(t.take(k) =~= s.take(k));
        assert(increment(s) == increment(t).push(48u8));
        assert(zeros((t.len() - k) as nat).push(48u8) =~= zeros((s.len() - k) as nat));
        assert(increment(t.take(k)) + zeros((t.len() - k) as nat) + seq![48u8] =~= increment(
            s.take(k),
        ) + zeros((s.len() - k) as nat));
        assert(increment(t).push(48u8) =~= increment(t) + seq![48u8]);
    }
}

/// Increments a digit string in place, returning the incremented string.
fn increment_exec(v: Vec<u8>) -> (r: Vec<u8>)
    requires
        all_digits(v@),
    ensures
        r@ == increment(v@),
        all_digits(r@),
{
    let ghost s = v@;
    let mut result = v;
    let mut j = result.len();
    while j > 0
        invariant
            s == v@,
            j <= s.len(),
            result@.len() == s.len(),
            all_digits(s),
            result@ == s.take(j as int) + zeros((s.len() - j) as nat),
            forall|i: int| j <= i < s.len() ==> s[i] == 57,
        decreases j,
    {
        assert(result@[j - 1] == s[j - 1]);
        if result[j - 1] < 57 {
            let d = result[j - 1];
            result.set(j - 1, d + 1);
            proof {
                lemma_increment_nines(s, j as int);
                let t = s.take(j as int);
                assert(t.last() == d);
                assert(t.drop_last() =~= s.take(j - 1));
                assert(result@ =~= t.drop_last().push((d + 1) as u8) + zeros((s.len() - j) as nat));
                assert(increment(t) == t.drop_last().push((d + 1) as u8));
                assert(result@ == increment(s));
                assert(is_digit(d));
                assert forall|i: int| 0 <= i < result@.len() implies is_digit(#[trigger] result@[i]) by {
                    if i < j - 1 {
                        assert(result@[i] == s[i]);
                    } else if i >= j {
                        assert(result@[i] == 48);
                    }
                }
            }
            return result;
        }
        result.set(j - 1, 48);
        proof {
            assert(is_digit(s[j - 1]));
            assert(result@ =~= s.take(j - 1) + zeros((s.len() - (j - 1)) as nat));
        }
        j = j - 1;
    }
    proof {
        lemma_increment_nines(s, 0);
        assert(s.take(0).len() == 0);
        assert(increment(s.take(0)) == seq![49u8]);
        lemma_int_of_zeros(s.len());
    }
    result.insert(0, 49);
    assert(result@ =~= seq![49u8] + zeros(s.len()));
    assert(result@ == increment(s));
    proof {
        assert forall|i: int| 0 <= i < result@.len() implies is_digit(#[trigger] result@[i]) by {
            if i > 0 {
                assert(result@[i] == 48);
            }
        }
    }
    result
}

impl Decimal {
    /// The integer digits of this value times `10^places`, truncated or
    /// rounded half up (see `quantize_spec`).
    pub fn quantize(&self, places: i32, round: bool) -> (r: Option<Vec<u8>>)
        requires
            self.wf(),
            -1000 <= places <= 1000,
        ensures
            match r {
                Some(q) => quantize_spec(self.digits@, self.point as int, places as int, round) == Some(q@)
                    && all_digits(q@) && q@.len() > 0 && q@.len() <= 513,
                None => quantize_spec(self.digits@, self.point as int, places as int, round) is None,
            },
    {
        let end = self.point + places;
        if end > 512 {
            return None;
        }
        if end < 0 || self.digits.len() == 0 {
            let r = vec![48u8];
            proof {
                assert(r@ =~= seq![48u8]);
            }
            return Some(r);
        }
        let end = end as usize;
        let n = self.digits.len();
        let take = if end < n {
            end
        } else {
            n
        };
        let mut kept = slice_copy(&self.digits, 0, take);
        let mut i = take;
        while i < end
            invariant
                take <= i <= end,
                take == (if end < n { end } else { n }),
                n == self.digits@.len(),
                kept@ == self.digits@.take(take as int) + zeros((i - take) as nat),
            decreases end - i,
        {
            kept.push(48);
            proof {
                assert(zeros((i - take) as nat).push(48u8) =~= zeros((i + 1 - take) as nat));
                assert(kept@ =~= self.digits@.take(take as int) + zeros((i + 1 - take) as nat));
            }
            i = i + 1;
        }
        proof {
            if end <= n {
                assert(kept@ =~= self.digits@.take(end as int));
            } else {
                assert(self.digits@.take(n as int) =~= self.digits@);
            }
            lemma_int_of_zeros((end - take) as nat);
            assert forall|k: int| 0 <= k < take implies is_digit(#[trigger] self.digits@.take(take as int)[k]) by {
                assert(self.digits@.take(take as int)[k] == self.digits@[k]);
            }
            lemma_all_digits_append(self.digits@.take(take as int), zeros((end - take) as nat));
        }
        let bumped = if round && end < n && self.digits[end] >= 53 {
            increment_exec(kept)
        } else {
            kept
        };
        if bumped.len() == 0 {
            let r = vec![48u8];
            proof {
                assert(r@ =~= seq![48u8]);
            }
            return Some(r);
        }
        proof {
            assert(bumped@.len() <= end + 1) by {
                if round && end < n && self.digits@[end as int] >= 53 {
                    lemma_increment_len(kept@);
                }
            }
        }
        Some(bumped)
    }
}

proof fn lemma_increment_len(s: Seq<u8>)
    ensures
        increment(s).len() <= s.len() + 1,
    decreases s.len(),
{
    if s.len() > 0 && s.last() >= 57 {
        lemma_increment_len(s.drop_last());
    }
}

/// A one-digit prefix: `int_of([d] + t) = (d - '0')·10^|t| + int_of(t)`.
proof fn lemma_int_of_prepend(d: u8, t: Seq<u8>)
    requires
        is_digit(d),
        all_digits(t),
    ensures
        int_of(seq![d] + t) == (d - 48) * pow10(t.len()) + int_of(t),
{
    lemma_int_of_append(seq![d], t);
    assert(seq![d].drop_last() =~= Seq::<u8>::empty());
    assert(seq![d].last() == d);
    assert(int_of(Seq::<u8>::empty()) == 0);
    assert(int_of(seq![d]) == int_of(seq![d].drop_last()) * 10 + (d - 48) as nat);
}

/// The digits of `int_of(digits) · m`, for digits without a leading zero.
fn multiply_digits(digits: &Vec<u8>, m: u32) -> (r: Vec<u8>)
    requires
        all_digits(digits@),
        no_leading_zero(digits@),
        1 <= m <= 100_000,
        digits@.len() <= 4000,
    ensures
        r@ == canonical(int_of(digits@) * (m as nat)),
        r@.len() <= digits@.len() + 6,
{
    let n = digits.len();
    let mut out: Vec<u8> = Vec::new();
    let mut carry: u32 = 0;
    let mut i = n;
    let ghost total: nat = int_of(digits@) * (m as nat);
    assert(digits@.skip(n as int) =~= Seq::<u8>::empty());
    assert(out@ =~= Seq::<u8>::empty());
    assert(int_of(Seq::<u8>::empty()) == 0);
    assert(pow10(0) == 1);
    while i > 0
        invariant
            n == 0 ==> carry == 0,
            i <= n,
            n == digits@.len(),
            all_digits(digits@),
            no_leading_zero(digits@),
            1 <= m <= 100_000,
            total == int_of(digits@) * m,
            carry < 100_000,
            out@.len() == n - i,
            all_digits(out@),
            int_of(digits@.skip(i as int)) * m == carry * pow10(out@.len()) + int_of(out@),
            i < n ==> (carry > 0 || (i == 0 ==> out@[0] != 48)),
            i == 0 && n > 0 && carry == 0 ==> out@[0] != 48,
        decreases i,
    {
        let d = digits[i - 1];
        assert(is_digit(d));
        let dv = (d - 48) as u32;
        assert(dv * m <= 900_000) by (nonlinear_arith) requires dv <= 9, m <= 100_000;
        let p = dv * m + carry;
        let digit = (48 + p % 10) as u8;
        let ghost old_out = out@;
        let ghost k = old_out.len();
        out.insert(0, digit);
        let ghost new_carry = p / 10;
        proof {
            assert(out@ =~= seq![digit] + old_out);
            assert(digits@.skip(i - 1) =~= seq![d] + digits@.skip(i as int));
            assert forall|j: int| 0 <= j < digits@.skip(i as int).len() implies is_digit(#[trigger] digits@.skip(i as int)[j]) by {
                assert(digits@.skip(i as int)[j] == digits@[j + i]);
            }
            lemma_int_of_prepend(d, digits@.skip(i as int));
            lemma_int_of_prepend(digit, old_out);
            let pk = pow10(k);
            let dd = (d - 48) as int;
            let c = carry as int;
            assert(pow10(k + 1) == 10 * pk);
            assert((dd * pk + int_of(digits@.skip(i as int))) * m == dd * m * pk + c * pk + int_of(old_out)) by (nonlinear_arith)
                requires int_of(digits@.skip(i as int)) * m == c * pk + int_of(old_out);
            assert(p == (p / 10) * 10 + p % 10);
            assert(dd * m * pk + c * pk == (p as int) * pk) by (nonlinear_arith)
                requires p == dd * m + c;
            assert((p as int) * pk == (p as int / 10) * (10 * pk) + (p as int % 10) * pk) by (nonlinear_arith);
            assert forall|j: int| 0 <= j < out@.len() implies is_digit(#[trigger] out@[j]) by {
                if j > 0 {
                    assert(out@[j] == old_out[j - 1]);
                }
            }
            if i == 1 && p / 10 == 0 {
                // The first digit is nonzero, so its product is too.
                assert(d != 48);
                assert(p >= 1) by (nonlinear_arith) requires dd >= 1, m >= 1, p == dd * m + c, c >= 0;
            }
        }
        carry = p / 10;
        i = i - 1;
    }
    proof {
        assert(digits@.skip(0) =~= digits@);
    }
    while carry > 0
        invariant
            all_digits(out@),
            total == carry * pow10(out@.len()) + int_of(out@),
            carry < 100_000,
            carry == 0 ==> (out@.len() > 0 ==> out@[0] != 48),
            n > 0 ==> out@.len() >= n,
            n == 0 ==> carry == 0,
            out@.len() <= n + 6 - (if carry >= 10_000 { 5int } else if carry >= 1000 { 4int } else if carry >= 100 { 3int } else if carry >= 10 { 2int } else if carry >= 1 { 1int } else { 0int }),
        decreases carry,
    {
        let digit = (48 + carry % 10) as u8;
        let ghost old_out = out@;
        let ghost k = old_out.len();
        out.insert(0, digit);
        proof {
            assert(out@ =~= seq![digit] + old_out);
            lemma_int_of_prepend(digit, old_out);
            let pk = pow10(k);
            let c = carry as int;
            assert(pow10(k + 1) == 10 * pk);
            assert(c * pk == (c / 10) * (10 * pk) + (c % 10) * pk) by (nonlinear_arith);
            assert forall|j: int| 0 <= j < out@.len() implies is_digit(#[trigger] out@[j]) by {
                if j > 0 {
                    assert(out@[j] == old_out[j - 1]);
                }
            }
        }
        carry = carry / 10;
    }
    proof {
        assert(pow10(out@.len()) >= 1) by {
            lemma_pow10_positive(out@.len());
        }
        assert(int_of(out@) == total);
        lemma_canonical_int_of(out@);
    }
    out
}

impl Decimal {
    /// This non-negative value times `multiplier`, as an integer: truncated,
    /// or rounded half up when `round` (see `units_spec`).
    pub fn units(&self, multiplier: u32, round: bool) -> (r: Option<u64>)
        requires
            self.wf(),
            -1000 <= self.point <= 1000,
            self.digits@.len() <= 1000,
            1 <= multiplier <= 100_000,
        ensures
            match r {
                Some(v) => units_spec(self.model(), multiplier as nat, round) == Some(v as nat),
                None => units_spec(self.model(), multiplier as nat, round) is None,
            },
    {
        if self.negative && self.digits.len() > 0 {
            return None;
        }
        let product = multiply_digits(&self.digits, multiplier);
        proof {
            lemma_canonical_digits_props(int_of(self.digits@) * (multiplier as nat));
        }
        let point = self.point + product.len() as i32 - self.digits.len() as i32;
        let scaled = Decimal { negative: false, digits: product, point };
        let q = match scaled.quantize(0, round) {
            Some(q) => q,
            None => return None,
        };
        assert(units_spec(self.model(), multiplier as nat, round) == (if int_of(q@) <= u64::MAX {
            Some(int_of(q@))
        } else {
            None
        }));
        let mut value: u64 = 0;
        let mut i: usize = 0;
        while i < q.len()
            invariant
                i <= q@.len(),
                all_digits(q@),
                value == int_of(q@.take(i as int)),
                units_spec(self.model(), multiplier as nat, round) == (if int_of(q@) <= u64::MAX {
                    Some(int_of(q@))
                } else {
                    None
                }),
            decreases q.len() - i,
        {
            let d = q[i];
            proof {
                assert(is_digit(q@[i as int]));
                assert(q@.take(i + 1) =~= q@.take(i as int).push(d));
                lemma_int_of_push(q@.take(i as int), d);
                lemma_int_of_prefix_le(q@, i + 1);
            }
            value = match value.checked_mul(10) {
                Some(t) => match t.checked_add((d - 48) as u64) {
                    Some(v) => v,
                    None => return None,
                },
                None => return None,
            };
            i = i + 1;
        }
        assert(q@.take(q@.len() as int) =~= q@);
        Some(value)
    }
}

proof fn lemma_canonical_digits_props(n: nat)
    ensures
        all_digits(canonical(n)),
        no_leading_zero(canonical(n)),
{
    crate::digits::lemma_canonical_digits(n);
}

} // verus!
