//! Decimal digit strings (ASCII `'0'..='9'` bytes) and their integer values.
use vstd::prelude::*;

verus! {

broadcast use vstd::seq::group_seq_axioms;

/// An ASCII decimal digit.
pub open spec fn is_digit(b: u8) -> bool {
    48 <= b <= 57
}

/// Every byte is an ASCII decimal digit.
pub open spec fn all_digits(s: Seq<u8>) -> bool {
    forall|i: int| 0 <= i < s.len() ==> is_digit(#[trigger] s[i])
}

/// The integer that a digit string denotes (the empty string denotes zero).
pub open spec fn int_of(s: Seq<u8>) -> nat
    decreases s.len(),
{
    if s.len() == 0 {
        0
    } else {
        int_of(s.drop_last()) * 10 + (s.last() - 48) as nat
    }
}

/// The shortest digit string of `n`: empty for zero, no leading zero otherwise.
pub open spec fn canonical(n: nat) -> Seq<u8>
    decreases n,
{
    if n == 0 {
        seq![]
    } else {
        canonical(n / 10).push((48 + n % 10) as u8)
    }
}

/// The usual decimal spelling of `n`: "0" for zero.
pub open spec fn decimal(n: nat) -> Seq<u8> {
    if n == 0 {
        seq![48u8]
    } else {
        canonical(n)
    }
}

/// `n` spelled with at least `width` digits, padded on the left with zeros.
pub open spec fn padded(n: nat, width: nat) -> Seq<u8> {
    let d = decimal(n);
    if d.len() >= width {
        d
    } else {
        Seq::new((width - d.len()) as nat, |i: int| 48u8) + d
    }
}

/// A run of `n` ASCII zeros.
pub open spec fn zeros(n: nat) -> Seq<u8> {
    Seq::new(n, |i: int| 48u8)
}

/// A digit string without a leading zero (the empty string qualifies).
pub open spec fn no_leading_zero(s: Seq<u8>) -> bool {
    s.len() > 0 ==> s[0] != 48
}

pub proof fn lemma_int_of_push(s: Seq<u8>, d: u8)
    ensures
        int_of(s.push(d)) == int_of(s) * 10 + (d - 48) as nat,
{
    assert(s.push(d).drop_last() =~= s);
}

/// Prefixes of a digit string never denote more than the whole string.
pub proof fn lemma_int_of_prefix_le(s: Seq<u8>, k: int)
    requires
        0 <= k <= s.len(),
        all_digits(s),
    ensures
        int_of(s.take(k)) <= int_of(s),
    decreases s.len() - k,
{
    if k < s.len() {
        lemma_int_of_prefix_le(s, k + 1);
        assert(s.take(k + 1).drop_last() =~= s.take(k));
        assert(is_digit(s[k]));
    } else {
        assert(s.take(k) =~= s);
    }
}

/// A digit string with a nonzero first digit denotes at least `10^(len-1)`;
/// here stated as: its value is positive.
pub proof fn lemma_int_of_positive(s: Seq<u8>)
    requires
        all_digits(s),
        s.len() > 0,
        s[0] != 48,
    ensures
        int_of(s) > 0,
    decreases s.len(),
{
    if s.len() > 1 {
        let t = s.drop_last();
        assert(t[0] == s[0]);
        assert forall|i: int| 0 <= i < t.len() implies is_digit(#[trigger] t[i]) by {
            assert(t[i] == s[i]);
        }
        lemma_int_of_positive(t);
    } else {
        assert(s.drop_last().len() == 0);
        assert(is_digit(s[0]));
        assert(s.last() == s[0]);
    }
}

/// A digit string without leading zero is the canonical spelling of its value.
pub proof fn lemma_canonical_int_of(s: Seq<u8>)
    requires
        all_digits(s),
        no_leading_zero(s),
    ensures
        canonical(int_of(s)) == s,
    decreases s.len(),
{
    if s.len() > 0 {
        let t = s.drop_last();
        assert forall|i: int| 0 <= i < t.len() implies is_digit(#[trigger] t[i]) by {
            assert(t[i] == s[i]);
        }
        if t.len() > 0 {
            assert(t[0] == s[0]);
        }
        lemma_canonical_int_of(t);
        lemma_int_of_positive(s);
        assert(is_digit(s.last()));
        let n = int_of(s);
        assert(n / 10 == int_of(t));
        assert(n % 10 == (s.last() - 48) as nat);
        assert(s =~= t.push(s.last()));
    }
}

/// The canonical spelling consists of digits and has no leading zero.
pub proof fn lemma_canonical_digits(n: nat)
    ensures
        all_digits(canonical(n)),
        no_leading_zero(canonical(n)),
        int_of(canonical(n)) == n,
    decreases n,
{
    if n > 0 {
        lemma_canonical_digits(n / 10);
        let c = canonical(n / 10);
        lemma_int_of_push(c, (48 + n % 10) as u8);
        if c.len() == 0 {
            assert(n / 10 == 0);
        }
    }
}

} // verus!

verus! {

/// `10^n`.
pub open spec fn pow10(n: nat) -> nat
    decreases n,
{
    if n == 0 {
        1
    } else {
        10 * pow10((n - 1) as nat)
    }
}

pub proof fn lemma_pow10_positive(n: nat)
    ensures
        pow10(n) >= 1,
    decreases n,
{
    if n > 0 {
        lemma_pow10_positive((n - 1) as nat);
    }
}

/// Concatenated digit strings: `int_of(a + b) = int_of(a)·10^|b| + int_of(b)`.
pub proof fn lemma_int_of_append(a: Seq<u8>, b: Seq<u8>)
    requires
        all_digits(b),
    ensures
        int_of(a + b) == int_of(a) * pow10(b.len()) + int_of(b),
    decreases b.len(),
{
    if b.len() == 0 {
        assert(a + b =~= a);
        assert(pow10(0) == 1);
        assert(int_of(a) * 1 == int_of(a));
    } else {
        let b0 = b.drop_last();
        assert forall|i: int| 0 <= i < b0.len() implies is_digit(#[trigger] b0[i]) by {
            assert(b0[i] == b[i]);
        }
        assert(is_digit(b[b.len() - 1]));
        lemma_int_of_append(a, b0);
        assert((a + b).drop_last() =~= a + b0);
        assert((a + b).last() == b.last());
        let x = int_of(a);
        let p = pow10(b0.len());
        let d = (b.last() - 48) as int;
        assert(pow10(b.len()) == 10 * p);
        assert(int_of(b) == int_of(b0) * 10 + d);
        assert(int_of(a + b) == int_of(a + b0) * 10 + d);
        assert(int_of(a + b0) == x * p + int_of(b0));
        assert((x * p + int_of(b0)) * 10 + d == x * (10 * p) + (int_of(b0) * 10 + d)) by (nonlinear_arith);
        assert(int_of(a + b) == x * pow10(b.len()) + int_of(b));
    }
}

/// A run of zeros denotes zero.
pub proof fn lemma_int_of_zeros(n: nat)
    ensures
        int_of(zeros(n)) == 0,
        all_digits(zeros(n)),
    decreases n,
{
    if n > 0 {
        lemma_int_of_zeros((n - 1) as nat);
        assert(zeros(n).drop_last() =~= zeros((n - 1) as nat));
    }
}

/// Digit strings are closed under concatenation.
pub proof fn lemma_all_digits_append(a: Seq<u8>, b: Seq<u8>)
    requires
        all_digits(a),
        all_digits(b),
    ensures
        all_digits(a + b),
{
    assert forall|i: int| 0 <= i < (a + b).len() implies is_digit(#[trigger] (a + b)[i]) by {
        if i < a.len() {
            assert((a + b)[i] == a[i]);
        } else {
            assert((a + b)[i] == b[i - a.len()]);
        }
    }
}

} // verus!

verus! {

/// The canonical digits of `n` (empty for zero).
pub fn canonical_exec(n: u64) -> (r: Vec<u8>)
    ensures
        r@ == canonical(n as nat),
    decreases n,
{
    if n == 0 {
        Vec::new()
    } else {
        let mut v = canonical_exec(n / 10);
        v.push((48 + n % 10) as u8);
        v
    }
}

/// Appends `n` in decimal, left-padded with zeros to at least `width` digits.
pub fn push_padded(out: &mut Vec<u8>, n: u64, width: usize)
    requires
        width <= 20,
    ensures
        final(out)@ == old(out)@ + padded(n as nat, width as nat),
{
    let digits = if n == 0 {
        vec![48u8]
    } else {
        canonical_exec(n)
    };
    assert(digits@ == decimal(n as nat)) by {
        if n == 0 {
            assert(digits@ =~= seq![48u8]);
        }
    }
    let ghost start = out@;
    let mut i = digits.len();
    while i < width
        invariant
            digits.len() <= i <= (if width > digits.len() { width } else { digits.len() }),
            digits@ == decimal(n as nat),
            out@ == start + zeros((i - digits.len()) as nat),
        decreases width - i,
    {
        out.push(48);
        proof {
            assert(zeros((i - digits.len()) as nat).push(48u8) =~= zeros((i + 1 - digits.len()) as nat));
        }
        i = i + 1;
    }
    let mut j: usize = 0;
    let ghost mid = out@;
    while j < digits.len()
        invariant
            j <= digits@.len(),
            out@ == mid + digits@.take(j as int),
        decreases digits.len() - j,
    {
        out.push(digits[j]);
        proof {
            assert(digits@.take(j + 1) =~= digits@.take(j as int).push(digits@[j as int]));
        }
        j = j + 1;
    }
    proof {
        assert(digits@.take(digits@.len() as int) =~= digits@);
        if digits@.len() >= width {
            assert(zeros(0) =~= Seq::<u8>::empty());
            assert(out@ =~= start + digits@);
        } else {
            assert(zeros((width - digits@.len()) as nat) =~= Seq::new(
                (width - decimal(n as nat).len()) as nat,
                |i: int| 48u8,
            ));
            assert(out@ =~= start + (zeros((width - digits@.len()) as nat) + digits@));
        }
    }
}

/// Appends the bytes of a slice.
pub fn push_all(out: &mut Vec<u8>, s: &[u8])
    ensures
        final(out)@ == old(out)@ + s@,
{
    let ghost start = out@;
    let mut j: usize = 0;
    while j < s.len()
        invariant
            j <= s@.len(),
            out@ == start + s@.take(j as int),
        decreases s.len() - j,
    {
        out.push(s[j]);
        proof {
            assert(s@.take(j + 1) =~= s@.take(j as int).push(s@[j as int]));
        }
        j = j + 1;
    }
    assert(s@.take(s@.len() as int) =~= s@);
}

} // verus!
