//! Double-precision numbers, held as their IEEE 754 bit patterns.
//!
//! The engine never computes with these numbers: it reads them out of
//! metadata, compares them and sorts by them. All of that is integer work on
//! the bit pattern, because the magnitude bits of two numbers of one sign are
//! ordered as the numbers are.
use vstd::arithmetic::power2::*;
use vstd::prelude::*;

verus! {

/// Bit patterns of magnitudes above this one are not numbers.
pub const INFINITY_BITS: u64 = 0x7ff0_0000_0000_0000;

/// The weight of the sign bit.
pub const SIGN_BIT: u64 = 0x8000_0000_0000_0000;

/// The weight of the lowest exponent bit.
pub const EXPONENT_UNIT: u64 = 0x0010_0000_0000_0000;

/// A double-precision number by its bit pattern.
#[derive(Debug, Clone, Copy)]
pub struct Number {
    pub bits: u64,
}

/// The bits without the sign.
pub open spec fn magnitude(b: u64) -> int {
    if b >= SIGN_BIT {
        b - SIGN_BIT
    } else {
        b as int
    }
}

/// The pattern stands for no number.
pub open spec fn is_nan(b: u64) -> bool {
    magnitude(b) > INFINITY_BITS
}

/// An integer that is ordered as the numbers are; both zeros give 0.
pub open spec fn order_key(b: u64) -> int {
    if b >= SIGN_BIT {
        -magnitude(b)
    } else {
        magnitude(b)
    }
}

/// An integer that is ordered as the total order on bit patterns is: negative
/// zero stands below zero, and the non-numbers stand at the two ends.
pub open spec fn total_key(b: u64) -> int {
    if b >= SIGN_BIT {
        -magnitude(b) - 1
    } else {
        magnitude(b)
    }
}

/// The numeric `a < b`: false when either is not a number.
pub open spec fn num_lt(a: u64, b: u64) -> bool {
    !is_nan(a) && !is_nan(b) && order_key(a) < order_key(b)
}

/// The numeric `a <= b`: false when either is not a number.
pub open spec fn num_le(a: u64, b: u64) -> bool {
    !is_nan(a) && !is_nan(b) && order_key(a) <= order_key(b)
}

/// The numeric `a == b`: false when either is not a number.
pub open spec fn num_eq(a: u64, b: u64) -> bool {
    !is_nan(a) && !is_nan(b) && order_key(a) == order_key(b)
}

/// The position of the highest bit of `m`.
pub open spec fn top_bit(m: nat) -> nat
    decreases m,
{
    if m < 2 {
        0
    } else {
        top_bit(m / 2) + 1
    }
}

/// `m` scaled to 53 significant bits, rounded half to even.
pub open spec fn significand(m: nat) -> nat {
    let e = top_bit(m);
    if e <= 52 {
        m * pow2((52 - e) as nat)
    } else {
        let unit = pow2((e - 52) as nat);
        let q = m / unit;
        let rest = m % unit;
        if 2 * rest > unit || (2 * rest == unit && q % 2 == 1) {
            q + 1
        } else {
            q
        }
    }
}

/// The magnitude bits of the number nearest to `m`, ties to even.
pub open spec fn nearest_magnitude(m: nat) -> nat {
    if m == 0 {
        0
    } else {
        ((top_bit(m) + 1022) * (EXPONENT_UNIT as nat) + significand(m)) as nat
    }
}

/// The bits of the number nearest to the integer `i`, ties to even.
pub open spec fn nearest_bits(i: int) -> int {
    if i < 0 {
        SIGN_BIT + nearest_magnitude((-i) as nat)
    } else {
        nearest_magnitude(i as nat) as int
    }
}

/// The weight of the sign bit of a score.
pub const SCORE_SIGN_BIT: u32 = 0x8000_0000;

/// An integer that is ordered as scores are. Scores are single-precision
/// numbers by their bit patterns; both zeros give 0.
pub open spec fn score_key(b: u32) -> int {
    if b >= SCORE_SIGN_BIT {
        SCORE_SIGN_BIT - b
    } else {
        b as int
    }
}

/// An integer that is ordered as scores are.
pub fn score_rank(b: u32) -> (r: i128)
    ensures
        r == score_key(b),
{
    if b >= SCORE_SIGN_BIT {
        (SCORE_SIGN_BIT as i128) - (b as i128)
    } else {
        b as i128
    }
}

proof fn lemma_top_bit(m: nat, e: nat)
    requires
        pow2(e) <= m < 2 * pow2(e),
    ensures
        top_bit(m) == e,
    decreases e,
{
    lemma_pow2(e);
    if e == 0 {
        lemma2_to64();
    } else {
        lemma_pow2_unfold(e);
        lemma_top_bit(m / 2, (e - 1) as nat);
    }
}

impl Number {
    /// The number with the given bit pattern.
    pub fn from_bits(bits: u64) -> (r: Number)
        ensures
            r.bits == bits,
    {
        Number { bits }
    }

    /// Positive infinity.
    pub fn infinity() -> (r: Number)
        ensures
            r.bits == INFINITY_BITS,
    {
        Number { bits: INFINITY_BITS }
    }

    /// Negative infinity.
    pub fn neg_infinity() -> (r: Number)
        ensures
            r.bits == SIGN_BIT + INFINITY_BITS,
    {
        Number { bits: 0xfff0_0000_0000_0000 }
    }

    fn split(self) -> (r: (bool, u64))
        ensures
            r.0 == (self.bits >= SIGN_BIT),
            r.1 == magnitude(self.bits),
    {
        if self.bits >= SIGN_BIT {
            (true, self.bits - SIGN_BIT)
        } else {
            (false, self.bits)
        }
    }

    /// An integer that is ordered as the total order on bit patterns is.
    pub fn total_rank(self) -> (r: i128)
        ensures
            r == total_key(self.bits),
    {
        let (negative, m) = self.split();
        if negative {
            -(m as i128) - 1
        } else {
            m as i128
        }
    }

    /// Whether this is the numeric `self < other`.
    pub fn less(self, other: Number) -> (r: bool)
        ensures
            r == num_lt(self.bits, other.bits),
    {
        let (an, am) = self.split();
        let (bn, bm) = other.split();
        if am > INFINITY_BITS || bm > INFINITY_BITS {
            false
        } else if an {
            if bn {
                am > bm
            } else {
                am > 0 || bm > 0
            }
        } else {
            !bn && am < bm
        }
    }

    /// Whether this is the numeric `self <= other`.
    pub fn at_most(self, other: Number) -> (r: bool)
        ensures
            r == num_le(self.bits, other.bits),
    {
        let (_, am) = self.split();
        let (_, bm) = other.split();
        am <= INFINITY_BITS && bm <= INFINITY_BITS && !other.less(self)
    }

    /// Whether this is the numeric `self == other`.
    pub fn equals(self, other: Number) -> (r: bool)
        ensures
            r == num_eq(self.bits, other.bits),
    {
        self.at_most(other) && other.at_most(self)
    }

    /// The number nearest to an integer, ties to even.
    pub fn from_int(i: i64) -> (r: Number)
        ensures
            r.bits == nearest_bits(i as int),
    {
        if i == 0 {
            return Number { bits: 0 };
        }
        let m: u64 = if i < 0 {
            (-(i as i128)) as u64
        } else {
            i as u64
        };
        let mut e: u64 = 0;
        let mut p: u64 = 1;
        proof {
            lemma2_to64();
        }
        while m / 2 >= p
            invariant
                0 < m <= 0x8000_0000_0000_0000,
                p <= m,
                p == pow2(e as nat),
                e <= 63,
            decreases 64 - e,
        {
            proof {
                lemma_pow2_unfold((e + 1) as nat);
                if e >= 63 {
                    lemma2_to64_rest();
                    assert(p == 0x8000_0000_0000_0000);
                }
            }
            p = p * 2;
            e = e + 1;
        }
        proof {
            lemma_top_bit(m as nat, e as nat);
        }
        let s = Self::scaled(m, e, p);
        proof {
            lemma2_to64();
            lemma2_to64_rest();
            lemma_scaled_bounds(m as nat);
        }
        let bits: u64 = (e + 1022) * EXPONENT_UNIT + s;
        if i < 0 {
            Number { bits: bits + SIGN_BIT }
        } else {
            Number { bits }
        }
    }

    fn scaled(m: u64, e: u64, p: u64) -> (s: u64)
        requires
            0 < m,
            e <= 63,
            p == pow2(e as nat),
            p <= m < 2 * p,
        ensures
            s == significand(m as nat),
    {
        proof {
            lemma_top_bit(m as nat, e as nat);
            lemma2_to64();
            lemma2_to64_rest();
        }
        if e <= 52 {
            let mut k: u64 = e;
            let mut v: u64 = m;
            proof {
                assert(v == m * pow2(0)) by (nonlinear_arith)
                    requires
                        v == m,
                        pow2(0) == 1,
                ;
            }
            while k < 52
                invariant
                    e <= k <= 52,
                    v == m * pow2((k - e) as nat),
                    v < 2 * pow2(k as nat),
                    pow2(52) == 0x10_0000_0000_0000,
                decreases 52 - k,
            {
                proof {
                    lemma_pow2_unfold((k + 1 - e) as nat);
                    lemma_pow2_unfold((k + 1) as nat);
                    lemma_pow2_unfold(53);
                    if k < 52 {
                        lemma_pow2_strictly_increases(k as nat, 52);
                    }
                    assert(m * (2 * pow2((k - e) as nat)) == 2 * (m * pow2((k - e) as nat)))
                        by (nonlinear_arith);
                }
                v = v * 2;
                k = k + 1;
            }
            v
        } else {
            let mut k: u64 = 52;
            let mut unit: u64 = 1;
            while k < e
                invariant
                    52 <= k <= e <= 63,
                    unit == pow2((k - 52) as nat),
                    unit <= 2048,
                    pow2(11) == 2048,
                decreases e - k,
            {
                proof {
                    lemma_pow2_unfold((k + 1 - 52) as nat);
                    if k + 1 - 52 < 11 {
                        lemma_pow2_strictly_increases((k + 1 - 52) as nat, 11);
                    }
                }
                unit = unit * 2;
                k = k + 1;
            }
            proof {
                lemma_pow2_pos((e - 52) as nat);
            }
            let q: u64 = m / unit;
            let rest: u64 = m % unit;
            proof {
                lemma_pow2_unfold((e - 52) as nat);
                assert(unit >= 2) by {
                    lemma_pow2_pos((e - 53) as nat);
                }
                assert(q <= m / 2) by (nonlinear_arith)
                    requires
                        q == m / unit,
                        unit >= 2,
                ;
            }
            if 2 * rest > unit || (2 * rest == unit && q % 2 == 1) {
                q + 1
            } else {
                q
            }
        }
    }
}

proof fn lemma_top_bit_bounds(m: nat)
    requires
        0 < m,
    ensures
        pow2(top_bit(m)) <= m < 2 * pow2(top_bit(m)),
    decreases m,
{
    if m < 2 {
        lemma2_to64();
    } else {
        lemma_top_bit_bounds(m / 2);
        lemma_pow2_unfold(top_bit(m));
    }
}

proof fn lemma_scaled_bounds(m: nat)
    requires
        0 < m,
    ensures
        EXPONENT_UNIT <= significand(m) <= 2 * EXPONENT_UNIT,
{
    let e = top_bit(m);
    let p = pow2(e);
    lemma_top_bit_bounds(m);
    lemma2_to64();
    lemma2_to64_rest();
    assert(pow2(52) == EXPONENT_UNIT);
    if e <= 52 {
        let f = pow2((52 - e) as nat);
        lemma_pow2_pos((52 - e) as nat);
        lemma_pow2_adds(e, (52 - e) as nat);
        assert(p * f <= m * f < 2 * (p * f)) by (nonlinear_arith)
            requires
                p <= m < 2 * p,
                f > 0,
        ;
    } else {
        let unit = pow2((e - 52) as nat);
        lemma_pow2_pos((e - 52) as nat);
        lemma_pow2_adds(52, (e - 52) as nat);
        let u: int = EXPONENT_UNIT as int;
        assert(u <= m as int / unit as int && m as int / (unit as int) < 2 * u) by (nonlinear_arith)
            requires
                u * unit <= m,
                m < 2 * (u * unit),
                unit > 0,
        ;
    }
}

impl PartialEq for Number {
    fn eq(&self, other: &Self) -> (r: bool) {
        self.equals(*other)
    }
}

impl vstd::std_specs::cmp::PartialEqSpecImpl for Number {
    open spec fn obeys_eq_spec() -> bool {
        true
    }

    open spec fn eq_spec(&self, other: &Self) -> bool {
        num_eq(self.bits, other.bits)
    }
}

// ── Laws ────────────────────────────────────────────────────────────────

/// Numbers that are not negative are ordered as their bit patterns are, negative ones
/// the other way round, and a negative one stands below the others. The two zeros are
/// equal.
pub proof fn law_numbers_are_ordered_by_their_bits(a: u64, b: u64)
    requires
        a <= 0x7ff0_0000_0000_0000 || 0x8000_0000_0000_0000 <= a <= 0xfff0_0000_0000_0000,
        b <= 0x7ff0_0000_0000_0000 || 0x8000_0000_0000_0000 <= b <= 0xfff0_0000_0000_0000,
    ensures
        a < 0x8000_0000_0000_0000 && b < 0x8000_0000_0000_0000 ==> num_lt(a, b) == (a < b),
        a >= 0x8000_0000_0000_0000 && b >= 0x8000_0000_0000_0000 ==> num_lt(a, b) == (b < a),
        a >= 0x8000_0000_0000_0000 && b < 0x8000_0000_0000_0000 ==> num_lt(a, b) == !(a
            == 0x8000_0000_0000_0000 && b == 0),
        a < 0x8000_0000_0000_0000 && b >= 0x8000_0000_0000_0000 ==> !num_lt(a, b),
        num_le(a, b) == !num_lt(b, a),
        num_eq(a, b) == (!num_lt(a, b) && !num_lt(b, a)),
{
}

/// A pattern beyond infinity is no number: it is neither below, nor above, nor equal to
/// anything, itself included.
pub proof fn law_no_number_compares_to_nothing(a: u64, b: u64)
    requires
        0x7ff0_0000_0000_0000 < a < 0x8000_0000_0000_0000 || 0xfff0_0000_0000_0000 < a,
    ensures
        is_nan(a),
        !num_lt(a, b) && !num_lt(b, a),
        !num_le(a, b) && !num_le(b, a),
        !num_eq(a, b) && !num_eq(b, a),
{
}

/// The numeric order is transitive, and nothing stands below itself.
pub proof fn law_numeric_order(a: u64, b: u64, c: u64)
    ensures
        !num_lt(a, a),
        num_lt(a, b) && num_lt(b, c) ==> num_lt(a, c),
        num_lt(a, b) ==> !num_lt(b, a) && num_le(a, b),
        num_le(a, b) && num_le(b, c) ==> num_le(a, c),
{
}

/// The total order tells every two patterns apart, follows the numeric order where there
/// is one, puts negative zero below zero and the non-numbers at the two ends.
pub proof fn law_total_order(a: u64, b: u64)
    ensures
        total_key(a) == total_key(b) <==> a == b,
        num_lt(a, b) ==> total_key(a) < total_key(b),
        total_key(0x8000_0000_0000_0000) < total_key(0),
        0x7ff0_0000_0000_0000 < a < 0x8000_0000_0000_0000 && !is_nan(b) ==> total_key(b)
            < total_key(a),
        0xfff0_0000_0000_0000 < a && !is_nan(b) ==> total_key(a) < total_key(b),
{
}

/// Scores that are not negative are ordered as their bit patterns are, negative ones the
/// other way round and below the others; the two zeros rank alike.
pub proof fn law_scores_are_ordered_by_their_bits(a: u32, b: u32)
    ensures
        a < 0x8000_0000 && b < 0x8000_0000 ==> (score_key(a) < score_key(b) <==> a < b),
        a >= 0x8000_0000 && b >= 0x8000_0000 ==> (score_key(a) < score_key(b) <==> b < a),
        a > 0x8000_0000 && b < 0x8000_0000 ==> score_key(a) < score_key(b),
        score_key(0x8000_0000) == score_key(0),
{
}

/// The number for an integer lies as close to it as 53 significant bits allow. With `e`
/// the place of the highest bit, and `s` what the pattern adds to the exponent, the
/// number is `s * 2^(e - 52)`: it is off by no more than half a unit of its last place,
/// an even `s` is taken halfway, and up to 53 bits it is the integer itself.
pub proof fn law_nearest_is_nearest(m: nat)
    requires
        0 < m,
    ensures
        ({
            let e = top_bit(m);
            let s = nearest_magnitude(m) - (e + 1022) * 0x10_0000_0000_0000;
            let off = s * pow2(e) - m * pow2(52);
            &&& pow2(e) <= m < 2 * pow2(e)
            &&& 0x10_0000_0000_0000 <= s <= 0x20_0000_0000_0000
            &&& -(pow2(e) as int) <= 2 * off <= pow2(e)
            &&& 2 * off == pow2(e) || 2 * off == -(pow2(e) as int) ==> s % 2 == 0
            &&& e <= 52 ==> off == 0
        }),
{
    let e = top_bit(m);
    let s = significand(m);
    lemma_top_bit_bounds(m);
    lemma_scaled_bounds(m);
    lemma2_to64();
    lemma2_to64_rest();
    lemma_pow2_pos(e);
    assert(nearest_magnitude(m) - (e + 1022) * 0x10_0000_0000_0000 == s);
    if e <= 52 {
        let f = pow2((52 - e) as nat);
        lemma_pow2_adds((52 - e) as nat, e);
        assert(s * pow2(e) == m * pow2(52)) by (nonlinear_arith)
            requires
                s == m * f,
                f * pow2(e) == pow2(52),
        ;
    } else {
        let unit = pow2((e - 52) as nat);
        lemma_pow2_pos((e - 52) as nat);
        lemma_pow2_adds((e - 52) as nat, 52);
        let q = m / unit;
        let rest = m % unit;
        vstd::arithmetic::div_mod::lemma_fundamental_div_mod(m as int, unit as int);
        vstd::arithmetic::div_mod::lemma_mod_bound(m as int, unit as int);
        let gap: int = s * unit - m;
        assert(gap == if s == q {
            -rest
        } else {
            unit - rest
        }) by (nonlinear_arith)
            requires
                gap == s * unit - m,
                m == unit * q + rest,
                s == q || s == q + 1,
        ;
        assert(s * pow2(e) - m * pow2(52) == gap * pow2(52)) by (nonlinear_arith)
            requires
                gap == s * unit - m,
                pow2(e) == unit * pow2(52),
        ;
    }
}

/// The number for a negative integer is that for its opposite with the sign bit set, and
/// zero is the zero that is not negative.
pub proof fn law_nearest_keeps_the_sign(i: int)
    requires
        i > 0,
    ensures
        nearest_bits(-i) == nearest_bits(i) + 0x8000_0000_0000_0000,
        nearest_bits(i) == nearest_magnitude(i as nat),
        nearest_bits(0) == 0,
{
}

} // verus!
