//! Probabilities, kept as the bit patterns of IEEE-754 double-precision numbers.
//!
//! Settings files write probabilities as decimal fractions. They are held here as
//! the 64-bit pattern of the nearest double, so that nothing is lost, and every
//! question about the number is answered exactly on the pattern.

use vstd::arithmetic::power2::pow2;
use vstd::prelude::*;

verus! {

/// One more than the largest fraction field: 2^52.
pub const FRACTION_LIMIT: u64 = 0x10_0000_0000_0000;

/// The pattern of the number one.
pub const ONE_BITS: u64 = 0x3FF0_0000_0000_0000;

/// The pattern of positive infinity; larger unsigned patterns are not numbers.
pub const INFINITY_BITS: u64 = 0x7FF0_0000_0000_0000;

/// The pattern of negative zero: the sign bit alone.
pub const SIGN_BIT: u64 = 0x8000_0000_0000_0000;

/// A double-precision number by its bit pattern. Meant to hold a probability, but
/// any pattern fits: `in_unit_interval` tells the sensible ones apart.
#[derive(Debug, Clone, Copy)]
pub struct Probability {
    pub bits: u64,
}

impl Probability {
    /// The sign bit.
    pub open spec fn negative(self) -> bool {
        self.bits >= SIGN_BIT
    }

    /// The exponent field.
    pub open spec fn exponent(self) -> nat {
        (self.bits / FRACTION_LIMIT) as nat % 2048
    }

    /// The fraction field.
    pub open spec fn fraction(self) -> nat {
        (self.bits % FRACTION_LIMIT) as nat
    }

    /// Not a number.
    pub open spec fn is_nan(self) -> bool {
        self.exponent() == 2047 && self.fraction() != 0
    }

    /// Infinity, of either sign.
    pub open spec fn is_infinite(self) -> bool {
        self.exponent() == 2047 && self.fraction() == 0
    }

    /// The absolute value of a finite number, in units of 2^-1074.
    pub open spec fn magnitude(self) -> nat {
        if self.exponent() == 0 {
            self.fraction()
        } else {
            (FRACTION_LIMIT + self.fraction()) as nat * pow2((self.exponent() - 1) as nat)
        }
    }

    /// The number is zero, of either sign.
    pub open spec fn is_zero(self) -> bool {
        self.exponent() == 0 && self.fraction() == 0
    }

    /// The two are equal as numbers: the zeros are equal, and what is not a number
    /// equals nothing.
    pub open spec fn same_number(self, other: Probability) -> bool {
        &&& !self.is_nan()
        &&& !other.is_nan()
        &&& self.bits == other.bits || (self.is_zero() && other.is_zero())
    }

    /// The number is less than or equal to zero.
    pub open spec fn at_most_zero(self) -> bool {
        !self.is_nan() && (self.negative() || self.is_zero())
    }

    /// The number is greater than or equal to one: the exponent field of one is
    /// 1023.
    pub open spec fn at_least_one(self) -> bool {
        !self.is_nan() && !self.negative() && self.exponent() >= 1023
    }

    /// The number lies between zero and one, both included.
    pub open spec fn in_unit_interval(self) -> bool {
        &&& self.negative() ==> self.is_zero()
        &&& self.exponent() < 1023 || (self.exponent() == 1023 && self.fraction() == 0)
    }

    /// The number exceeds the fraction of one that the top 53 bits of `word` make:
    /// those bits as an integer, divided by 2^53.
    pub open spec fn exceeds(self, word: u64) -> bool {
        &&& !self.is_nan()
        &&& !self.negative()
        &&& self.is_infinite() || (word / 2048) as nat * pow2(1021) < self.magnitude()
    }

    /// The number with the given bit pattern.
    pub fn from_bits(bits: u64) -> (p: Probability)
        ensures
            p.bits == bits,
    {
        Probability { bits }
    }

    /// The bit pattern of the number.
    pub fn to_bits(self) -> (bits: u64)
        ensures
            bits == self.bits,
    {
        self.bits
    }

    /// Whether the number lies between zero and one, both included. False of
    /// patterns that are not numbers.
    pub fn is_in_unit_interval(self) -> (r: bool)
        ensures
            r == self.in_unit_interval(),
    {
        self.bits <= ONE_BITS || self.bits == SIGN_BIT
    }

    /// Whether the number is less than or equal to zero.
    pub fn is_at_most_zero(self) -> (r: bool)
        ensures
            r == self.at_most_zero(),
    {
        if self.bits >= SIGN_BIT {
            self.bits - SIGN_BIT <= INFINITY_BITS
        } else {
            self.bits == 0
        }
    }

    /// Whether the number is greater than or equal to one.
    pub fn is_at_least_one(self) -> (r: bool)
        ensures
            r == self.at_least_one(),
    {
        ONE_BITS <= self.bits && self.bits <= INFINITY_BITS
    }

    /// Whether a uniform draw from the unit interval falls below this number, the
    /// draw being the top 53 bits of `word` as a binary fraction.
    pub fn is_above(self, word: u64) -> (r: bool)
        ensures
            r == self.exceeds(word),
            !self.negative() && 0 < self.exponent() < 1023 ==> r == ((word / 2048) as nat * pow2(
                (1022 - self.exponent()) as nat,
            ) < FRACTION_LIMIT + self.fraction()),
    {
        if self.bits > INFINITY_BITS {
            return false;
        }
        if self.bits == INFINITY_BITS {
            return true;
        }
        let draw: u64 = word / 2048;
        let exponent: u64 = self.bits / FRACTION_LIMIT;
        let fraction: u64 = self.bits % FRACTION_LIMIT;
        proof {
            lemma_powers();
        }
        if exponent >= 1023 {
            proof {
                law_one_in_units(self);
                lemma_draw_is_below_one(word);
            }
            return true;
        }
        if exponent == 0 && fraction == 0 {
            return false;
        }
        let significand: u64 = if exponent == 0 {
            fraction
        } else {
            FRACTION_LIMIT + fraction
        };
        let shift: u64 = if exponent == 0 {
            1021
        } else {
            1022 - exponent
        };
        let ghost rest: nat = (1021 - shift) as nat;
        proof {
            vstd::arithmetic::power2::lemma2_to64();
            assert(self.magnitude() == significand as nat * pow2(rest)) by {
                if exponent == 0 {
                    assert(significand as nat * 1 == significand as nat);
                }
            }
            vstd::arithmetic::power2::lemma_pow2_adds(shift as nat, rest);
            vstd::arithmetic::power2::lemma_pow2_pos(rest);
            let d: nat = pow2(shift as nat);
            let e: nat = pow2(rest);
            assert((draw as nat * (d * e) < significand as nat * e) == (draw as nat * d
                < significand as nat)) by (nonlinear_arith)
                requires
                    e > 0,
            ;
            assert(self.exceeds(word) == (draw as nat * d < significand as nat));
        }
        if shift >= 53 {
            proof {
                if draw >= 1 {
                    if shift > 53 {
                        vstd::arithmetic::power2::lemma_pow2_strictly_increases(53, shift as nat);
                    }
                    assert(draw as nat * pow2(shift as nat) >= pow2(53)) by (nonlinear_arith)
                        requires
                            draw >= 1,
                            pow2(shift as nat) >= pow2(53),
                    ;
                } else {
                    assert(0 * pow2(shift as nat) == 0);
                }
            }
            draw == 0
        } else {
            proof {
                vstd::bits::lemma_u64_shr_is_div((significand - 1) as u64, shift);
                vstd::arithmetic::power2::lemma_pow2_pos(shift as nat);
                lemma_quotient_bounds(
                    draw as nat,
                    (significand - 1) as nat,
                    pow2(shift as nat),
                );
            }
            draw <= (significand - 1) >> shift
        }
    }
}

/// A finite number is at least one exactly if its exponent field is that of one or
/// larger, and at most one exactly if its exponent field is smaller than that of
/// one or it is one itself; one is 2^1074 units.
pub proof fn law_one_in_units(p: Probability)
    requires
        !p.is_nan(),
        !p.is_infinite(),
    ensures
        p.magnitude() >= pow2(1074) <==> p.exponent() >= 1023,
        p.magnitude() <= pow2(1074) <==> p.exponent() < 1023 || (p.exponent() == 1023
            && p.fraction() == 0),
{
    lemma_powers();
    let e = p.exponent();
    let significand = (FRACTION_LIMIT + p.fraction()) as nat;
    vstd::arithmetic::power2::lemma_pow2_strictly_increases(53, 1074);
    if e > 0 {
        let unit = pow2((e - 1) as nat);
        vstd::arithmetic::power2::lemma_pow2_pos((e - 1) as nat);
        vstd::arithmetic::power2::lemma_pow2_adds(52, (e - 1) as nat);
        vstd::arithmetic::power2::lemma_pow2_adds(53, (e - 1) as nat);
        assert(pow2(52) * unit <= significand * unit < pow2(53) * unit) by (nonlinear_arith)
            requires
                pow2(52) <= significand < pow2(53),
                unit > 0,
        ;
        if e < 1022 {
            vstd::arithmetic::power2::lemma_pow2_strictly_increases(52 + e, 1074);
        } else if e > 1023 {
            vstd::arithmetic::power2::lemma_pow2_strictly_increases(1074, (51 + e) as nat);
        }
        if e == 1023 && p.fraction() > 0 {
            assert(significand * unit > pow2(52) * unit) by (nonlinear_arith)
                requires
                    pow2(52) < significand,
                    unit > 0,
            ;
        }
    }
}

/// A draw never falls below a number that is at most zero, and always falls below
/// one that is at least one: at the endpoints the draw decides nothing.
pub proof fn law_endpoints_need_no_draw(p: Probability, word: u64)
    ensures
        p.at_most_zero() ==> !p.exceeds(word),
        p.at_least_one() ==> p.exceeds(word),
{
    if p.at_most_zero() && !p.negative() {
        assert(p.magnitude() == 0);
        assert((word / 2048) as nat * pow2(1021) >= 0) by (nonlinear_arith);
    }
    if p.at_least_one() && !p.is_infinite() {
        law_one_in_units(p);
        lemma_draw_is_below_one(word);
    }
}

/// A pattern is made of a sign, an exponent field of 11 bits and a fraction field of
/// 52 bits, and these three tell which numbers are special.
pub proof fn law_pattern_parts(p: Probability, negative: bool, exponent: nat, fraction: nat)
    requires
        exponent < 2048,
        fraction < 0x10_0000_0000_0000,
        p.bits == exponent * 0x10_0000_0000_0000 + fraction + if negative {
            0x8000_0000_0000_0000int
        } else {
            0
        },
    ensures
        p.negative() == negative,
        p.exponent() == exponent,
        p.fraction() == fraction,
        p.is_nan() <==> exponent == 2047 && fraction > 0,
        p.is_infinite() <==> exponent == 2047 && fraction == 0,
        p.is_zero() <==> exponent == 0 && fraction == 0,
{
}

/// The magnitude counts up from zero: each pattern is larger than the one before it
/// by one unit in the last place, which doubles with every exponent. The sign does
/// not change the magnitude.
pub proof fn law_magnitude_counts_up(p: Probability, q: Probability)
    ensures
        p.bits == 0 ==> p.magnitude() == 0,
        p.bits + 1 == q.bits && q.bits < 0x7FF0_0000_0000_0000 ==> q.magnitude() == p.magnitude()
            + if p.bits < 0x10_0000_0000_0000 {
            1
        } else {
            pow2((p.bits / 0x10_0000_0000_0000 - 1) as nat)
        },
        p.bits + 0x8000_0000_0000_0000 == q.bits ==> q.magnitude() == p.magnitude(),
{
    if p.bits + 1 == q.bits && q.bits < 0x7FF0_0000_0000_0000 {
        let e = p.exponent();
        vstd::arithmetic::power2::lemma2_to64();
        if e > 0 {
            let unit = pow2((e - 1) as nat);
            let f = p.fraction();
            if f + 1 < FRACTION_LIMIT {
                assert(q.exponent() == e && q.fraction() == f + 1);
                assert((FRACTION_LIMIT + f + 1) * unit == (FRACTION_LIMIT + f) * unit + unit)
                    by (nonlinear_arith);
            } else {
                assert(q.exponent() == e + 1 && q.fraction() == 0);
                vstd::arithmetic::power2::lemma_pow2_unfold(e);
                assert(FRACTION_LIMIT * (2 * unit) == (FRACTION_LIMIT + f) * unit + unit)
                    by (nonlinear_arith)
                    requires
                        f + 1 == FRACTION_LIMIT,
                ;
            }
        } else if p.fraction() + 1 == FRACTION_LIMIT {
            assert(q.exponent() == 1 && q.fraction() == 0);
            assert(FRACTION_LIMIT * 1 == FRACTION_LIMIT);
        }
    }
}

/// Among finite numbers that are not negative, the larger pattern is the larger
/// number.
pub proof fn law_patterns_are_ordered(p: Probability, q: Probability)
    requires
        p.bits < q.bits < 0x7FF0_0000_0000_0000,
    ensures
        p.magnitude() < q.magnitude(),
    decreases q.bits - p.bits,
{
    let next = Probability { bits: (p.bits + 1) as u64 };
    law_magnitude_counts_up(p, next);
    vstd::arithmetic::power2::lemma_pow2_pos((p.bits / 0x10_0000_0000_0000 - 1) as nat);
    if next.bits < q.bits {
        law_patterns_are_ordered(next, q);
    }
}

/// The comparisons with zero and one are those of the numbers: one is 2^1074 units,
/// the two zeros are equal, and what is not a number compares false.
pub proof fn law_comparisons_are_numeric(p: Probability)
    ensures
        p.at_most_zero() <==> !p.is_nan() && (p.negative() || p.magnitude() == 0),
        p.at_least_one() <==> !p.is_nan() && !p.negative() && p.magnitude() >= pow2(1074),
        p.in_unit_interval() <==> !p.is_nan() && (!p.negative() || p.magnitude() == 0)
            && p.magnitude() <= pow2(1074),
        p.is_zero() <==> p.magnitude() == 0,
{
    lemma_powers();
    let e = p.exponent();
    if e > 0 {
        let unit = pow2((e - 1) as nat);
        vstd::arithmetic::power2::lemma_pow2_pos((e - 1) as nat);
        assert((FRACTION_LIMIT + p.fraction()) * unit >= FRACTION_LIMIT * unit && FRACTION_LIMIT
            * unit > 0) by (nonlinear_arith)
            requires
                unit > 0,
        ;
        if e == 2047 {
            vstd::arithmetic::power2::lemma_pow2_adds(52, 2046);
            vstd::arithmetic::power2::lemma_pow2_strictly_increases(1074, 2098);
        }
    }
    if e < 2047 {
        law_one_in_units(p);
    }
}

/// A probability is refused exactly if it is not a number, is below zero, or is above
/// one.
pub proof fn law_unit_interval_has_no_gaps(p: Probability)
    ensures
        !p.in_unit_interval() <==> {
            ||| p.is_nan()
            ||| p.at_most_zero() && p.magnitude() > 0
            ||| p.at_least_one() && p.magnitude() > pow2(1074)
        },
        p.bits <= 0x3FF0_0000_0000_0000 || p.bits == 0x8000_0000_0000_0000 <==> p.in_unit_interval(),
{
    law_comparisons_are_numeric(p);
}

/// A draw is an integer below 2^53, the top bits of a word, and stands for itself
/// divided by 2^53. It falls below a finite number exactly if the fraction is less
/// than the number. So a probability of `k` out of 2^53 is met by the draws below `k`
/// and no others.
pub proof fn law_draws_meet_their_share(p: Probability, word: u64, k: nat)
    ensures
        p.is_nan() || p.negative() ==> !p.exceeds(word),
        p.bits == 0x7FF0_0000_0000_0000 ==> p.exceeds(word),
        p.bits < 0x7FF0_0000_0000_0000 ==> p.exceeds(word) == ((word / 2048) * pow2(1021)
            < p.magnitude()),
        p.bits < 0x7FF0_0000_0000_0000 && p.magnitude() == k * pow2(1021) ==> p.exceeds(word) == (
        word / 2048 < k),
{
    let draw = (word / 2048) as nat;
    let unit = pow2(1021);
    vstd::arithmetic::power2::lemma_pow2_pos(1021);
    assert(draw * unit < k * unit <==> draw < k) by (nonlinear_arith)
        requires
            unit > 0,
    ;
}

/// A larger probability fires whenever a smaller one does, and a smaller draw makes
/// every fault fire that a larger one does.
pub proof fn law_firing_is_monotone(p: Probability, q: Probability, low: u64, high: u64)
    requires
        p.bits <= q.bits <= 0x7FF0_0000_0000_0000,
        low <= high,
        p.exceeds(high),
    ensures
        q.exceeds(low),
{
    let (a, b) = ((low / 2048) as nat, (high / 2048) as nat);
    assert(a * pow2(1021) <= b * pow2(1021)) by (nonlinear_arith)
        requires
            a <= b,
    ;
    if p.bits < q.bits < 0x7FF0_0000_0000_0000 {
        law_patterns_are_ordered(p, q);
    }
}

/// Two finite numbers are equal exactly if their values are; infinities are equal if
/// their signs are, and what is not a number equals nothing.
pub proof fn law_equality_is_numeric(p: Probability, q: Probability)
    ensures
        p.is_nan() || q.is_nan() ==> !p.same_number(q),
        p.is_infinite() && !q.is_nan() ==> p.same_number(q) == (q.is_infinite() && p.negative()
            == q.negative()),
        ({
            let value = |n: Probability|
                if n.negative() {
                    -(n.magnitude() as int)
                } else {
                    n.magnitude() as int
                };
            p.exponent() < 2047 && q.exponent() < 2047 ==> p.same_number(q) == (value(p) == value(
                q,
            ))
        }),
        p.same_number(q) == q.same_number(p),
{
    if p.exponent() < 2047 && q.exponent() < 2047 {
        lemma_magnitude_tells_patterns_apart(p, q);
    }
}

/// A pattern without its sign is a finite number if the exponent field is not the
/// largest, and has the same magnitude.
proof fn lemma_sign_aside(p: Probability) -> (a: Probability)
    requires
        p.exponent() < 2047,
    ensures
        a.bits == p.bits % SIGN_BIT,
        a.bits < 0x7FF0_0000_0000_0000,
        a.magnitude() == p.magnitude(),
{
    let a = Probability { bits: p.bits % SIGN_BIT };
    law_magnitude_counts_up(a, p);
    a
}

/// Finite numbers have the same magnitude exactly if their patterns agree but for the
/// sign, and zero is the only number of magnitude zero.
proof fn lemma_magnitude_tells_patterns_apart(p: Probability, q: Probability)
    requires
        p.exponent() < 2047,
        q.exponent() < 2047,
    ensures
        p.magnitude() == q.magnitude() <==> p.bits % SIGN_BIT == q.bits % SIGN_BIT,
        p.is_zero() <==> p.magnitude() == 0,
        q.is_zero() <==> q.magnitude() == 0,
{
    let a = lemma_sign_aside(p);
    let b = lemma_sign_aside(q);
    if a.bits < b.bits {
        law_patterns_are_ordered(a, b);
    } else if b.bits < a.bits {
        law_patterns_are_ordered(b, a);
    } else {
        assert(a == b);
    }
    law_comparisons_are_numeric(p);
    law_comparisons_are_numeric(q);
}

/// A draw is less than one.
proof fn lemma_draw_is_below_one(word: u64)
    ensures
        (word / 2048) as nat * pow2(1021) < pow2(1074),
{
    lemma_powers();
    vstd::arithmetic::power2::lemma_pow2_adds(53, 1021);
    vstd::arithmetic::power2::lemma_pow2_pos(1021);
    let draw = (word / 2048) as nat;
    assert(draw * pow2(1021) < pow2(53) * pow2(1021)) by (nonlinear_arith)
        requires
            draw < pow2(53),
            pow2(1021) > 0,
    ;
}

/// The two powers of two that bound a significand.
proof fn lemma_powers()
    ensures
        pow2(52) == FRACTION_LIMIT,
        pow2(53) == 2 * FRACTION_LIMIT,
{
    vstd::arithmetic::power2::lemma2_to64();
    vstd::arithmetic::power2::lemma2_to64_rest();
}

/// `k` is at most the quotient `n / d` exactly if `k` times `d` is at most `n`.
proof fn lemma_quotient_bounds(k: nat, n: nat, d: nat)
    requires
        d > 0,
    ensures
        k <= n / d <==> k * d <= n,
{
    vstd::arithmetic::div_mod::lemma_fundamental_div_mod(n as int, d as int);
    let q = n / d;
    assert(k <= q ==> k * d <= d * q) by (nonlinear_arith);
    assert(k >= q + 1 ==> k * d >= d * q + d) by (nonlinear_arith);
}

impl Default for Probability {
    /// Zero.
    fn default() -> (p: Self)
        ensures
            p.bits == 0,
    {
        Probability { bits: 0 }
    }
}

impl PartialEq for Probability {
    /// Numeric equality: the two zeros are equal, and what is not a number equals
    /// nothing.
    fn eq(&self, other: &Self) -> (r: bool) {
        let a: u64 = self.bits % SIGN_BIT;
        let b: u64 = other.bits % SIGN_BIT;
        a <= INFINITY_BITS && b <= INFINITY_BITS && (self.bits == other.bits || (a == 0 && b == 0))
    }
}

impl vstd::std_specs::cmp::PartialEqSpecImpl for Probability {
    open spec fn obeys_eq_spec() -> bool {
        true
    }

    open spec fn eq_spec(&self, other: &Self) -> bool {
        self.same_number(*other)
    }
}

} // verus!
