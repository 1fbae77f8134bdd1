//! IEEE-754 binary32 values, held as their bit patterns.

use crate::binary64;
use crate::binary64::{round_product, round_to_limit};
use vstd::prelude::*;

verus! {

/// Bit that carries the sign.
pub const SIGN_BIT: u32 = 0x8000_0000;

/// Number of fraction patterns, two to the power 23.
pub const FRACTION_SPAN: u32 = 0x0080_0000;

/// Significands are below this, two to the power 24.
pub const SIGNIFICAND_SPAN: u32 = 0x0100_0000;

/// Exponent field of infinities and of not-a-number patterns.
pub const EXPONENT_SPECIAL: u32 = 255;

/// A binary32 number.
#[derive(Clone, Copy, Debug, PartialEq, Eq, Structural)]
pub struct Binary32 {
    pub bits: u32,
}

impl Binary32 {
    /// Whether the sign bit is set.
    pub open spec fn negative(self) -> bool {
        self.bits >= SIGN_BIT
    }

    /// The exponent field.
    pub open spec fn exponent(self) -> nat {
        ((self.bits % SIGN_BIT) / FRACTION_SPAN) as nat
    }

    /// The fraction field.
    pub open spec fn fraction(self) -> nat {
        ((self.bits % SIGN_BIT) % FRACTION_SPAN) as nat
    }

    /// Integer significand: a finite value is this times two to the power
    /// `scale`, with the sign of the pattern.
    pub open spec fn significand(self) -> nat {
        if self.exponent() == 0 {
            self.fraction()
        } else {
            FRACTION_SPAN as nat + self.fraction()
        }
    }

    /// Binary exponent of the integer significand.
    pub open spec fn scale(self) -> int {
        if self.exponent() == 0 {
            -149
        } else {
            self.exponent() - 150
        }
    }

    /// The integer that `n` times this value is: `n` and the product are each
    /// rounded to binary32, the product then to an integer with ties away from
    /// zero, and brought into the range of `i32`. Not-a-number gives zero.
    pub open spec fn spec_scale_i32(self, n: i32) -> i32 {
        let size = (if n < 0 { -n } else { n as int }) as nat;
        let below_zero = self.negative() != (n < 0);
        let special = self.exponent() == EXPONENT_SPECIAL;
        if special && (self.fraction() != 0 || n == 0) {
            0
        } else if special {
            if below_zero {
                i32::MIN
            } else {
                i32::MAX
            }
        } else {
            let span = SIGNIFICAND_SPAN as nat;
            let factor = binary64::round_significand(size, span);
            let v = binary64::round_scaled(
                binary64::round_significand(factor * self.significand(), span),
                self.scale(),
            );
            binary64::saturate_i32(if below_zero { -(v as int) } else { v as int })
        }
    }

    /// `n` times this value, rounded to the nearest integer.
    pub fn scale_i32(self, n: i32) -> (r: i32)
        ensures
            r == self.spec_scale_i32(n),
    {
        let magnitude: u32 = self.bits % SIGN_BIT;
        let exponent: u32 = magnitude / FRACTION_SPAN;
        let fraction: u32 = magnitude % FRACTION_SPAN;
        let size: u128 = (if n < 0 { -(n as i64) } else { n as i64 }) as u128;
        let below_zero: bool = (self.bits >= SIGN_BIT) != (n < 0);
        if exponent == EXPONENT_SPECIAL {
            if fraction != 0 || n == 0 {
                return 0;
            }
            return if below_zero { i32::MIN } else { i32::MAX };
        }
        let significand: u32 = if exponent == 0 { fraction } else { FRACTION_SPAN + fraction };
        let scale: i32 = if exponent == 0 { -149 } else { exponent as i32 - 150 };
        let factor: u128 = round_product(size, SIGNIFICAND_SPAN as u128);
        assert(factor * significand <= 0x2_0000_0000 * 0x100_0000) by (nonlinear_arith)
            requires
                factor <= 0x2_0000_0000,
                significand <= 0x100_0000,
        ;
        let product: u128 = factor * significand as u128;
        let rounded: u128 = round_product(product, SIGNIFICAND_SPAN as u128);
        let v: u64 = round_to_limit(rounded, scale);
        if below_zero {
            if v >= 0x8000_0000 {
                i32::MIN
            } else {
                (-(v as i64)) as i32
            }
        } else if v >= 0x7fff_ffff {
            i32::MAX
        } else {
            v as i32
        }
    }
}

/// Bits that the quotient of a division by three carries behind the point.
pub const QUOTIENT_SPAN: u64 = 0x400_0000;

/// Two thirds of `n` as binary32 arithmetic has them: `n` is rounded to
/// binary32, divided by three with one rounding and doubled, and what is
/// behind the point is dropped.
pub open spec fn spec_two_thirds(n: i32) -> i32 {
    let span = SIGNIFICAND_SPAN as nat;
    let size = (if n < 0 { -n } else { n as int }) as nat;
    let shifted = binary64::round_significand(size, span) * QUOTIENT_SPAN as nat;
    let sticky: nat = if shifted % 3 == 0 { 0 } else { 1 };
    let v = binary64::round_significand(2 * (shifted / 3) + sticky, span) / QUOTIENT_SPAN as nat;
    (if n < 0 { -(v as int) } else { v as int }) as i32
}

/// Two thirds of `n`, rounded towards zero.
pub fn two_thirds(n: i32) -> (r: i32)
    ensures
        r == spec_two_thirds(n),
{
    let size: u128 = (if n < 0 { -(n as i64) } else { n as i64 }) as u128;
    let factor: u128 = round_product(size, SIGNIFICAND_SPAN as u128);
    assert(factor <= 0x2_0000_0000);
    let shifted: u128 = factor * 0x400_0000;
    let sticky: u128 = if shifted % 3 == 0 { 0 } else { 1 };
    let wide: u128 = 2 * (shifted / 3) + sticky;
    let rounded: u128 = round_product(wide, SIGNIFICAND_SPAN as u128);
    proof {
        lemma_round_near(size as nat, SIGNIFICAND_SPAN as nat);
        lemma_round_near(wide as nat, SIGNIFICAND_SPAN as nat);
    }
    let v: u128 = rounded / QUOTIENT_SPAN as u128;
    if n < 0 {
        (-(v as i64)) as i32
    } else {
        v as i32
    }
}

/// Two thirds of a number lie between zero and the number.
pub proof fn two_thirds_stay_within(n: i32)
    ensures
        n >= 0 ==> 0 <= spec_two_thirds(n) <= n,
        n < 0 ==> n <= spec_two_thirds(n) <= 0,
{
    let span = SIGNIFICAND_SPAN as nat;
    let size = (if n < 0 {
        -n
    } else {
        n as int
    }) as nat;
    lemma_round_near(size, span);
    let shifted = binary64::round_significand(size, span) * QUOTIENT_SPAN as nat;
    let sticky: nat = if shifted % 3 == 0 {
        0
    } else {
        1
    };
    lemma_round_near(2 * (shifted / 3) + sticky, span);
}

/// The rounding unit of a number is at most twice the number's share of the
/// span.
proof fn lemma_unit_small(p: nat, span: nat)
    requires
        span >= 1,
        p >= span,
    ensures
        binary64::rounding_unit(p, span) * span <= 2 * p,
    decreases p,
{
    let half = p / 2;
    if half >= span {
        lemma_unit_small(half, span);
        let u = binary64::rounding_unit(half, span);
        assert((2 * u) * span == 2 * (u * span)) by (nonlinear_arith);
    } else {
        assert(binary64::rounding_unit(half, span) == 1);
        assert(2 * span <= 2 * p);
    }
}

/// Rounding to 24 bits never adds more than an eighth.
proof fn lemma_round_near(p: nat, span: nat)
    requires
        span >= 64,
    ensures
        8 * binary64::round_significand(p, span) <= 9 * p,
{
    let unit = binary64::rounding_unit(p, span);
    if p < span {
        assert(p / 1 == p);
        assert(p % 1 == 0);
        assert(p * 1 == p);
    } else {
        lemma_unit_small(p, span);
        lemma_unit_positive(p, span);
        let kept = p / unit;
        vstd::arithmetic::div_mod::lemma_fundamental_div_mod(p as int, unit as int);
        assert(kept * unit <= p) by (nonlinear_arith)
            requires
                p == unit * kept + p % unit,
                p % unit >= 0,
        ;
        assert((kept + 1) * unit == kept * unit + unit) by (nonlinear_arith);
        assert(unit * 64 <= unit * span) by (nonlinear_arith)
            requires
                span >= 64,
        ;
        assert(8 * unit <= p);
    }
}

/// A rounding unit is never zero.
proof fn lemma_unit_positive(p: nat, span: nat)
    ensures
        binary64::rounding_unit(p, span) >= 1,
    decreases p,
{
    if !(p < span || span == 0) {
        lemma_unit_positive(p / 2, span);
    }
}

/// The number one.
pub const ONE: u32 = 0x3f80_0000;

/// A finite factor that is not negative, `m` divided by a power of two, times a
/// number that a binary32 number holds exactly comes out as the nearest integer:
/// twice the distance to the exact product is at most one, but for what the
/// rounding of the product to a binary32 number adds.
pub proof fn scaling_gives_the_nearest_integer(a: Binary32, n: i32)
    requires
        0 <= n < SIGNIFICAND_SPAN,
        a.bits < SIGN_BIT,
        a.exponent() < EXPONENT_SPECIAL,
        a.scale() < 0,
    ensures
        ({
            let exact = n * a.significand();
            let one = vstd::arithmetic::power2::pow2((-a.scale()) as nat);
            let got = a.spec_scale_i32(n) * one;
            let slack = SIGNIFICAND_SPAN * one + 2 * exact;
            &&& a.spec_scale_i32(n) >= 0
            &&& a.spec_scale_i32(n) < i32::MAX ==> {
                &&& SIGNIFICAND_SPAN * (2 * (got - exact)) <= slack
                &&& SIGNIFICAND_SPAN * (2 * (exact - got)) <= slack
            }
        }),
{
    assert(n * a.significand() >= 0) by (nonlinear_arith)
        requires
            n >= 0,
            a.significand() >= 0,
    ;
    lemma_held_exactly(n as nat);
    binary64::lemma_nearest(
        (n * a.significand()) as nat,
        a.scale(),
        SIGNIFICAND_SPAN as nat,
    );
}

proof fn lemma_held_exactly(n: nat)
    requires
        n < SIGNIFICAND_SPAN,
    ensures
        binary64::round_significand(n, SIGNIFICAND_SPAN as nat) == n,
{
    assert(n / 1 == n);
    assert(n % 1 == 0);
    assert(n * 1 == n);
}

/// The product with a number below zero is that with the number above zero, on
/// the other side of zero.
pub proof fn scaling_is_the_same_on_both_sides_of_zero(a: Binary32, n: i32)
    requires
        n > i32::MIN,
        i32::MIN < a.spec_scale_i32(n) < i32::MAX,
    ensures
        a.spec_scale_i32((-n) as i32) == -a.spec_scale_i32(n),
{
    if n == 0 {
        let span = SIGNIFICAND_SPAN as nat;
        lemma_held_exactly(0);
        assert(0 * a.significand() == 0);
        if a.exponent() != EXPONENT_SPECIAL {
            if a.scale() >= 0 {
                assert(0 * vstd::arithmetic::power2::pow2(a.scale() as nat) == 0);
            } else {
                let s = (-a.scale()) as nat;
                vstd::arithmetic::power2::lemma_pow2_unfold(s);
                vstd::arithmetic::power2::lemma_pow2_pos((s - 1) as nat);
                let half = vstd::arithmetic::power2::pow2((s - 1) as nat);
                vstd::arithmetic::div_mod::lemma_basic_div(half as int, 2 * half as int);
            }
            assert(binary64::round_scaled(0, a.scale()) == 0);
        }
    }
}

/// A factor between zero and one makes nothing larger.
pub proof fn scaling_by_at_most_one_never_grows(a: Binary32, n: i32)
    requires
        0 <= n < SIGNIFICAND_SPAN,
        a.bits <= ONE,
    ensures
        0 <= a.spec_scale_i32(n) <= n,
{
    let span = SIGNIFICAND_SPAN as nat;
    let sig = a.significand();
    let s = (-a.scale()) as nat;
    vstd::arithmetic::power2::lemma2_to64();
    assert(a.exponent() <= 127);
    let whole = vstd::arithmetic::power2::pow2(s);
    if a.exponent() == 127 {
        assert(sig == 0x80_0000);
        assert(s == 23);
    } else {
        assert(s >= 24);
        if s > 24 {
            vstd::arithmetic::power2::lemma_pow2_strictly_increases(24, s);
        }
        assert(sig < span);
    }
    assert(sig <= whole);
    lemma_held_exactly(n as nat);
    assert(n * sig <= n * whole) by (nonlinear_arith)
        requires
            sig <= whole,
            n >= 0,
    ;
    assert(n * sig >= 0) by (nonlinear_arith)
        requires
            sig >= 0,
            n >= 0,
    ;
    binary64::lemma_round_exact(n as nat, s, span);
    binary64::lemma_round_significand_order((n * sig) as nat, (n as nat) * whole, span);
    binary64::lemma_round_scaled_order(
        binary64::round_significand((n * sig) as nat, span),
        (n as nat) * whole,
        a.scale(),
    );
    vstd::arithmetic::power2::lemma_pow2_unfold(s);
    vstd::arithmetic::power2::lemma_pow2_pos((s - 1) as nat);
    let half = vstd::arithmetic::power2::pow2((s - 1) as nat);
    assert((n * whole + half) / (whole as int) == n) by {
        vstd::arithmetic::div_mod::lemma_fundamental_div_mod_converse(
            n * whole + half,
            whole as int,
            n as int,
            half as int,
        );
    }
}

/// Two thirds of a number are its two thirds, without what is behind the point,
/// up to numbers far beyond the width of any screen.
pub proof fn two_thirds_are_two_of_three_parts(n: i32)
    requires
        0 <= n < 0x10_0000,
    ensures
        3 * spec_two_thirds(n) <= 2 * n < 3 * spec_two_thirds(n) + 3,
{
    let span = SIGNIFICAND_SPAN as nat;
    let size = n as nat;
    lemma_held_exactly(size);
    let shifted = size * QUOTIENT_SPAN as nat;
    let sticky: nat = if shifted % 3 == 0 {
        0
    } else {
        1
    };
    let q = 2 * (shifted / 3) + sticky;
    let r = binary64::round_significand(q, span);
    let k = (2 * n) / 3;
    if n % 3 == 0 {
        let m = (n / 3) as nat;
        assert(shifted == 3 * (m * 0x400_0000));
        assert(q == (2 * m) * 0x400_0000);
        vstd::arithmetic::power2::lemma2_to64();
        binary64::lemma_round_exact(2 * m, 26, span);
        assert(r == (2 * m) * 0x400_0000);
        assert(r / 0x400_0000 == 2 * m);
    } else {
        let unit = binary64::rounding_unit(q, span);
        lemma_unit_positive(q, span);
        assert(unit * span <= 2 * q + span) by {
            if q >= span {
                lemma_unit_small(q, span);
            } else {
                assert(unit == 1);
            }
        }
        vstd::arithmetic::div_mod::lemma_fundamental_div_mod(q as int, unit as int);
        let kept = q / unit;
        assert((kept + 1) * unit == kept * unit + unit) by (nonlinear_arith);
        assert(unit * kept == kept * unit) by (nonlinear_arith);
        assert(q <= r + unit && r <= q + unit);
        assert(3 * q <= 2 * shifted + 3 && 2 * shifted <= 3 * q + 4);
        assert(k * 0x400_0000 <= r < (k + 1) * 0x400_0000);
        assert(r / 0x400_0000 == k);
    }
}

} // verus!
