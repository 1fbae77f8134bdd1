//! IEEE-754 binary64 values, held as their bit patterns.
//!
//! The layout engine reads fractions that the configuration writes as
//! double-precision numbers. Comparing two of them, and scaling an integer by
//! one of them, is exact integer work on the bit pattern.

use vstd::arithmetic::div_mod::{
    lemma_div_denominator, lemma_div_is_ordered, lemma_div_multiples_vanish_quotient,
    lemma_fundamental_div_mod, lemma_truncate_middle,
};
use vstd::arithmetic::power2::{lemma_pow2_pos, lemma_pow2_strictly_increases, lemma_pow2_unfold, pow2};
use vstd::prelude::*;

verus! {

/// Bit that carries the sign.
pub const SIGN_BIT: u64 = 0x8000_0000_0000_0000;

/// Number of fraction patterns, two to the power 52.
pub const FRACTION_SPAN: u64 = 0x0010_0000_0000_0000;

/// Significands of binary64 numbers are below this, two to the power 53.
pub const SIGNIFICAND_SPAN: u64 = 0x0020_0000_0000_0000;

/// Exponent field of infinities and of not-a-number patterns.
pub const EXPONENT_SPECIAL: u64 = 2047;

/// A binary64 number.
#[derive(Clone, Copy, Debug, PartialEq, Eq, Structural)]
pub struct Binary64 {
    pub bits: u64,
}

/// Weight of the last bit of `p` that a significand below `span` can keep.
pub open spec fn rounding_unit(p: nat, span: nat) -> nat
    decreases p,
{
    if p < span || span == 0 {
        1
    } else {
        2 * rounding_unit(p / 2, span)
    }
}

/// `p` rounded to a number whose significand is below `span`, a power of two;
/// ties to even.
pub open spec fn round_significand(p: nat, span: nat) -> nat {
    let unit = rounding_unit(p, span);
    let kept = p / unit;
    let rest = p % unit;
    if 2 * rest > unit || (2 * rest == unit && kept % 2 == 1) {
        (kept + 1) * unit
    } else {
        kept * unit
    }
}

/// `v` times two to the power `scale`, rounded to an integer, ties away from
/// zero.
pub open spec fn round_scaled(v: nat, scale: int) -> nat {
    if scale >= 0 {
        v * pow2(scale as nat)
    } else {
        (v + pow2((-scale - 1) as nat)) / pow2((-scale) as nat)
    }
}

/// The `i32` closest to `v`.
pub open spec fn saturate_i32(v: int) -> i32 {
    if v < i32::MIN {
        i32::MIN
    } else if v > i32::MAX {
        i32::MAX
    } else {
        v as i32
    }
}

impl Binary64 {
    /// Whether the sign bit is set.
    pub open spec fn negative(self) -> bool {
        self.bits >= SIGN_BIT
    }

    /// The pattern without its sign bit.
    pub open spec fn magnitude(self) -> nat {
        (self.bits % SIGN_BIT) as nat
    }

    /// The exponent field.
    pub open spec fn exponent(self) -> nat {
        self.magnitude() / FRACTION_SPAN as nat
    }

    /// The fraction field.
    pub open spec fn fraction(self) -> nat {
        self.magnitude() % FRACTION_SPAN as nat
    }

    /// Whether the value is not a number.
    pub open spec fn spec_is_nan(self) -> bool {
        self.exponent() == EXPONENT_SPECIAL && self.fraction() != 0
    }

    /// Whether the value is an infinity.
    pub open spec fn is_infinite(self) -> bool {
        self.exponent() == EXPONENT_SPECIAL && self.fraction() == 0
    }

    /// Integer significand: a finite value is this times two to the power
    /// `scale`, with the sign of the pattern.
    pub open spec fn significand(self) -> nat {
        if self.exponent() == 0 {
            self.fraction()
        } else {
            FRACTION_SPAN as nat + self.fraction()
        }
    }

    /// Binary exponent of the integer significand.
    pub open spec fn scale(self) -> int {
        if self.exponent() == 0 {
            -1074
        } else {
            self.exponent() - 1075
        }
    }

    /// Position of the value in the order of the extended reals; the two zeros
    /// share one.
    pub open spec fn rank(self) -> int {
        if self.negative() {
            -(self.magnitude() as int)
        } else {
            self.magnitude() as int
        }
    }

    /// `self < other` as binary64 numbers: false as soon as one is not a
    /// number.
    pub open spec fn spec_lt(self, other: Binary64) -> bool {
        !self.spec_is_nan() && !other.spec_is_nan() && self.rank() < other.rank()
    }

    /// The integer that `n` times this value is, once the product has been
    /// rounded to binary64, then to an integer with ties away from zero, then
    /// brought into the range of `i32`. Not-a-number gives zero.
    pub open spec fn spec_scale_i32(self, n: i32) -> i32 {
        let size = (if n < 0 { -n } else { n as int }) as nat;
        let below_zero = self.negative() != (n < 0);
        if self.spec_is_nan() || (self.is_infinite() && n == 0) {
            0
        } else if self.is_infinite() {
            if below_zero {
                i32::MIN
            } else {
                i32::MAX
            }
        } else {
            let v = round_scaled(
                round_significand(size * self.significand(), SIGNIFICAND_SPAN as nat),
                self.scale(),
            );
            saturate_i32(if below_zero { -(v as int) } else { v as int })
        }
    }

    /// Whether the value is not a number.
    pub fn is_nan(self) -> (r: bool)
        ensures
            r == self.spec_is_nan(),
    {
        let magnitude: u64 = self.bits % SIGN_BIT;
        magnitude / FRACTION_SPAN == EXPONENT_SPECIAL && magnitude % FRACTION_SPAN != 0
    }

    /// `self < other`.
    pub fn less_than(self, other: Binary64) -> (r: bool)
        ensures
            r == self.spec_lt(other),
    {
        if self.is_nan() || other.is_nan() {
            return false;
        }
        let a: u64 = self.bits % SIGN_BIT;
        let b: u64 = other.bits % SIGN_BIT;
        if self.bits >= SIGN_BIT {
            if other.bits >= SIGN_BIT {
                b < a
            } else {
                a != 0 || b != 0
            }
        } else if other.bits >= SIGN_BIT {
            false
        } else {
            a < b
        }
    }

    /// `n` times this value, rounded to the nearest integer.
    pub fn scale_i32(self, n: i32) -> (r: i32)
        ensures
            r == self.spec_scale_i32(n),
    {
        let magnitude: u64 = self.bits % SIGN_BIT;
        let exponent: u64 = magnitude / FRACTION_SPAN;
        let fraction: u64 = magnitude % FRACTION_SPAN;
        let size: u128 = (if n < 0 { -(n as i64) } else { n as i64 }) as u128;
        let below_zero: bool = (self.bits >= SIGN_BIT) != (n < 0);
        if exponent == EXPONENT_SPECIAL {
            if fraction != 0 || n == 0 {
                return 0;
            }
            return if below_zero { i32::MIN } else { i32::MAX };
        }
        let significand: u64 = if exponent == 0 { fraction } else { FRACTION_SPAN + fraction };
        let scale: i32 = if exponent == 0 { -1074 } else { exponent as i32 - 1075 };
        assert(size * significand <= 0x8000_0000 * 0x20_0000_0000_0000) by (nonlinear_arith)
            requires
                size <= 0x8000_0000,
                significand <= 0x20_0000_0000_0000,
        ;
        let product: u128 = size * significand as u128;
        let rounded: u128 = round_product(product, SIGNIFICAND_SPAN as u128);
        let v: u64 = round_to_limit(rounded, scale);
        if below_zero {
            if v >= 0x8000_0000 {
                i32::MIN
            } else {
                (-(v as i64)) as i32
            }
        } else if v >= 0x7fff_ffff {
            i32::MAX
        } else {
            v as i32
        }
    }
}

/// The rounding unit halves its argument's excess bits one at a time.
proof fn lemma_rounding_unit_step(p: nat, unit: nat, span: nat)
    requires
        unit >= 1,
        span >= 1,
        p / unit >= span,
    ensures
        p / (2 * unit) == (p / unit) / 2,
        rounding_unit(p / unit, span) == 2 * rounding_unit((p / unit) / 2, span),
{
    lemma_div_denominator(p as int, unit as int, 2);
    assert(unit * 2 == 2 * unit);
}

/// Rounds a product of significands to one significand.
pub(crate) fn round_product(product: u128, span: u128) -> (r: u128)
    requires
        product <= 0x8000_0000 * 0x20_0000_0000_0000,
        1 <= span,
    ensures
        r == round_significand(product as nat, span as nat),
        r <= 3 * product + 1,
{
    let mut unit: u128 = 1;
    while product / unit >= span
        invariant
            1 <= unit,
            unit <= 2 * product + 1,
            1 <= span,
            product <= 0x8000_0000 * 0x20_0000_0000_0000,
            rounding_unit(product as nat, span as nat) == unit * rounding_unit(
                (product / unit) as nat,
                span as nat,
            ),
        decreases product / unit,
    {
        proof {
            lemma_rounding_unit_step(product as nat, unit as nat, span as nat);
            let next = rounding_unit((product / unit / 2) as nat, span as nat);
            assert(unit * (2 * next) == (2 * unit) * next) by (nonlinear_arith);
            lemma_fundamental_div_mod(product as int, unit as int);
            let kept = product as int / unit as int;
            assert(unit <= product) by (nonlinear_arith)
                requires
                    unit * kept <= product,
                    kept >= 1,
                    unit >= 1,
            ;
        }
        unit = unit * 2;
    }
    let kept: u128 = product / unit;
    let rest: u128 = product % unit;
    proof {
        assert(rounding_unit((product / unit) as nat, span as nat) == 1);
        assert(rounding_unit(product as nat, span as nat) == unit) by (nonlinear_arith)
            requires
                rounding_unit(product as nat, span as nat) == unit * rounding_unit(
                    (product / unit) as nat,
                    span as nat,
                ),
                rounding_unit((product / unit) as nat, span as nat) == 1,
        ;
        lemma_fundamental_div_mod(product as int, unit as int);
        assert((kept + 1) * unit == kept * unit + unit) by (nonlinear_arith);
        assert(kept * unit <= product) by (nonlinear_arith)
            requires
                product == unit * kept + rest,
                rest >= 0,
        ;
    }
    if 2 * rest > unit || (2 * rest == unit && kept % 2 == 1) {
        (kept + 1) * unit
    } else {
        kept * unit
    }
}

/// `round_scaled`, with everything from two to the power 31 up standing for
/// "too large".
pub(crate) fn round_to_limit(v: u128, scale: i32) -> (r: u64)
    requires
        v <= 4 * 0x8000_0000 * 0x20_0000_0000_0000,
        -1074 <= scale <= 971,
    ensures
        r < 0x8000_0000 ==> r == round_scaled(v as nat, scale as int),
        r >= 0x8000_0000 ==> round_scaled(v as nat, scale as int) >= 0x8000_0000,
{
    if scale >= 0 {
        let mut acc: u128 = v;
        let mut done: i32 = 0;
        if v == 0 {
            assert(0 * pow2(scale as nat) == 0) by (nonlinear_arith);
            return 0;
        }
        proof {
            vstd::arithmetic::power2::lemma2_to64();
            assert(v * 1 == v) by (nonlinear_arith);
        }
        while done < scale && acc < 0x8000_0000
            invariant
                0 <= done <= scale,
                1 <= acc <= 4 * 0x8000_0000 * 0x20_0000_0000_0000,
                acc == v * pow2(done as nat),
            decreases scale - done,
        {
            proof {
                lemma_pow2_unfold((done + 1) as nat);
                let p = pow2(done as nat);
                assert(v * (2 * p) == 2 * (v * p)) by (nonlinear_arith);
            }
            acc = acc * 2;
            done = done + 1;
        }
        if acc >= 0x8000_0000 {
            proof {
                if done < scale {
                    lemma_pow2_strictly_increases(done as nat, scale as nat);
                }
                let low = pow2(done as nat);
                let high = pow2(scale as nat);
                assert(v * low <= v * high) by (nonlinear_arith)
                    requires
                        low <= high,
                        v >= 0,
                ;
            }
            return 0x8000_0000;
        }
        return acc as u64;
    }
    let shift: i32 = -scale;
    if shift > 90 {
        proof {
            vstd::arithmetic::power2::lemma2_to64();
            vstd::arithmetic::power2::lemma_pow2_adds(64, 22);
            if shift - 1 > 90 {
                lemma_pow2_strictly_increases(90, (shift - 1) as nat);
            }
            lemma_pow2_strictly_increases(86, 90);
            lemma_pow2_unfold(shift as nat);
            let half = pow2((shift - 1) as nat);
            let whole = pow2(shift as nat);
            assert((v + half) / whole as int == 0) by (nonlinear_arith)
                requires
                    0 <= v < half,
                    whole == 2 * half,
            ;
        }
        return 0;
    }
    let mut half: u128 = 1;
    let mut done: i32 = 1;
    proof {
        vstd::arithmetic::power2::lemma2_to64();
        vstd::arithmetic::power2::lemma_pow2_adds(64, 25);
        lemma_pow2_strictly_increases(0, 89);
    }
    while done < shift
        invariant
            1 <= done <= shift <= 90,
            half == pow2((done - 1) as nat),
            half <= pow2(89),
            pow2(89) <= 0x2000000_0000000000000000,
        decreases shift - done,
    {
        proof {
            lemma_pow2_unfold(done as nat);
            if done < 89 {
                lemma_pow2_strictly_increases(done as nat, 89);
            }
        }
        half = half * 2;
        done = done + 1;
    }
    let whole: u128 = half * 2;
    proof {
        lemma_pow2_unfold(shift as nat);
        lemma_pow2_pos((shift - 1) as nat);
    }
    let r: u128 = (v + half) / whole;
    if r >= 0x8000_0000 {
        0x8000_0000
    } else {
        r as u64
    }
}

/// A larger number has the same rounding unit, or at least twice as large a
/// one.
proof fn lemma_rounding_unit_order(p: nat, q: nat, span: nat)
    requires
        p <= q,
    ensures
        rounding_unit(p, span) >= 1,
        rounding_unit(p, span) == rounding_unit(q, span) || 2 * rounding_unit(p, span)
            <= rounding_unit(q, span),
    decreases q,
{
    if q >= span && span > 0 {
        lemma_rounding_unit_order(p / 2, q / 2, span);
        lemma_rounding_unit_order(q / 2, q / 2, span);
    }
}

/// What a significand keeps is below the span, and at least half of it once
/// bits are lost.
proof fn lemma_kept_bits(p: nat, span: nat)
    requires
        span >= 1,
        span % 2 == 0,
    ensures
        rounding_unit(p, span) >= 1,
        p / rounding_unit(p, span) < span,
        rounding_unit(p, span) > 1 ==> 2 * (p / rounding_unit(p, span)) >= span,
    decreases p,
{
    if p >= span {
        lemma_kept_bits(p / 2, span);
        let unit = rounding_unit(p / 2, span);
        lemma_div_denominator(p as int, 2, unit as int);
        assert(p / rounding_unit(p, span) == (p / 2) / unit);
    } else {
        assert(p / 1 == p);
    }
}

/// Rounding to a significand keeps the order.
pub(crate) proof fn lemma_round_significand_order(p: nat, q: nat, span: nat)
    requires
        p <= q,
        span >= 1,
        span % 2 == 0,
    ensures
        round_significand(p, span) <= round_significand(q, span),
{
    let up = rounding_unit(p, span);
    let uq = rounding_unit(q, span);
    let kp = p / up;
    let kq = q / uq;
    lemma_rounding_unit_order(p, q, span);
    lemma_kept_bits(p, span);
    lemma_kept_bits(q, span);
    lemma_fundamental_div_mod(p as int, up as int);
    lemma_fundamental_div_mod(q as int, uq as int);
    assert((kp + 1) * up == kp * up + up) by (nonlinear_arith);
    assert((kq + 1) * uq == kq * uq + uq) by (nonlinear_arith);
    if up == uq {
        lemma_div_is_ordered(p as int, q as int, up as int);
        if kp < kq {
            assert((kp + 1) * up <= kq * uq) by (nonlinear_arith)
                requires
                    kp + 1 <= kq,
                    up == uq,
                    up >= 0,
            ;
        }
    } else {
        assert((kp + 1) * up <= span * up) by (nonlinear_arith)
            requires
                kp + 1 <= span,
                up >= 0,
        ;
        assert(span * up <= kq * uq) by (nonlinear_arith)
            requires
                span <= 2 * kq,
                2 * up <= uq,
                up >= 0,
        ;
    }
}

/// Rounding the double of a number doubles the rounded number.
proof fn lemma_round_significand_double(p: nat, span: nat)
    requires
        span >= 1,
        span % 2 == 0,
    ensures
        round_significand(2 * p, span) == 2 * round_significand(p, span),
{
    let unit = rounding_unit(p, span);
    let kept = p / unit;
    lemma_rounding_unit_order(p, p, span);
    if 2 * p < span {
        assert((2 * p) / 1 == 2 * p);
        assert((2 * p) % 1 == 0);
        assert((2 * p) * 1 == 2 * p);
        assert(p / 1 == p);
        assert(p % 1 == 0);
        assert(p * 1 == p);
        assert(round_significand(2 * p, span) == 2 * p);
        assert(round_significand(p, span) == p);
    } else {
        assert((2 * p) / 2 == p);
        assert(rounding_unit(2 * p, span) == 2 * unit);
        lemma_div_multiples_vanish_quotient(2, p as int, unit as int);
        lemma_truncate_middle(p as int, 2, unit as int);
        assert((2 * p) / (2 * unit) == kept);
        assert((2 * p) % (2 * unit) == 2 * (p % unit));
        assert(kept * (2 * unit) == 2 * (kept * unit)) by (nonlinear_arith);
        assert((kept + 1) * (2 * unit) == 2 * ((kept + 1) * unit)) by (nonlinear_arith);
    }
}

/// A factor of two may stand in the number or in the scale.
proof fn lemma_round_scaled_double(v: nat, scale: int)
    ensures
        round_scaled(2 * v, scale) == round_scaled(v, scale + 1),
{
    if scale >= 0 {
        lemma_pow2_unfold((scale + 1) as nat);
        let p = pow2(scale as nat);
        assert((2 * v) * p == v * (2 * p)) by (nonlinear_arith);
        assert(round_scaled(2 * v, scale) == (2 * v) * p);
        assert(round_scaled(v, scale + 1) == v * (2 * p));
    } else if scale == -1 {
        vstd::arithmetic::power2::lemma2_to64();
        assert(v * 1 == v);
        assert(round_scaled(v, 0) == v);
        assert((2 * v + 1) / 2 == v);
        assert(round_scaled(2 * v, -1) == (2 * v + 1) / 2);
    } else {
        let half = pow2((-scale - 2) as nat);
        let whole = pow2((-scale - 1) as nat);
        lemma_pow2_pos((-scale - 2) as nat);
        lemma_pow2_unfold((-scale - 1) as nat);
        lemma_pow2_unfold((-scale) as nat);
        lemma_div_multiples_vanish_quotient(2, (v + half) as int, whole as int);
        assert((v + half) / whole == (2 * v + whole) / (2 * whole)) by {
            assert(2 * (v + half) == 2 * v + whole);
        }
        assert(round_scaled(v, scale + 1) == (v + half) / whole);
        assert(round_scaled(2 * v, scale) == (2 * v + whole) / (2 * whole));
    }
}

/// A power of two may stand in the number or in the scale of a product that is
/// rounded twice.
proof fn lemma_round_product_shift(p: nat, k: nat, scale: int, span: nat)
    requires
        span >= 1,
        span % 2 == 0,
    ensures
        round_scaled(round_significand(p * pow2(k), span), scale) == round_scaled(
            round_significand(p, span),
            scale + k,
        ),
    decreases k,
{
    if k == 0 {
        vstd::arithmetic::power2::lemma2_to64();
        assert(p * 1 == p);
    } else {
        let less = (k - 1) as nat;
        lemma_round_product_shift(p, less, scale + 1, span);
        lemma_pow2_unfold(k);
        let q = pow2(less);
        assert(p * (2 * q) == 2 * (p * q)) by (nonlinear_arith);
        lemma_round_significand_double(p * q, span);
        lemma_round_scaled_double(round_significand(p * q, span), scale);
    }
}

/// Rounding to an integer keeps the order.
pub(crate) proof fn lemma_round_scaled_order(v: nat, w: nat, scale: int)
    requires
        v <= w,
    ensures
        round_scaled(v, scale) <= round_scaled(w, scale),
{
    if scale >= 0 {
        let p = pow2(scale as nat);
        assert(v * p <= w * p) by (nonlinear_arith)
            requires
                v <= w,
        ;
    } else {
        lemma_pow2_pos((-scale) as nat);
        let half = pow2((-scale - 1) as nat);
        lemma_div_is_ordered((v + half) as int, (w + half) as int, pow2((-scale) as nat) as int);
    }
}

/// Zero stays zero under any scale.
proof fn lemma_round_zero(scale: int, span: nat)
    requires
        span >= 1,
    ensures
        round_scaled(round_significand(0, span), scale) == 0,
{
    assert(rounding_unit(0, span) == 1);
    assert(0nat / 1 == 0);
    assert(round_significand(0, span) == 0);
    if scale >= 0 {
        assert(0 * pow2(scale as nat) == 0);
    } else {
        lemma_pow2_pos((-scale - 1) as nat);
        lemma_pow2_unfold((-scale) as nat);
        let half = pow2((-scale - 1) as nat);
        vstd::arithmetic::div_mod::lemma_basic_div(half as int, 2 * half as int);
    }
}

/// The size of the product with a finite number, before it is brought into the
/// range of `i32`.
spec fn scaled_size(x: Binary64, size: nat) -> nat {
    round_scaled(
        round_significand(size * x.significand(), SIGNIFICAND_SPAN as nat),
        x.scale(),
    )
}

/// Among finite numbers, the one further from zero has the product further
/// from zero.
proof fn lemma_scaled_size_order(a: Binary64, b: Binary64, size: nat)
    requires
        a.magnitude() <= b.magnitude(),
    ensures
        scaled_size(a, size) <= scaled_size(b, size),
{
    let span = SIGNIFICAND_SPAN as nat;
    let fraction_span = FRACTION_SPAN as nat;
    lemma_div_is_ordered(a.magnitude() as int, b.magnitude() as int, fraction_span as int);
    lemma_fundamental_div_mod(a.magnitude() as int, fraction_span as int);
    lemma_fundamental_div_mod(b.magnitude() as int, fraction_span as int);
    let k = (b.scale() - a.scale()) as nat;
    let sa = a.significand();
    let sb = b.significand();
    lemma_pow2_pos(k);
    if k > 0 {
        lemma_pow2_unfold(k);
        lemma_pow2_pos((k - 1) as nat);
        let half = pow2((k - 1) as nat);
        assert(sa <= sb * (2 * half)) by (nonlinear_arith)
            requires
                sa <= 2 * sb,
                half >= 1,
        ;
    } else {
        vstd::arithmetic::power2::lemma2_to64();
        assert(sb * 1 == sb);
        assert(sa <= sb);
    }
    let shifted = sb * pow2(k);
    assert(size * sa <= size * shifted) by (nonlinear_arith)
        requires
            sa <= shifted,
    ;
    assert(size * (sb * pow2(k)) == (size * sb) * pow2(k)) by (nonlinear_arith);
    lemma_round_significand_order(size * sa, size * shifted, span);
    lemma_round_scaled_order(
        round_significand(size * sa, span),
        round_significand(size * shifted, span),
        a.scale(),
    );
    lemma_round_product_shift(size * sb, k, a.scale(), span);
}

/// Scaling keeps the order: of two factors, the larger one never makes less of
/// a number that is not negative.
pub proof fn scaling_keeps_the_order(a: Binary64, b: Binary64, n: i32)
    requires
        n >= 0,
        !a.spec_is_nan(),
        !b.spec_is_nan(),
        !b.spec_lt(a),
    ensures
        a.spec_scale_i32(n) <= b.spec_scale_i32(n),
{
    let size = n as nat;
    if n == 0 {
        assert(0 * a.significand() == 0);
        assert(0 * b.significand() == 0);
        lemma_round_zero(a.scale(), SIGNIFICAND_SPAN as nat);
        lemma_round_zero(b.scale(), SIGNIFICAND_SPAN as nat);
    }
    if a.magnitude() <= b.magnitude() {
        lemma_scaled_size_order(a, b, size);
    }
    if b.magnitude() <= a.magnitude() {
        lemma_scaled_size_order(b, a, size);
    }
    if a.magnitude() == 0 && b.magnitude() == 0 {
        assert(size * 0 == 0);
        lemma_round_zero(a.scale(), SIGNIFICAND_SPAN as nat);
        lemma_round_zero(b.scale(), SIGNIFICAND_SPAN as nat);
    }
}

/// The number one.
pub const ONE: u64 = 0x3ff0_0000_0000_0000;

/// One times a number is the number.
pub proof fn scaling_by_one_changes_nothing(n: i32)
    ensures
        (Binary64 { bits: ONE }).spec_scale_i32(n) == n,
{
    let one = Binary64 { bits: ONE };
    let span = SIGNIFICAND_SPAN as nat;
    let size = (if n < 0 {
        -n
    } else {
        n as int
    }) as nat;
    assert(one.significand() == FRACTION_SPAN as nat);
    assert(one.scale() == -52);
    vstd::arithmetic::power2::lemma2_to64();
    vstd::arithmetic::power2::lemma2_to64_rest();
    assert(pow2(52) == FRACTION_SPAN as nat);
    lemma_round_product_shift(size, 52, -52, span);
    assert(size / 1 == size);
    assert(size % 1 == 0);
    assert(size * 1 == size);
    assert(round_significand(size, span) == size);
    assert(round_scaled(size, 0) == size);
}

/// A factor between zero and one makes nothing larger: what comes out lies
/// between zero and the number.
pub proof fn scaling_by_at_most_one_never_grows(a: Binary64, n: i32)
    requires
        n >= 0,
        !a.negative(),
        !a.spec_is_nan(),
        !(Binary64 { bits: ONE }).spec_lt(a),
    ensures
        0 <= a.spec_scale_i32(n) <= n,
{
    scaling_keeps_the_order(a, Binary64 { bits: ONE }, n);
    scaling_by_one_changes_nothing(n);
}

/// A finite factor that is not negative, `m` divided by a power of two, times
/// `n` comes out as the nearest integer: twice the distance to the exact product
/// is at most one, but for what the rounding of the product to a double-precision
/// number adds, which is at most one part in two to the power 52 of the product.
pub proof fn scaling_gives_the_nearest_integer(a: Binary64, n: i32)
    requires
        n >= 0,
        a.bits < SIGN_BIT,
        a.exponent() < EXPONENT_SPECIAL,
        a.scale() < 0,
    ensures
        ({
            let exact = n * a.significand();
            let one = pow2((-a.scale()) as nat);
            let got = a.spec_scale_i32(n) * one;
            let slack = SIGNIFICAND_SPAN * one + 2 * exact;
            &&& a.spec_scale_i32(n) >= 0
            &&& a.spec_scale_i32(n) < i32::MAX ==> {
                &&& SIGNIFICAND_SPAN * (2 * (got - exact)) <= slack
                &&& SIGNIFICAND_SPAN * (2 * (exact - got)) <= slack
            }
        }),
{
    assert(n * a.significand() >= 0) by (nonlinear_arith)
        requires
            n >= 0,
            a.significand() >= 0,
    ;
    lemma_nearest((n * a.significand()) as nat, a.scale(), SIGNIFICAND_SPAN as nat);
}

/// Rounding a number to a significand and then, scaled down, to an integer ends
/// within half of the unit, up to what the first rounding adds.
pub(crate) proof fn lemma_nearest(p: nat, scale: int, span: nat)
    requires
        scale < 0,
        span >= 1,
    ensures
        ({
            let one = pow2((-scale) as nat);
            let got = round_scaled(round_significand(p, span), scale) * one;
            &&& span * (2 * (got - p)) <= span * one + 2 * p
            &&& span * (2 * (p - got)) <= span * one + 2 * p
        }),
{
    let unit = rounding_unit(p, span);
    let rounded = round_significand(p, span);
    lemma_rounding_unit_order(p, p, span);
    lemma_unit_share(p, span);
    let kept = p / unit;
    lemma_fundamental_div_mod(p as int, unit as int);
    assert((kept + 1) * unit == kept * unit + unit) by (nonlinear_arith);
    assert(unit * kept == kept * unit) by (nonlinear_arith);
    if unit == 1 {
        assert(p % 1 == 0);
        assert(rounded == p);
    }
    assert(unit > 1 ==> 2 * (rounded - p) <= unit && 2 * (p - rounded) <= unit);
    let s = (-scale) as nat;
    let one = pow2(s);
    let half = pow2((s - 1) as nat);
    lemma_pow2_unfold(s);
    lemma_pow2_pos((s - 1) as nat);
    let v = round_scaled(rounded, scale);
    assert(v == (rounded + half) / one);
    lemma_fundamental_div_mod((rounded + half) as int, one as int);
    let got = v * one;
    assert(one * v == v * one) by (nonlinear_arith);
    assert(2 * (got - rounded) <= one);
    assert(2 * (rounded - got) <= one);
    let error = 2 * (rounded - p);
    assert(span * error <= 2 * p && span * (-error) <= 2 * p) by {
        if unit > 1 {
            assert(span * error <= unit * span) by (nonlinear_arith)
                requires
                    error <= unit,
                    span >= 0,
            ;
            assert(span * (-error) <= unit * span) by (nonlinear_arith)
                requires
                    -error <= unit,
                    span >= 0,
            ;
        } else {
            assert(error == 0);
            assert(span * 0 == 0);
        }
    }
    let off = 2 * (got - rounded);
    assert(span * (off + error) == span * off + span * error) by (nonlinear_arith);
    assert(span * (-off - error) == span * (-off) + span * (-error)) by (nonlinear_arith);
    assert(span * off <= span * one) by (nonlinear_arith)
        requires
            off <= one,
            span >= 0,
    ;
    assert(span * (-off) <= span * one) by (nonlinear_arith)
        requires
            -off <= one,
            span >= 0,
    ;
    assert(off + error == 2 * (got - p));
    assert(-off - error == 2 * (p - got));
}

proof fn lemma_unit_share(p: nat, span: nat)
    requires
        span >= 1,
    ensures
        rounding_unit(p, span) > 1 ==> rounding_unit(p, span) * span <= 2 * p,
    decreases p,
{
    if p >= span {
        lemma_unit_share(p / 2, span);
        let u = rounding_unit(p / 2, span);
        lemma_rounding_unit_order(p / 2, p / 2, span);
        assert((2 * u) * span == 2 * (u * span)) by (nonlinear_arith);
        if u <= 1 {
            assert(u == 1);
            assert(u * span == span) by (nonlinear_arith)
                requires
                    u == 1,
            ;
        }
        assert(2 * (u * span) <= 2 * p);
    }
}

/// Of two numbers that are numbers, the one whose pattern is larger is larger
/// when neither is negative, and a negative one is below every other; nothing
/// compares with what is not a number. The two zeros are equal.
pub proof fn order_of_doubles(a: Binary64, b: Binary64)
    requires
        !a.spec_is_nan(),
        !b.spec_is_nan(),
    ensures
        !a.negative() && !b.negative() ==> (a.spec_lt(b) <==> a.bits < b.bits),
        a.negative() && b.negative() ==> (a.spec_lt(b) <==> a.bits > b.bits),
        a.negative() && !b.negative() && a.magnitude() + b.magnitude() > 0 ==> a.spec_lt(b),
        !a.negative() && b.negative() ==> !a.spec_lt(b),
        !(a.spec_lt(b) && b.spec_lt(a)),
{
}

/// Whether `part` is the nearest integer to the fraction `f` of `whole`, for
/// fractions that are not negative and not beyond every integer.
pub open spec fn is_share(f: Binary64, whole: int, part: int) -> bool {
    f.bits < SIGN_BIT && f.exponent() < EXPONENT_SPECIAL && f.scale() < 0
        && part < i32::MAX ==> {
        let exact = whole * f.significand();
        let one = pow2((-f.scale()) as nat);
        let slack = SIGNIFICAND_SPAN * one + 2 * exact;
        &&& SIGNIFICAND_SPAN * (2 * (part * one - exact)) <= slack
        &&& SIGNIFICAND_SPAN * (2 * (exact - part * one)) <= slack
    }
}

/// Rounding changes nothing about a number that is a small one with zeros
/// behind it.
pub(crate) proof fn lemma_round_exact(d: nat, k: nat, span: nat)
    requires
        d < span,
    ensures
        (d * pow2(k)) % rounding_unit(d * pow2(k), span) == 0,
        rounding_unit(d * pow2(k), span) >= 1,
        round_significand(d * pow2(k), span) == d * pow2(k),
    decreases k,
{
    let p = d * pow2(k);
    lemma_pow2_pos(k);
    if p < span {
        assert(p % 1 == 0);
        assert(p / 1 == p);
        assert(rounding_unit(p, span) == 1);
        assert(p * 1 == p);
    } else {
        if k == 0 {
            vstd::arithmetic::power2::lemma2_to64();
            assert(d * 1 == d);
        } else {
            lemma_round_exact(d, (k - 1) as nat, span);
            vstd::arithmetic::power2::lemma_pow2_unfold(k);
            let h = d * pow2((k - 1) as nat);
            let q = pow2((k - 1) as nat);
            assert(d * (2 * q) == 2 * (d * q)) by (nonlinear_arith);
            assert(p == 2 * h);
            assert(p / 2 == h);
            let unit = rounding_unit(h, span);
            assert(rounding_unit(p, span) == 2 * unit);
            vstd::arithmetic::div_mod::lemma_fundamental_div_mod(h as int, unit as int);
            let kept = h / unit;
            assert(2 * h == (2 * unit) * kept) by (nonlinear_arith)
                requires
                    h == unit * kept,
            ;
            vstd::arithmetic::div_mod::lemma_fundamental_div_mod_converse(
                p as int,
                (2 * unit) as int,
                kept as int,
                0,
            );
            assert(kept * (2 * unit) == p) by (nonlinear_arith)
                requires
                    p == (2 * unit) * kept,
            ;
        }
    }
}

/// A pattern stands for no number if and only if it is above that of infinity,
/// whatever its sign.
pub proof fn not_a_number_is_above_infinity(v: Binary64)
    ensures
        v.spec_is_nan() <==> v.bits % SIGN_BIT > 0x7ff0_0000_0000_0000,
        v.is_infinite() <==> v.bits % SIGN_BIT == 0x7ff0_0000_0000_0000,
{
    let m = v.magnitude() as int;
    vstd::arithmetic::div_mod::lemma_fundamental_div_mod(m, FRACTION_SPAN as int);
}

} // verus!
