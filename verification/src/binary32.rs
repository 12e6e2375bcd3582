//! Single precision numbers, held by their bits.
//!
//! Every non-negative finite number of the IEEE 754 format binary32 is a whole
//! multiple of `2^-149`, the smallest positive one. The model counts in that
//! unit, so that exact values, products and quotients are integers and ratios
//! of integers.

use vstd::arithmetic::power2::*;
use vstd::bits::*;
use vstd::prelude::*;

use crate::rounding;

verus! {

/// The bits of positive infinity.
pub const INFINITY_BITS: u32 = 0x7f80_0000;

/// A number in the IEEE 754 format binary32.
#[derive(Copy, Clone, Debug, PartialEq, Eq, Structural)]
pub struct Binary32 {
    /// The sign, exponent and fraction fields, from the highest bit down.
    pub bits: u32,
}

impl Binary32 {
    /// The eight bits of the exponent field.
    pub open spec fn exponent_field(self) -> int {
        (self.bits / 0x80_0000) as int % 256
    }

    /// The lowest 23 bits.
    pub open spec fn fraction_field(self) -> int {
        self.bits as int % 0x80_0000
    }

    /// Neither infinite nor not-a-number.
    pub open spec fn is_finite(self) -> bool {
        self.exponent_field() != 255
    }

    /// Above zero: the sign bit is clear, and the value is neither zero nor
    /// not-a-number.
    pub open spec fn is_positive(self) -> bool {
        &&& self.bits < 0x8000_0000
        &&& !(self.exponent_field() == 0 && self.fraction_field() == 0)
        &&& !(self.exponent_field() == 255 && self.fraction_field() != 0)
    }

    /// Finite and greater than zero.
    pub open spec fn is_positive_finite(self) -> bool {
        self.is_finite() && self.is_positive()
    }

    /// What the number with the bits `n` counts in units of `2^-149`, for `n`
    /// from zero to the bits of infinity. At infinity it is the value that the
    /// format would have next, were its exponents not bounded.
    pub open spec fn units(n: int) -> int {
        let exponent: int = n / 0x80_0000;
        let fraction: int = n % 0x80_0000;
        if exponent == 0 {
            fraction
        } else {
            (0x80_0000 + fraction) * pow2((exponent - 1) as nat)
        }
    }

    /// The number with the bits `n` is the nearest one to `num / den` units:
    /// `num / den` is not beyond half the way to either neighbour, and halfway
    /// between two numbers the one whose last bit is clear is taken. What lies
    /// halfway between the largest finite number and the next step, or beyond,
    /// goes to infinity.
    pub open spec fn is_nearest(num: int, den: int, n: int) -> bool {
        &&& 0 <= n <= INFINITY_BITS
        &&& n > 0 ==> {
            let middle: int = (Self::units(n - 1) + Self::units(n)) * den;
            2 * num > middle || (2 * num == middle && n % 2 == 0)
        }
        &&& n < INFINITY_BITS ==> {
            let middle: int = (Self::units(n) + Self::units(n + 1)) * den;
            2 * num < middle || (2 * num == middle && n % 2 == 0)
        }
    }

    /// The bits of `num / den` units, rounded to the nearest number with ties
    /// to even.
    pub open spec fn rounded(num: int, den: int) -> int {
        choose|n: int| Self::is_nearest(num, den, n)
    }

    /// The product of two positive numbers, rounded.
    pub open spec fn product(self, other: Self) -> Self {
        if self.is_finite() && other.is_finite() {
            let exact: int = Self::units(self.bits as int) * Self::units(other.bits as int);
            Binary32 { bits: Self::rounded(exact, pow2(149) as int) as u32 }
        } else {
            Binary32 { bits: INFINITY_BITS }
        }
    }

    /// The quotient of two positive finite numbers, rounded.
    pub open spec fn quotient(self, other: Self) -> Self {
        let scaled: int = Self::units(self.bits as int) * pow2(149);
        Binary32 { bits: Self::rounded(scaled, Self::units(other.bits as int)) as u32 }
    }

    /// The integer nearest to a positive finite number, where halves go up.
    pub open spec fn nearest_integer(self) -> int {
        (2 * Self::units(self.bits as int) + pow2(149)) / pow2(150) as int
    }

    /// Whether the number is finite and greater than zero.
    pub fn is_finite_above_zero(self) -> (result: bool)
        ensures
            result == self.is_positive_finite(),
    {
        self.bits > 0 && self.bits < INFINITY_BITS
    }

    /// Whether the number is neither infinite nor not-a-number.
    pub fn has_finite_value(self) -> (result: bool)
        ensures
            result == self.is_finite(),
    {
        (self.bits / 0x80_0000) % 256 != 255
    }

    /// The significand and exponent of a non-negative finite number.
    fn parts(self) -> (parts: (u32, u32))
        requires
            self.bits < INFINITY_BITS,
        ensures
            Self::units(self.bits as int) == parts.0 * pow2(parts.1 as nat),
            parts.0 < 0x100_0000,
            parts.1 <= 253,
            parts.1 > 0 ==> parts.0 >= 0x80_0000,
            self.bits > 0 ==> parts.0 > 0,
    {
        let exponent: u32 = self.bits / 0x80_0000;
        let fraction: u32 = self.bits % 0x80_0000;
        if exponent == 0 {
            proof {
                lemma2_to64();
                assert(fraction * pow2(0) == fraction) by (nonlinear_arith)
                    requires
                        pow2(0) == 1,
                ;
            }
            (fraction, 0)
        } else {
            (0x80_0000 + fraction, exponent - 1)
        }
    }

    /// The product of two positive numbers, rounded to the nearest number with
    /// ties to even.
    pub fn times(self, other: Self) -> (result: Self)
        requires
            self.is_positive(),
            other.is_positive(),
        ensures
            result == self.product(other),
    {
        if self.bits == INFINITY_BITS || other.bits == INFINITY_BITS {
            return Binary32 { bits: INFINITY_BITS };
        }
        let (a, ea): (u32, u32) = self.parts();
        let (b, eb): (u32, u32) = other.parts();
        let ghost num: int = Self::units(self.bits as int) * Self::units(other.bits as int);
        let ghost den: int = pow2(149) as int;
        proof {
            lemma_pow2_pos(149);
            rounding::lemma_product_leads(a as int, ea as int, b as int, eb as int);
        }
        let significand: u128 = (a as u128 * b as u128) * 0x1_0000_0000_0000_0000;
        let exponent: i32 = ea as i32 + eb as i32 - 213;
        rounding::round_leading(significand, false, exponent, Ghost(num), Ghost(den))
    }

    /// The quotient of two positive finite numbers, rounded to the nearest
    /// number with ties to even.
    pub fn over(self, other: Self) -> (result: Self)
        requires
            self.is_positive_finite(),
            other.is_positive_finite(),
        ensures
            result == self.quotient(other),
    {
        let (a, ea): (u32, u32) = self.parts();
        let (b, eb): (u32, u32) = other.parts();
        let ghost num: int = Self::units(self.bits as int) * pow2(149);
        let ghost den: int = Self::units(other.bits as int);
        let dividend: u128 = a as u128 * 0x1_0000_0000_0000_0000;
        let significand: u128 = dividend / b as u128;
        let inexact: bool = dividend % b as u128 != 0;
        proof {
            rounding::lemma_quotient_leads(a as int, ea as int, b as int, eb as int);
        }
        let exponent: i32 = ea as i32 - eb as i32 + 85;
        rounding::round_leading(significand, inexact, exponent, Ghost(num), Ghost(den))
    }

    /// The integer nearest to a positive finite number, where halves go up, or
    /// the largest `u32` if that is smaller.
    pub fn round_to_u32(self) -> (result: u32)
        requires
            self.is_positive_finite(),
        ensures
            self.nearest_integer() <= u32::MAX ==> result == self.nearest_integer(),
            self.nearest_integer() > u32::MAX ==> result == u32::MAX,
    {
        let (m, e): (u32, u32) = self.parts();
        proof {
            lemma2_to64();
        }
        if e >= 149 {
            let k: u32 = e - 149;
            proof {
                lemma_nearest_integer_above(self, m as int, e as int);
            }
            if k >= 32 {
                proof {
                    lemma_large_significand(m as int, k as int);
                }
                return u32::MAX;
            }
            proof {
                lemma_small_shift(m as int, k as int);
                lemma_u64_shl_is_mul(m as u64, k as u64);
            }
            let value: u64 = (m as u64) << (k as u64);
            if value > u32::MAX as u64 {
                u32::MAX
            } else {
                value as u32
            }
        } else {
            let s: u32 = 149 - e;
            proof {
                lemma_nearest_integer_below(self, m as int, e as int);
            }
            if s >= 25 {
                proof {
                    lemma_below_half(m as int, s as int);
                }
                return 0;
            }
            proof {
                lemma_pow2_strictly_increases(s as nat, 25);
                lemma_pow2_unfold((s + 1) as nat);
                lemma_u64_shl_is_mul(1, s as u64);
                lemma_pow2_pos(s as nat);
            }
            let half: u64 = 1u64 << (s as u64);
            let value: u64 = (2 * m as u64 + half) / (2 * half);
            proof {
                assert(value <= 2 * m as u64 + half) by (nonlinear_arith)
                    requires
                        value == (2 * m as u64 + half) / (2 * half),
                        half >= 1,
                ;
            }
            value as u32
        }
    }
}

/// At or above the exponent of the integers, a number is an integer.
proof fn lemma_nearest_integer_above(a: Binary32, m: int, e: int)
    requires
        Binary32::units(a.bits as int) == m * pow2(e as nat),
        m >= 0,
        e >= 149,
    ensures
        a.nearest_integer() == m * pow2((e - 149) as nat),
{
    let v: int = m * pow2((e - 149) as nat);
    let unit: int = pow2(149) as int;
    lemma_pow2_adds((e - 149) as nat, 149);
    lemma_pow2_unfold(150);
    lemma_pow2_pos(149);
    assert(m * pow2(e as nat) == v * unit) by (nonlinear_arith)
        requires
            v == m * pow2((e - 149) as nat),
            pow2(e as nat) == pow2((e - 149) as nat) * unit,
    ;
    assert((2 * (v * unit) + unit) / (2 * unit) == v) by (nonlinear_arith)
        requires
            unit > 0,
            v >= 0,
    {
        assert(2 * (v * unit) + unit == v * (2 * unit) + unit);
        vstd::arithmetic::div_mod::lemma_fundamental_div_mod_converse(
            2 * (v * unit) + unit,
            2 * unit,
            v,
            unit,
        );
    }
}

/// Below the exponent of the integers, half of a unit decides.
proof fn lemma_nearest_integer_below(a: Binary32, m: int, e: int)
    requires
        Binary32::units(a.bits as int) == m * pow2(e as nat),
        m >= 0,
        0 <= e < 149,
    ensures
        a.nearest_integer() == (2 * m + pow2((149 - e) as nat)) / pow2((150 - e) as nat) as int,
{
    let p: int = pow2(e as nat) as int;
    let half: int = pow2((149 - e) as nat) as int;
    let whole: int = pow2((150 - e) as nat) as int;
    lemma_pow2_adds(e as nat, (149 - e) as nat);
    lemma_pow2_adds(e as nat, (150 - e) as nat);
    lemma_pow2_pos(e as nat);
    lemma_pow2_pos((150 - e) as nat);
    assert(2 * (m * p) + p * half == p * (2 * m + half)) by (nonlinear_arith);
    vstd::arithmetic::div_mod::lemma_div_multiples_vanish_quotient(p, 2 * m + half, whole);
}

/// A full significand shifted by 32 places or more exceeds every `u32`.
proof fn lemma_large_significand(m: int, k: int)
    requires
        m >= 0x80_0000,
        k >= 32,
    ensures
        m * pow2(k as nat) > u32::MAX,
{
    lemma2_to64();
    if k > 32 {
        lemma_pow2_strictly_increases(32, k as nat);
    }
    let p: int = pow2(k as nat) as int;
    assert(m * p > u32::MAX) by (nonlinear_arith)
        requires
            m >= 0x80_0000,
            p >= 0x1_0000_0000,
    ;
}

/// A significand shifted by less than 32 places fits in a `u64`.
proof fn lemma_small_shift(m: int, k: int)
    requires
        0 <= m < 0x100_0000,
        0 <= k < 32,
    ensures
        m * pow2(k as nat) <= u64::MAX,
{
    lemma2_to64();
    lemma_pow2_strictly_increases(k as nat, 32);
    let p: int = pow2(k as nat) as int;
    assert(m * p <= u64::MAX) by (nonlinear_arith)
        requires
            0 <= m < 0x100_0000,
            0 <= p < 0x1_0000_0000,
    ;
}

/// A significand that lies below the half bit rounds to zero.
proof fn lemma_below_half(m: int, s: int)
    requires
        0 <= m < 0x100_0000,
        s >= 25,
    ensures
        (2 * m + pow2(s as nat)) / pow2((s + 1) as nat) as int == 0,
{
    lemma2_to64();
    if s > 25 {
        lemma_pow2_strictly_increases(25, s as nat);
    }
    lemma_pow2_unfold((s + 1) as nat);
    vstd::arithmetic::div_mod::lemma_basic_div(
        2 * m + pow2(s as nat),
        pow2((s + 1) as nat) as int,
    );
}

/// A significand `m` at the exponent `x` has its place among the bits.
pub(crate) proof fn lemma_units_of_parts(x: int, m: int)
    requires
        x >= 0,
        0 <= m <= 0x100_0000,
        x == 0 || m >= 0x80_0000,
    ensures
        Binary32::units(x * 0x80_0000 + m) == m * pow2(x as nat),
{
    lemma_pow2_unfold((x + 1) as nat);
    lemma2_to64();
    let n: int = x * 0x80_0000 + m;
    if m == 0x100_0000 {
        assert(n / 0x80_0000 == x + 2 && n % 0x80_0000 == 0);
    } else if m >= 0x80_0000 {
        assert(n / 0x80_0000 == x + 1 && n % 0x80_0000 == m - 0x80_0000);
    }
}

/// The units grow by one step of the significand from each number to the next.
pub(crate) proof fn lemma_units_step(n: int)
    requires
        n >= 0,
    ensures
        0 <= Binary32::units(n) < Binary32::units(n + 1),
{
    let e: int = n / 0x80_0000;
    let f: int = n % 0x80_0000;
    let x: int = if e == 0 { 0 } else { e - 1 };
    let m: int = if e == 0 { f } else { 0x80_0000 + f };
    lemma_units_of_parts(x, m);
    lemma_units_of_parts(x, m + 1);
    lemma_pow2_pos(x as nat);
    let p: int = pow2(x as nat) as int;
    assert(0 <= m * p < (m + 1) * p) by (nonlinear_arith)
        requires
            m >= 0,
            p > 0,
    ;
}

/// The order of the bits is the order of the numbers.
pub proof fn lemma_units_increase(a: int, b: int)
    requires
        0 <= a < b,
    ensures
        Binary32::units(a) < Binary32::units(b),
    decreases b - a,
{
    lemma_units_step(b - 1);
    if a < b - 1 {
        lemma_units_increase(a, b - 1);
    }
}

/// Rounding keeps the order: a ratio that is not above another one rounds to a
/// number that is not above the other one's.
proof fn lemma_nearest_keeps_order(num1: int, den1: int, n1: int, num2: int, den2: int, n2: int)
    requires
        den1 > 0,
        den2 > 0,
        num1 * den2 <= num2 * den1,
        Binary32::is_nearest(num1, den1, n1),
        Binary32::is_nearest(num2, den2, n2),
    ensures
        n1 <= n2,
{
    if n1 > n2 {
        let low: int = Binary32::units(n1 - 1) + Binary32::units(n1);
        let high: int = Binary32::units(n2) + Binary32::units(n2 + 1);
        if n2 + 1 < n1 {
            lemma_units_increase(n2, n1 - 1);
            lemma_units_increase(n2 + 1, n1);
        }
        assert(high <= low);
        assert(low * den1 <= 2 * num1 && 2 * num2 <= high * den2);
        assert((low * den1) * den2 <= (2 * num1) * den2) by (nonlinear_arith)
            requires
                low * den1 <= 2 * num1,
                den2 > 0,
        ;
        assert((2 * num2) * den1 <= (high * den2) * den1) by (nonlinear_arith)
            requires
                2 * num2 <= high * den2,
                den1 > 0,
        ;
        assert((high * den2) * den1 <= (low * den1) * den2) by (nonlinear_arith)
            requires
                high <= low,
                den1 > 0,
                den2 > 0,
        ;
        assert((2 * num1) * den2 == 2 * (num1 * den2)) by (nonlinear_arith);
        assert((2 * num2) * den1 == 2 * (num2 * den1)) by (nonlinear_arith);
        assert((low * den1) * den2 == (2 * num1) * den2);
        assert(low * den1 == 2 * num1) by (nonlinear_arith)
            requires
                (low * den1) * den2 == (2 * num1) * den2,
                den2 > 0,
        ;
        assert(high * den2 == 2 * num2) by (nonlinear_arith)
            requires
                (high * den2) * den1 == (2 * num2) * den1,
                den1 > 0,
        ;
        assert(high == low) by (nonlinear_arith)
            requires
                (high * den2) * den1 == (low * den1) * den2,
                den1 > 0,
                den2 > 0,
        ;
        assert(n1 == n2 + 1);
    }
}

/// Among the numbers up to `n` there is a last one that does not exceed
/// `num / den` units.
proof fn lemma_last_not_above(num: int, den: int, n: int) -> (last: int)
    requires
        num >= 0,
        den > 0,
        n >= 0,
    ensures
        0 <= last <= n,
        Binary32::units(last) * den <= num,
        last < n ==> num < Binary32::units(last + 1) * den,
    decreases n,
{
    if Binary32::units(n) * den <= num {
        n
    } else if n == 0 {
        assert(Binary32::units(0) * den == 0) by (nonlinear_arith)
            requires
                Binary32::units(0) == 0,
        ;
        0
    } else {
        lemma_last_not_above(num, den, n - 1)
    }
}

/// Every ratio has a nearest number, and only one.
pub proof fn lemma_rounded(num: int, den: int)
    requires
        num >= 0,
        den > 0,
    ensures
        Binary32::is_nearest(num, den, Binary32::rounded(num, den)),
        forall|n: int|
            Binary32::is_nearest(num, den, n) ==> n == Binary32::rounded(num, den),
{
    let last: int = lemma_last_not_above(num, den, INFINITY_BITS as int);
    let here: int = Binary32::units(last);
    let next: int = Binary32::units(last + 1);
    lemma_units_step(last);
    let middle: int = (here + next) * den;
    assert(2 * (here * den) < middle < 2 * (next * den)) by (nonlinear_arith)
        requires
            middle == (here + next) * den,
            here < next,
            den > 0,
    ;
    if last > 0 {
        let before: int = Binary32::units(last - 1);
        lemma_units_step(last - 1);
        assert((before + here) * den < 2 * (here * den)) by (nonlinear_arith)
            requires
                before < here,
                den > 0,
        ;
    }
    let after: int = Binary32::units(last + 2);
    lemma_units_step(last + 1);
    assert(2 * (next * den) < (next + after) * den) by (nonlinear_arith)
        requires
            next < after,
            den > 0,
    ;
    if last == INFINITY_BITS || 2 * num < middle || (2 * num == middle && last % 2 == 0) {
        assert(Binary32::is_nearest(num, den, last));
    } else {
        assert(Binary32::is_nearest(num, den, last + 1));
    }
    let r: int = Binary32::rounded(num, den);
    assert forall|n: int| Binary32::is_nearest(num, den, n) implies n == r by {
        lemma_nearest_keeps_order(num, den, n, num, den, r);
        lemma_nearest_keeps_order(num, den, r, num, den, n);
    }
}

/// A ratio that is a number of the format stays what it is.
pub proof fn lemma_rounded_exact(n: int, den: int)
    requires
        0 <= n <= INFINITY_BITS,
        den > 0,
    ensures
        Binary32::rounded(Binary32::units(n) * den, den) == n,
{
    let here: int = Binary32::units(n);
    lemma_units_step(n);
    let next: int = Binary32::units(n + 1);
    assert(0 <= 2 * (here * den) < (here + next) * den) by (nonlinear_arith)
        requires
            0 <= here < next,
            den > 0,
    ;
    if n > 0 {
        lemma_units_step(n - 1);
        let before: int = Binary32::units(n - 1);
        assert((before + here) * den < 2 * (here * den)) by (nonlinear_arith)
            requires
                before < here,
                den > 0,
        ;
    }
    assert(Binary32::is_nearest(here * den, den, n));
    lemma_rounded(here * den, den);
}

/// Rounding keeps the order of the ratios.
pub proof fn lemma_rounded_keeps_order(num1: int, den1: int, num2: int, den2: int)
    requires
        num1 >= 0,
        num2 >= 0,
        den1 > 0,
        den2 > 0,
        num1 * den2 <= num2 * den1,
    ensures
        Binary32::rounded(num1, den1) <= Binary32::rounded(num2, den2),
{
    lemma_rounded(num1, den1);
    lemma_rounded(num2, den2);
    lemma_nearest_keeps_order(
        num1,
        den1,
        Binary32::rounded(num1, den1),
        num2,
        den2,
        Binary32::rounded(num2, den2),
    );
}

/// A product of positive finite numbers is finite or infinite.
pub proof fn lemma_product_range(a: Binary32, b: Binary32)
    requires
        a.is_positive_finite(),
        b.is_positive_finite(),
    ensures
        a.product(b).bits <= INFINITY_BITS,
{
    let (x, y): (int, int) = (Binary32::units(a.bits as int), Binary32::units(b.bits as int));
    lemma_pow2_pos(149);
    lemma_units_not_negative(a.bits as int);
    lemma_units_not_negative(b.bits as int);
    assert(x * y >= 0) by (nonlinear_arith)
        requires
            x >= 0,
            y >= 0,
    ;
    lemma_rounded(x * y, pow2(149) as int);
}

/// The larger of two numbers has the larger product with a third, or the same.
pub proof fn lemma_product_keeps_order(a: Binary32, b: Binary32, factor: Binary32)
    requires
        a.is_positive_finite(),
        b.is_positive_finite(),
        factor.is_positive(),
        a.bits <= b.bits,
    ensures
        a.product(factor).bits <= b.product(factor).bits,
        factor.product(a).bits <= factor.product(b).bits,
{
    let unit: int = pow2(149) as int;
    lemma_pow2_pos(149);
    lemma_units_not_negative(factor.bits as int);
    lemma_units_not_negative(a.bits as int);
    if a.bits < b.bits {
        lemma_units_increase(a.bits as int, b.bits as int);
    }
    let x: int = Binary32::units(a.bits as int);
    let y: int = Binary32::units(b.bits as int);
    let f: int = Binary32::units(factor.bits as int);
    assert(0 <= x * f <= y * f && (x * f) * unit <= (y * f) * unit) by (nonlinear_arith)
        requires
            0 <= x <= y,
            f >= 0,
            unit > 0,
    ;
    assert(f * x == x * f && f * y == y * f) by (nonlinear_arith);
    lemma_rounded_keeps_order(x * f, unit, y * f, unit);
    lemma_rounded(x * f, unit);
    lemma_rounded(y * f, unit);
}

/// The larger of two divisors leaves the smaller quotient, or the same.
pub proof fn lemma_quotient_turns_order(dividend: Binary32, a: Binary32, b: Binary32)
    requires
        dividend.is_positive_finite(),
        a.is_positive_finite(),
        b.is_positive_finite(),
        a.bits <= b.bits,
    ensures
        dividend.quotient(b).bits <= dividend.quotient(a).bits,
{
    lemma_pow2_pos(149);
    lemma_units_increase(0, a.bits as int);
    lemma_units_not_negative(dividend.bits as int);
    if a.bits < b.bits {
        lemma_units_increase(a.bits as int, b.bits as int);
    }
    let u: int = Binary32::units(dividend.bits as int);
    let num: int = u * pow2(149);
    let x: int = Binary32::units(a.bits as int);
    let y: int = Binary32::units(b.bits as int);
    assert(num >= 0 && num * x <= num * y) by (nonlinear_arith)
        requires
            num == u * pow2(149),
            u >= 0,
            pow2(149) > 0,
            x <= y,
    ;
    lemma_rounded_keeps_order(num, y, num, x);
    lemma_rounded(num, x);
    lemma_rounded(num, y);
}

/// The larger of two numbers has the larger nearest integer, or the same.
pub proof fn lemma_nearest_integer_keeps_order(a: Binary32, b: Binary32)
    requires
        a.bits <= b.bits,
    ensures
        a.nearest_integer() <= b.nearest_integer(),
{
    if a.bits < b.bits {
        lemma_units_increase(a.bits as int, b.bits as int);
    }
    lemma_pow2_pos(150);
    vstd::arithmetic::div_mod::lemma_div_is_ordered(
        2 * Binary32::units(a.bits as int) + pow2(149),
        2 * Binary32::units(b.bits as int) + pow2(149),
        pow2(150) as int,
    );
}

proof fn lemma_units_not_negative(n: int)
    requires
        n >= 0,
    ensures
        Binary32::units(n) >= 0,
{
    lemma_units_step(n);
}

} // verus!
