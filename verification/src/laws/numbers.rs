//! What holds of single precision numbers and sizes.
//!
//! The laws speak of what the functions return. They have their own model of
//! the format, and say that a result is closer than every other number.

use vstd::arithmetic::power2::*;
use vstd::prelude::*;

use crate::binary32;
use crate::binary32::Binary32;
use crate::size::Size;

verus! {

/// What the number with the bits `n` is worth, in units of `2^-149`. The
/// numbers start as the integers do, and each run of `2^23` numbers after that
/// is twice the run before it.
pub open spec fn worth(n: int) -> int
    decreases n,
{
    if n < 0x100_0000 {
        n
    } else {
        2 * worth(n - 0x80_0000)
    }
}

/// How far apart two numbers are.
pub open spec fn distance(a: int, b: int) -> int {
    if a < b {
        b - a
    } else {
        a - b
    }
}

/// No number is closer to `num / den` units than the one with the bits `n`, and
/// where another one is as close, the last bit of `n` is clear.
pub open spec fn closest(num: int, den: int, n: int) -> bool {
    &&& 0 <= n <= 0x7f80_0000
    &&& forall|m: int|
        0 <= m <= 0x7f80_0000 ==> {
            let here: int = distance(num, worth(n) * den);
            let there: int = distance(num, #[trigger] worth(m) * den);
            here <= there && (here == there && m != n ==> n % 2 == 0)
        }
}

/// The bits are those of a finite number above zero.
pub open spec fn above_zero(number: Binary32) -> bool {
    0 < number.bits < 0x7f80_0000
}

/// The model of the numbers is the one that the operations use.
pub proof fn law_worth(n: int)
    requires
        n >= 0,
    ensures
        Binary32::units(n) == worth(n),
    decreases n,
{
    lemma2_to64();
    let exponent: int = n / 0x80_0000;
    if n < 0x80_0000 {
        assert(exponent == 0);
    } else if n < 0x100_0000 {
        assert(exponent == 1);
        assert(n % 0x80_0000 == n - 0x80_0000);
        let m: int = 0x80_0000 + n % 0x80_0000;
        assert(m * pow2(0) == m) by (nonlinear_arith)
            requires
                pow2(0) == 1,
        ;
    } else {
        law_worth(n - 0x80_0000);
        assert((n - 0x80_0000) / 0x80_0000 == exponent - 1);
        assert((n - 0x80_0000) % 0x80_0000 == n % 0x80_0000);
        lemma_pow2_unfold((exponent - 1) as nat);
        let m: int = 0x80_0000 + n % 0x80_0000;
        let p: int = pow2((exponent - 2) as nat) as int;
        assert(m * (2 * p) == 2 * (m * p)) by (nonlinear_arith);
    }
}

/// Rounding picks the closest number.
pub proof fn law_rounding(num: int, den: int, n: int)
    requires
        den > 0,
    ensures
        Binary32::is_nearest(num, den, n) <==> closest(num, den, n),
{
    if 0 <= n <= 0x7f80_0000 {
        law_worth(n);
        law_worth(n + 1);
        if n > 0 {
            law_worth(n - 1);
        }
        lemma_halves(num, den, n, n + 1);
        if n > 0 {
            lemma_halves(num, den, n - 1, n);
        }
        if Binary32::is_nearest(num, den, n) {
            assert forall|m: int| 0 <= m <= 0x7f80_0000 implies {
                let here: int = distance(num, worth(n) * den);
                let there: int = distance(num, #[trigger] worth(m) * den);
                here <= there && (here == there && m != n ==> n % 2 == 0)
            } by {
                law_worth(m);
                if m > n {
                    lemma_halves(num, den, n, m);
                    if m > n + 1 {
                        binary32::lemma_units_increase(n + 1, m);
                        lemma_middles(den, worth(n) + worth(n + 1), worth(n) + worth(m));
                    }
                } else if m < n {
                    lemma_halves(num, den, m, n);
                    if m < n - 1 {
                        binary32::lemma_units_increase(m, n - 1);
                        lemma_middles(den, worth(m) + worth(n), worth(n - 1) + worth(n));
                    }
                }
            }
        }
        if closest(num, den, n) {
            assert(worth(n + 1) * den == worth(n + 1) * den);
            assert(worth(n - 1) * den == worth(n - 1) * den);
        }
    }
}

/// Which of two numbers is closer is decided by the middle between them.
proof fn lemma_halves(num: int, den: int, a: int, b: int)
    requires
        den > 0,
        0 <= a < b,
    ensures
        distance(num, worth(a) * den) < distance(num, worth(b) * den) <==> 2 * num < (worth(a)
            + worth(b)) * den,
        distance(num, worth(a) * den) == distance(num, worth(b) * den) <==> 2 * num == (worth(a)
            + worth(b)) * den,
{
    law_worth(a);
    law_worth(b);
    binary32::lemma_units_increase(a, b);
    let (x, y): (int, int) = (worth(a), worth(b));
    assert(x * den < y * den && (x + y) * den == x * den + y * den) by (nonlinear_arith)
        requires
            x < y,
            den > 0,
    ;
}

proof fn lemma_middles(den: int, low: int, high: int)
    requires
        den > 0,
        low < high,
    ensures
        low * den < high * den,
{
    assert(low * den < high * den) by (nonlinear_arith)
        requires
            low < high,
            den > 0,
    ;
}

/// There is one closest number.
pub proof fn lemma_one_closest(num: int, den: int, a: int, b: int)
    requires
        num >= 0,
        den > 0,
        closest(num, den, a),
        closest(num, den, b),
    ensures
        a == b,
{
    law_rounding(num, den, a);
    law_rounding(num, den, b);
    binary32::lemma_rounded(num, den);
}

/// What is positive is worth something.
pub proof fn lemma_worth_positive(n: int)
    requires
        n > 0,
    ensures
        worth(n) > 0,
{
    law_worth(0);
    law_worth(n);
    binary32::lemma_units_increase(0, n);
}

/// A product is the number closest to the product of what the factors are
/// worth. With an infinite factor it is infinite.
pub proof fn law_times(a: Binary32, b: Binary32, result: Binary32)
    requires
        call_ensures(Binary32::times, (a, b), result),
        0 < a.bits <= 0x7f80_0000,
        0 < b.bits <= 0x7f80_0000,
    ensures
        above_zero(a) && above_zero(b) ==> closest(
            worth(a.bits as int) * worth(b.bits as int),
            pow2(149) as int,
            result.bits as int,
        ),
        a.bits == 0x7f80_0000 || b.bits == 0x7f80_0000 ==> result.bits == 0x7f80_0000,
{
    lemma_product(a, b);
}

pub(crate) proof fn lemma_product(a: Binary32, b: Binary32)
    requires
        0 < a.bits <= 0x7f80_0000,
        0 < b.bits <= 0x7f80_0000,
    ensures
        above_zero(a) && above_zero(b) ==> closest(
            worth(a.bits as int) * worth(b.bits as int),
            pow2(149) as int,
            a.product(b).bits as int,
        ),
        a.bits == 0x7f80_0000 || b.bits == 0x7f80_0000 ==> a.product(b).bits == 0x7f80_0000,
{
    let (x, y): (int, int) = (worth(a.bits as int), worth(b.bits as int));
    lemma_pow2_pos(149);
    law_worth(a.bits as int);
    law_worth(b.bits as int);
    lemma_worth_positive(a.bits as int);
    lemma_worth_positive(b.bits as int);
    assert(x * y >= 0) by (nonlinear_arith)
        requires
            x > 0,
            y > 0,
    ;
    binary32::lemma_rounded(x * y, pow2(149) as int);
    law_rounding(x * y, pow2(149) as int, Binary32::rounded(x * y, pow2(149) as int));
}

/// A quotient is the number closest to the quotient of what the operands are
/// worth.
pub proof fn law_over(a: Binary32, b: Binary32, result: Binary32)
    requires
        call_ensures(Binary32::over, (a, b), result),
        above_zero(a),
        above_zero(b),
    ensures
        closest(worth(a.bits as int) * pow2(149), worth(b.bits as int), result.bits as int),
{
    lemma_quotient(a, b);
}

pub(crate) proof fn lemma_quotient(a: Binary32, b: Binary32)
    requires
        above_zero(a),
        above_zero(b),
    ensures
        closest(worth(a.bits as int) * pow2(149), worth(b.bits as int), a.quotient(b).bits as int),
{
    let x: int = worth(a.bits as int);
    let num: int = x * pow2(149);
    lemma_pow2_pos(149);
    law_worth(a.bits as int);
    law_worth(b.bits as int);
    lemma_worth_positive(a.bits as int);
    lemma_worth_positive(b.bits as int);
    assert(num >= 0) by (nonlinear_arith)
        requires
            num == x * pow2(149),
            x > 0,
            pow2(149) > 0,
    ;
    binary32::lemma_rounded(num, worth(b.bits as int));
    law_rounding(num, worth(b.bits as int), Binary32::rounded(num, worth(b.bits as int)));
}

/// The integer `k` is within a half of the number with the bits `n`, where
/// halves go up.
pub open spec fn rounds_to(n: int, k: int) -> bool {
    (2 * k - 1) * pow2(149) <= 2 * worth(n) < (2 * k + 1) * pow2(149)
}

/// A number is rounded to an integer within a half of it, unless that does not
/// fit in a `u32`.
pub proof fn law_round_to_u32(number: Binary32, result: u32)
    requires
        call_ensures(Binary32::round_to_u32, (number,), result),
        above_zero(number),
    ensures
        rounds_to(number.bits as int, result as int) || (result == u32::MAX && 2 * worth(
            number.bits as int,
        ) >= (2 * u32::MAX + 1) * pow2(149)),
{
    lemma_nearest_integer(number);
    let k: int = number.nearest_integer();
    if k > u32::MAX {
        let unit: int = pow2(149) as int;
        assert((2 * u32::MAX + 1) * unit <= (2 * k - 1) * unit) by (nonlinear_arith)
            requires
                k > u32::MAX,
                unit >= 0,
        ;
    }
}

pub(crate) proof fn lemma_nearest_integer(number: Binary32)
    ensures
        rounds_to(number.bits as int, number.nearest_integer()),
        number.nearest_integer() >= 0,
{
    let unit: int = pow2(149) as int;
    let k: int = number.nearest_integer();
    let u: int = worth(number.bits as int);
    law_worth(number.bits as int);
    if number.bits > 0 {
        lemma_worth_positive(number.bits as int);
    }
    lemma_pow2_pos(149);
    lemma_pow2_unfold(150);
    vstd::arithmetic::div_mod::lemma_fundamental_div_mod(2 * u + unit, 2 * unit);
    vstd::arithmetic::div_mod::lemma_mod_bound(2 * u + unit, 2 * unit);
    assert((2 * unit) * k == (2 * k) * unit) by (nonlinear_arith);
    assert((2 * k - 1) * unit == (2 * k) * unit - unit && (2 * k + 1) * unit == (2 * k) * unit + unit)
        by (nonlinear_arith);
    assert(k >= 0) by (nonlinear_arith)
        requires
            (2 * unit) * k + (2 * u + unit) % (2 * unit) == 2 * u + unit,
            (2 * u + unit) % (2 * unit) < 2 * unit,
            u >= 0,
            unit > 0,
    ;
}

/// Only one integer is within a half of a number.
pub proof fn lemma_one_integer(n: int, a: int, b: int)
    requires
        rounds_to(n, a),
        rounds_to(n, b),
    ensures
        a == b,
{
    let unit: int = pow2(149) as int;
    lemma_pow2_pos(149);
    assert(a == b) by (nonlinear_arith)
        requires
            (2 * a - 1) * unit < (2 * b + 1) * unit,
            (2 * b - 1) * unit < (2 * a + 1) * unit,
            unit > 0,
    ;
}

/// Numbers are told apart by their bits: those of zero, the positive finite
/// numbers, infinity and what is not a number follow one another, and then come
/// the same with a sign.
pub proof fn law_classes(number: Binary32, positive: bool, finite: bool)
    requires
        call_ensures(Binary32::is_finite_above_zero, (number,), positive),
        call_ensures(Binary32::has_finite_value, (number,), finite),
    ensures
        positive == (0 < number.bits < 0x7f80_0000),
        finite == ((number.bits as int) % 0x8000_0000 < 0x7f80_0000),
{
}

/// A size has the extents that it was made of, both finite and above zero.
pub proof fn law_size(width: Binary32, height: Binary32, result: Option<Size>)
    requires
        call_ensures(Size::from_wh, (width, height), result),
    ensures
        result is Some <==> above_zero(width) && above_zero(height),
        result matches Some(size) ==> size.width == width && size.height == height,
{
}

/// Scaling a size multiplies each of its extents by the factor. There is no
/// result for a factor that is not finite and above zero, nor if an extent
/// becomes zero or infinite.
pub proof fn law_scale(size: Size, factor: Binary32, result: Option<Size>)
    requires
        call_ensures(Size::scale, (size, factor), result),
        above_zero(size.width),
        above_zero(size.height),
    ensures
        match result {
            Some(scaled) => {
                &&& above_zero(factor)
                &&& above_zero(scaled.width)
                &&& above_zero(scaled.height)
                &&& is_product(size.width, factor, scaled.width.bits as int)
                &&& is_product(size.height, factor, scaled.height.bits as int)
            },
            None => above_zero(factor) ==> leaves_range(size.width, factor) || leaves_range(
                size.height,
                factor,
            ),
        },
{
    lemma_scaled(size, factor);
}

/// The bits are those of the product of two numbers.
pub open spec fn is_product(a: Binary32, b: Binary32, n: int) -> bool {
    closest(worth(a.bits as int) * worth(b.bits as int), pow2(149) as int, n)
}

/// The product of two numbers is zero or infinite.
pub open spec fn leaves_range(a: Binary32, b: Binary32) -> bool {
    is_product(a, b, 0) || is_product(a, b, 0x7f80_0000)
}

pub(crate) proof fn lemma_scaled(size: Size, factor: Binary32)
    requires
        above_zero(size.width),
        above_zero(size.height),
    ensures
        match size.scaled(factor) {
            Some(scaled) => {
                &&& above_zero(factor)
                &&& above_zero(scaled.width)
                &&& above_zero(scaled.height)
                &&& is_product(size.width, factor, scaled.width.bits as int)
                &&& is_product(size.height, factor, scaled.height.bits as int)
            },
            None => above_zero(factor) ==> leaves_range(size.width, factor) || leaves_range(
                size.height,
                factor,
            ),
        },
{
    if 0 < factor.bits <= 0x7f80_0000 {
        lemma_product(size.width, factor);
        lemma_product(size.height, factor);
    }
}

} // verus!
