//! Rounding to single precision.
//!
//! A ratio is known by its leading bits. They are shifted out one by one, until
//! the significand has its final width and the last bit that was shifted out
//! decides.

use vstd::arithmetic::power2::*;
use vstd::prelude::*;

use crate::binary32;
use crate::binary32::{Binary32, INFINITY_BITS};

verus! {

/// `2^256`, by which exponents are shifted to stay above zero.
spec fn shift() -> int {
    pow2(256) as int
}

/// What a partly shifted significand says of the ratio: `num / den` units lie
/// from `m` and a half, if `half` is set, up to the next half, at the exponent
/// `x`. They lie above the lower end exactly if `rest` is set.
spec fn holds(num: int, den: int, m: int, half: bool, rest: bool, x: int) -> bool {
    let step: int = pow2((x + 256) as nat) * den;
    let halves: int = 2 * m + if half { 1int } else { 0int };
    &&& halves * step <= 2 * num * shift() < (halves + 1) * step
    &&& rest <==> halves * step != 2 * num * shift()
}

/// Shifting the significand right by one place.
proof fn lemma_holds_shifted(num: int, den: int, m: int, half: bool, rest: bool, x: int)
    requires
        den > 0,
        m >= 0,
        x >= -256,
        holds(num, den, m, half, rest, x),
    ensures
        holds(num, den, m / 2, m % 2 == 1, rest || half, x + 1),
{
    let step: int = pow2((x + 256) as nat) * den;
    let next: int = pow2((x + 257) as nat) * den;
    lemma_pow2_pos((x + 256) as nat);
    lemma_pow2_unfold((x + 257) as nat);
    assert(next == 2 * step && step > 0) by (nonlinear_arith)
        requires
            step == pow2((x + 256) as nat) * den,
            next == pow2((x + 257) as nat) * den,
            pow2((x + 257) as nat) == 2 * pow2((x + 256) as nat),
            pow2((x + 256) as nat) > 0,
            den > 0,
    ;
    let bit: int = if half { 1 } else { 0 };
    let halves: int = 2 * (m / 2) + (m % 2);
    assert(halves == m);
    assert(m * next == (2 * m) * step) by (nonlinear_arith)
        requires
            next == 2 * step,
    ;
    assert((m + 1) * next == (2 * m + 2) * step) by (nonlinear_arith)
        requires
            next == 2 * step,
    ;
    assert((2 * m + bit) * step == (2 * m) * step + bit * step) by (nonlinear_arith);
    assert((2 * m + bit + 1) * step <= (2 * m + 2) * step) by (nonlinear_arith)
        requires
            bit <= 1,
            step > 0,
    ;
}

/// With a full significand, or at the lowest exponent, the half bit and the
/// rest decide the rounding.
proof fn lemma_holds_decides(num: int, den: int, m: int, half: bool, rest: bool, x: int)
    requires
        num >= 0,
        den > 0,
        x >= 0,
        0 <= m < 0x100_0000,
        x == 0 || m >= 0x80_0000,
        holds(num, den, m, half, rest, x),
    ensures
        ({
            let n: int = x * 0x80_0000 + m;
            let up: int = if half && (rest || m % 2 == 1) { n + 1 } else { n };
            Binary32::rounded(num, den) == if up < INFINITY_BITS { up } else { INFINITY_BITS as int }
        }),
{
    let p: int = pow2(x as nat) as int;
    let step: int = pow2((x + 256) as nat) * den;
    let s: int = shift();
    lemma_pow2_adds(x as nat, 256);
    lemma_pow2_pos(x as nat);
    lemma_pow2_pos(256);
    let bit: int = if half { 1 } else { 0 };
    let halves: int = 2 * m + bit;
    let unit: int = p * den;
    assert(step == unit * s && unit > 0) by (nonlinear_arith)
        requires
            step == (p * s) * den,
            unit == p * den,
            p > 0,
            den > 0,
    ;
    assert((halves * unit) * s == halves * step) by (nonlinear_arith)
        requires
            step == unit * s,
    ;
    assert(((halves + 1) * unit) * s == (halves + 1) * step) by (nonlinear_arith)
        requires
            step == unit * s,
    ;
    assert(halves * unit <= 2 * num) by (nonlinear_arith)
        requires
            (halves * unit) * s <= 2 * num * s,
            s > 0,
    ;
    assert(2 * num < (halves + 1) * unit) by (nonlinear_arith)
        requires
            2 * num * s < ((halves + 1) * unit) * s,
            s > 0,
    ;
    assert(rest <==> halves * unit != 2 * num) by (nonlinear_arith)
        requires
            rest <==> (halves * unit) * s != 2 * num * s,
            s > 0,
    ;
    let n: int = x * 0x80_0000 + m;
    binary32::lemma_units_of_parts(x, m);
    binary32::lemma_units_of_parts(x, m + 1);
    let here: int = Binary32::units(n);
    let next: int = Binary32::units(n + 1);
    assert(2 * (here * den) == (2 * m) * unit) by (nonlinear_arith)
        requires
            here == m * p,
            unit == p * den,
    ;
    assert((here + next) * den == (2 * m + 1) * unit) by (nonlinear_arith)
        requires
            here == m * p,
            next == (m + 1) * p,
            unit == p * den,
    ;
    assert(2 * (next * den) == (2 * m + 2) * unit) by (nonlinear_arith)
        requires
            next == (m + 1) * p,
            unit == p * den,
    ;
    assert((2 * m + bit) * unit == (2 * m) * unit + bit * unit) by (nonlinear_arith);
    assert((2 * m + bit + 1) * unit == (2 * m) * unit + bit * unit + unit) by (nonlinear_arith);
    binary32::lemma_rounded(num, den);
    binary32::lemma_units_step(n);
    binary32::lemma_units_step(n + 1);
    let after: int = Binary32::units(n + 2);
    assert(2 * (next * den) < (next + after) * den) by (nonlinear_arith)
        requires
            next < after,
            den > 0,
    ;
    if n > 0 {
        binary32::lemma_units_step(n - 1);
        let before: int = Binary32::units(n - 1);
        assert((before + here) * den < 2 * (here * den)) by (nonlinear_arith)
            requires
                before < here,
                den > 0,
        ;
    }
    let up: int = if half && (rest || m % 2 == 1) { n + 1 } else { n };
    if up < INFINITY_BITS {
        assert(Binary32::is_nearest(num, den, up));
    } else {
        let last: int = INFINITY_BITS as int;
        if n >= INFINITY_BITS {
            // The ratio is at least as large as the step after the largest number.
            binary32::lemma_units_step(last - 1);
            if n > INFINITY_BITS {
                binary32::lemma_units_increase(last, n);
            }
            let top: int = Binary32::units(last);
            let below: int = Binary32::units(last - 1);
            assert((below + top) * den < 2 * (here * den)) by (nonlinear_arith)
                requires
                    below < top,
                    top <= here,
                    den > 0,
            ;
        }
        assert(Binary32::is_nearest(num, den, last));
    }
}

/// What the leading bits say of the ratio: `num / den` units lie from
/// `significand` up to the next integer, at the exponent `x`, and are the lower
/// end exactly if `inexact` is not set.
pub(crate) closed spec fn leads(num: int, den: int, significand: int, inexact: bool, x: int) -> bool {
    let step: int = pow2((x + 256) as nat) * den;
    &&& significand * step <= num * shift() < (significand + 1) * step
    &&& inexact <==> significand * step != num * shift()
}

/// The lowest of the leading bits is the first half bit.
proof fn lemma_leads_holds(num: int, den: int, significand: int, inexact: bool, x: int)
    requires
        den > 0,
        significand >= 0,
        x >= -256,
        leads(num, den, significand, inexact, x),
    ensures
        holds(num, den, significand / 2, significand % 2 == 1, inexact, x + 1),
{
    let step: int = pow2((x + 256) as nat) * den;
    let next: int = pow2((x + 257) as nat) * den;
    lemma_pow2_unfold((x + 257) as nat);
    assert(next == 2 * step) by (nonlinear_arith)
        requires
            step == pow2((x + 256) as nat) * den,
            next == pow2((x + 257) as nat) * den,
            pow2((x + 257) as nat) == 2 * pow2((x + 256) as nat),
    ;
    assert(significand == 2 * (significand / 2) + significand % 2);
    assert(significand * next == 2 * (significand * step)) by (nonlinear_arith)
        requires
            next == 2 * step,
    ;
    assert((significand + 1) * next == 2 * ((significand + 1) * step)) by (nonlinear_arith)
        requires
            next == 2 * step,
    ;
    assert(2 * num * shift() == 2 * (num * shift())) by (nonlinear_arith);
}

/// The leading bits of a product.
pub(crate) proof fn lemma_product_leads(a: int, ea: int, b: int, eb: int)
    requires
        0 < a < 0x100_0000,
        0 < b < 0x100_0000,
        0 <= ea <= 253,
        0 <= eb <= 253,
    ensures
        0 < a * b < 0x1_0000_0000_0000,
        (a * pow2(ea as nat)) * (b * pow2(eb as nat)) >= 0,
        leads(
            (a * pow2(ea as nat)) * (b * pow2(eb as nat)),
            pow2(149) as int,
            (a * b) * 0x1_0000_0000_0000_0000,
            false,
            ea + eb - 213,
        ),
{
    let pa: int = pow2(ea as nat) as int;
    let pb: int = pow2(eb as nat) as int;
    let p64: int = pow2(64) as int;
    let s: int = shift();
    let num: int = (a * pa) * (b * pb);
    let step: int = pow2((ea + eb + 43) as nat) * (pow2(149) as int);
    let significand: int = (a * b) * p64;
    lemma2_to64_rest();
    lemma_pow2_pos(ea as nat);
    lemma_pow2_pos(eb as nat);
    lemma_pow2_pos(256);
    // The powers of two on both sides add up to the same exponent.
    lemma_pow2_adds((ea + eb + 43) as nat, 149);
    lemma_pow2_adds((ea + eb + 192) as nat, 64);
    lemma_pow2_pos((ea + eb + 192) as nat);
    lemma_pow2_adds((ea + eb) as nat, 256);
    lemma_pow2_adds(ea as nat, eb as nat);
    assert(p64 * step == (pa * pb) * s) by (nonlinear_arith)
        requires
            pow2((ea + eb + 256) as nat) == pow2((ea + eb + 192) as nat) * p64,
            pow2((ea + eb + 256) as nat) == (pa * pb) * s,
            step == pow2((ea + eb + 192) as nat),
    ;
    assert(0 < a * b < 0x1_0000_0000_0000) by (nonlinear_arith)
        requires
            0 < a < 0x100_0000,
            0 < b < 0x100_0000,
    ;
    assert(num >= 0) by (nonlinear_arith)
        requires
            num == (a * pa) * (b * pb),
            a > 0,
            b > 0,
            pa > 0,
            pb > 0,
    ;
    assert(significand * step == (a * b) * (p64 * step)) by (nonlinear_arith)
        requires
            significand == (a * b) * p64,
    ;
    assert(num * s == (a * b) * ((pa * pb) * s)) by (nonlinear_arith)
        requires
            num == (a * pa) * (b * pb),
    ;
    assert((significand + 1) * step == significand * step + step) by (nonlinear_arith);
}

/// The leading bits of a quotient.
pub(crate) proof fn lemma_quotient_leads(a: int, ea: int, b: int, eb: int)
    requires
        0 < a < 0x100_0000,
        0 < b < 0x100_0000,
        0 <= ea <= 253,
        0 <= eb <= 253,
    ensures
        ({
            let dividend: int = a * 0x1_0000_0000_0000_0000;
            let num: int = (a * pow2(ea as nat)) * pow2(149);
            let den: int = b * pow2(eb as nat);
            &&& dividend / b >= 0x200_0000
            &&& num >= 0
            &&& den > 0
            &&& leads(num, den, dividend / b, dividend % b != 0, ea - eb + 85)
        }),
{
    let dividend: int = a * 0x1_0000_0000_0000_0000;
    let q: int = dividend / b;
    let r: int = dividend % b;
    let pa: int = pow2(ea as nat) as int;
    let pb: int = pow2(eb as nat) as int;
    let p64: int = pow2(64) as int;
    let p149: int = pow2(149) as int;
    let s: int = shift();
    let num: int = (a * pa) * p149;
    let den: int = b * pb;
    let e: int = ea - eb + 341;
    let p: int = pow2(e as nat) as int;
    let step: int = p * den;
    lemma2_to64_rest();
    lemma_pow2_pos(ea as nat);
    lemma_pow2_pos(eb as nat);
    lemma_pow2_pos(149);
    lemma_pow2_pos(256);
    lemma_pow2_pos(e as nat);
    // The powers of two on both sides add up to the same exponent.
    lemma_pow2_adds(e as nat, eb as nat);
    lemma_pow2_adds((e + eb) as nat, 64);
    lemma_pow2_adds(ea as nat, 149);
    lemma_pow2_adds((ea + 149) as nat, 256);
    assert((p * pb) * p64 == (pa * p149) * s);
    assert(q * b + r == dividend && 0 <= r < b) by (nonlinear_arith)
        requires
            q == dividend / b,
            r == dividend % b,
            b > 0,
    ;
    assert(q >= 0x200_0000) by (nonlinear_arith)
        requires
            q * b + r == a * 0x1_0000_0000_0000_0000,
            0 <= r < b,
            0 < a,
            0 < b < 0x100_0000,
    ;
    assert(den > 0 && num >= 0) by (nonlinear_arith)
        requires
            den == b * pb,
            num == (a * pa) * p149,
            a > 0,
            b > 0,
            pa > 0,
            pb > 0,
            p149 > 0,
    ;
    let t: int = p * pb;
    assert(step == b * t && t > 0) by (nonlinear_arith)
        requires
            step == p * (b * pb),
            t == p * pb,
            p > 0,
            pb > 0,
    ;
    assert(num * s == (q * b + r) * t) by (nonlinear_arith)
        requires
            num == (a * pa) * p149,
            t * p64 == (pa * p149) * s,
            q * b + r == a * p64,
    ;
    assert(q * step == (q * b) * t) by (nonlinear_arith)
        requires
            step == b * t,
    ;
    assert((q * b + r) * t == (q * b) * t + r * t) by (nonlinear_arith);
    assert((q + 1) * step == (q * b) * t + b * t) by (nonlinear_arith)
        requires
            step == b * t,
    ;
    assert(0 <= r * t < b * t && (r == 0 <==> r * t == 0)) by (nonlinear_arith)
        requires
            0 <= r < b,
            t > 0,
    ;
}

/// Rounds `num / den` units, given by their leading bits.
pub(crate) fn round_leading(
    significand: u128,
    inexact: bool,
    exponent: i32,
    Ghost(num): Ghost<int>,
    Ghost(den): Ghost<int>,
) -> (result: Binary32)
    requires
        num >= 0,
        den > 0,
        -256 < exponent <= 1000,
        significand >= 0x200_0000,
        leads(num, den, significand as int, inexact, exponent as int),
    ensures
        result.bits == Binary32::rounded(num, den),
{
    let mut m: u128 = significand / 2;
    let mut half: bool = significand % 2 == 1;
    let mut rest: bool = inexact;
    let mut x: i32 = exponent + 1;
    proof {
        lemma_leads_holds(num, den, significand as int, inexact, exponent as int);
        lemma_pow2_adds(64, 64);
        lemma2_to64_rest();
        lemma_pow2_unfold(128);
    }
    while m >= 0x100_0000 || x < 0
        invariant
            den > 0,
            -256 < exponent < x,
            exponent <= 1000,
            x <= 1105,
            x - exponent <= 128 ==> m < pow2((128 - (x - exponent)) as nat),
            x - exponent > 128 ==> m == 0,
            holds(num, den, m as int, half, rest, x as int),
            m >= 0x80_0000 || x <= 0,
        decreases m, -x,
    {
        proof {
            lemma_holds_shifted(num, den, m as int, half, rest, x as int);
            let width: int = 128 - (x - exponent);
            lemma2_to64();
            if width > 0 {
                lemma_pow2_unfold(width as nat);
            }
            if 0 <= width < 24 {
                lemma_pow2_strictly_increases(width as nat, 24);
            }
        }
        rest = rest || half;
        half = m % 2 == 1;
        m = m / 2;
        x = x + 1;
    }
    proof {
        lemma_holds_decides(num, den, m as int, half, rest, x as int);
    }
    if x >= 254 {
        return Binary32 { bits: INFINITY_BITS };
    }
    let n: u32 = x as u32 * 0x80_0000 + m as u32;
    let up: u32 = if half && (rest || m % 2 == 1) { n + 1 } else { n };
    Binary32 { bits: up }
}

} // verus!
