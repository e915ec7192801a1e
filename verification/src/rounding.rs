//! The magnitudes that a binary32 number can have, and rounding to them.
//!
//! A non-negative binary32 number is named here by its *code*: its bit pattern
//! read as an integer, from 0 for zero up to `INFINITY` for infinity. Magnitudes
//! are counted in units of 2^-149, the smallest positive one, so that every
//! finite magnitude is an integer.
use vstd::arithmetic::power2::*;
use vstd::prelude::*;

verus! {

/// The weight of the implicit leading significand bit, 2^23.
pub const LEADING: u32 = 0x0080_0000;

/// The code of infinity, one past the code of the largest finite number.
pub const INFINITY: u32 = 0x7F80_0000;

/// The magnitude of the number with the given code, in units of 2^-149.
///
/// Infinity takes the magnitude of the next power of two, which is what
/// decides when a result overflows.
pub open spec fn magnitude(code: int) -> int {
    let exponent = code / LEADING as int;
    let fraction = code % LEADING as int;
    if exponent == 0 {
        fraction
    } else {
        (LEADING + fraction) * pow2((exponent - 1) as nat)
    }
}

/// Whether `num / den` rounds to the number with the given code: to the nearest
/// one, and to the one with an even code where it lies halfway between two.
pub open spec fn rounds_to(code: int, num: int, den: int) -> bool {
    &&& 0 <= code <= INFINITY
    &&& code > 0 ==> {
        let low = (magnitude(code - 1) + magnitude(code)) * den;
        low < 2 * num || low == 2 * num && code % 2 == 0
    }
    &&& code < INFINITY ==> {
        let high = (magnitude(code) + magnitude(code + 1)) * den;
        2 * num < high || 2 * num == high && code % 2 == 0
    }
}

/// The code that `num / den` rounds to.
pub open spec fn rounded(num: int, den: int) -> int {
    choose|code: int| rounds_to(code, num, den)
}

/// Scaling a significand by a power of two adds to its code.
pub proof fn lemma_magnitude_of_significand(significand: int, shift: nat)
    requires
        0 <= significand <= 2 * LEADING,
        shift == 0 || LEADING <= significand,
    ensures
        magnitude(shift * LEADING + significand) == significand * pow2(shift),
{
    let code = shift * LEADING + significand;
    if significand < LEADING {
        assert(code / LEADING as int == 0 && code % LEADING as int == significand);
        lemma2_to64();
    } else if significand < 2 * LEADING {
        assert(code / LEADING as int == shift + 1);
        assert(code % LEADING as int == significand - LEADING);
    } else {
        assert(code / LEADING as int == shift + 2);
        assert(code % LEADING as int == 0);
        lemma_pow2_unfold((shift + 1) as nat);
        assert(LEADING * (2 * pow2(shift)) == (2 * LEADING) * pow2(shift)) by (nonlinear_arith);
    }
}

/// The next code has the next greater magnitude.
pub proof fn lemma_magnitude_next(code: int)
    requires
        0 <= code,
    ensures
        0 <= magnitude(code) < magnitude(code + 1),
{
    let exponent = code / LEADING as int;
    let fraction = code % LEADING as int;
    let shift = if exponent == 0 { 0 } else { (exponent - 1) as nat };
    let significand = code - shift * LEADING;
    assert(exponent > 0 ==> significand == fraction + LEADING);
    lemma_magnitude_of_significand(significand, shift);
    lemma_magnitude_of_significand(significand + 1, shift);
    lemma_pow2_pos(shift);
    assert(0 <= significand * pow2(shift) < (significand + 1) * pow2(shift)) by (nonlinear_arith)
        requires
            0 <= significand,
            pow2(shift) > 0,
    ;
}

/// A greater code means a greater magnitude.
pub proof fn lemma_magnitude_increases(low: int, high: int)
    requires
        0 <= low < high,
    ensures
        0 <= magnitude(low) < magnitude(high),
    decreases high - low,
{
    lemma_magnitude_next(low);
    if low + 1 < high {
        lemma_magnitude_increases(low + 1, high);
    }
}

/// No quotient rounds to two codes.
pub proof fn lemma_rounds_to_one(code: int, num: int, den: int)
    requires
        rounds_to(code, num, den),
        den > 0,
    ensures
        rounded(num, den) == code,
{
    let other = rounded(num, den);
    assert(rounds_to(other, num, den));
    lemma_rounds_to_ordered(code, other, num, den);
    lemma_rounds_to_ordered(other, code, num, den);
}

proof fn lemma_rounds_to_ordered(low: int, high: int, num: int, den: int)
    requires
        rounds_to(low, num, den),
        rounds_to(high, num, den),
        den > 0,
    ensures
        high <= low,
{
    if low + 1 < high {
        lemma_magnitude_increases(low, high - 1);
        lemma_magnitude_increases(low + 1, high);
        let a = magnitude(low) + magnitude(low + 1);
        let b = magnitude(high - 1) + magnitude(high);
        assert(a * den < b * den) by (nonlinear_arith)
            requires
                a < b,
                den > 0,
        ;
    }
}

/// Every quotient rounds to a code, and `rounded` is that code.
pub proof fn law_rounding_total(num: int, den: int)
    requires
        num >= 0,
        den > 0,
    ensures
        rounds_to(rounded(num, den), num, den),
{
    lemma_rounds_from(0, num, den);
}

/// A quotient not below the halfway point under a code rounds to some code.
proof fn lemma_rounds_from(code: int, num: int, den: int)
    requires
        num >= 0,
        den > 0,
        0 <= code <= INFINITY,
        code > 0 ==> (magnitude(code - 1) + magnitude(code)) * den <= 2 * num,
    ensures
        exists|c: int| rounds_to(c, num, den),
    decreases INFINITY - code,
{
    let high = (magnitude(code) + magnitude(code + 1)) * den;
    lemma_magnitude_next(code);
    if code > 0 {
        lemma_magnitude_next(code - 1);
        let (a, b) = (magnitude(code - 1) + magnitude(code), magnitude(code) + magnitude(code + 1));
        assert(a * den < b * den) by (nonlinear_arith)
            requires
                a < b,
                den > 0,
        ;
    }
    if code == INFINITY {
        assert(rounds_to(code, num, den));
    } else if 2 * num > high || 2 * num == high && code % 2 == 1 {
        lemma_rounds_from(code + 1, num, den);
    } else if code > 0 && (magnitude(code - 1) + magnitude(code)) * den == 2 * num && code % 2
        == 1 {
        if code > 1 {
            lemma_magnitude_next(code - 2);
            let (a, b) = (
                magnitude(code - 2) + magnitude(code - 1),
                magnitude(code - 1) + magnitude(code),
            );
            assert(a * den < b * den) by (nonlinear_arith)
                requires
                    a < b,
                    den > 0,
            ;
        }
        assert(rounds_to(code - 1, num, den));
    } else {
        assert(rounds_to(code, num, den));
    }
}

/// A quotient that is itself a magnitude rounds to its code.
pub proof fn lemma_rounded_exact(code: int, den: int)
    requires
        0 <= code <= INFINITY,
        den > 0,
    ensures
        rounds_to(code, magnitude(code) * den, den),
        rounded(magnitude(code) * den, den) == code,
{
    let m = magnitude(code);
    lemma_magnitude_next(code);
    let above = magnitude(code + 1);
    assert(2 * (m * den) < (m + above) * den) by (nonlinear_arith)
        requires
            m < above,
            den > 0,
    ;
    if code > 0 {
        lemma_magnitude_next(code - 1);
        let below = magnitude(code - 1);
        assert((below + m) * den < 2 * (m * den)) by (nonlinear_arith)
            requires
                below < m,
                den > 0,
        ;
    }
    lemma_rounds_to_one(code, m * den, den);
}

/// A quotient of at most a magnitude rounds to at most its code.
pub proof fn lemma_rounded_at_most(bound: int, num: int, den: int)
    requires
        0 <= bound <= INFINITY,
        0 <= num <= magnitude(bound) * den,
        den > 0,
    ensures
        0 <= rounded(num, den) <= bound,
{
    law_rounding_total(num, den);
    let code = rounded(num, den);
    if code > bound {
        let (top, below, m) = (magnitude(bound), magnitude(code - 1), magnitude(code));
        if code - 1 > bound {
            lemma_magnitude_increases(bound, code - 1);
        }
        lemma_magnitude_increases(bound, code);
        assert((below + m) * den > 2 * (top * den)) by (nonlinear_arith)
            requires
                below >= top,
                m > top,
                den > 0,
        ;
    }
}

/// A quotient `value * scale / den` with `value == significand * step + rest` rounds
/// to the significand or the next one, by the half of `step` that `rest` lies in.
pub proof fn lemma_rounds_significand(
    value: int,
    scale: int,
    den: int,
    shift: nat,
    step: int,
    significand: int,
    rest: int,
)
    requires
        scale > 0,
        den > 0,
        step > 0,
        step * scale == pow2(shift) * den,
        value == significand * step + rest,
        0 <= rest < step,
        0 <= significand < 2 * LEADING,
        shift == 0 || LEADING <= significand,
        shift <= 253,
    ensures
        ({
            let up = 2 * rest > step || 2 * rest == step && significand % 2 == 1;
            rounds_to(
                shift * LEADING + significand + if up { 1int } else { 0 },
                value * scale,
                den,
            )
        }),
{
    let unit = pow2(shift);
    let low = shift * LEADING + significand;
    let num = value * scale;
    lemma_magnitude_of_significand(significand, shift);
    lemma_magnitude_of_significand(significand + 1, shift);
    assert(2 * num == 2 * significand * (unit * den) + 2 * (rest * scale)) by (nonlinear_arith)
        requires
            num == value * scale,
            value == significand * step + rest,
            step * scale == unit * den,
    ;
    assert((significand * unit + (significand + 1) * unit) * den == 2 * significand * (unit * den)
        + unit * den) by (nonlinear_arith);
    if 2 * rest > step || 2 * rest == step && significand % 2 == 1 {
        let code = low + 1;
        assert(2 * (rest * scale) >= step * scale) by (nonlinear_arith)
            requires
                2 * rest >= step,
                scale > 0,
        ;
        assert(2 * rest > step ==> 2 * (rest * scale) > step * scale) by (nonlinear_arith)
            requires
                scale > 0,
        ;
        lemma_magnitude_next(code);
        let above = magnitude(code + 1);
        let m = magnitude(code);
        assert(2 * num < (m + above) * den) by (nonlinear_arith)
            requires
                2 * num == 2 * significand * (unit * den) + 2 * (rest * scale),
                m == (significand + 1) * unit,
                m < above,
                rest < step,
                scale > 0,
                den > 0,
                step * scale == unit * den,
        {
            assert(rest * scale < step * scale);
            assert(2 * m * den == 2 * significand * (unit * den) + 2 * (unit * den));
            assert(2 * m * den < (m + above) * den);
        }
    } else {
        assert(2 * (rest * scale) <= step * scale) by (nonlinear_arith)
            requires
                2 * rest <= step,
                scale > 0,
        ;
        assert(2 * rest < step ==> 2 * (rest * scale) < step * scale) by (nonlinear_arith)
            requires
                scale > 0,
        ;
        if low > 0 {
            lemma_magnitude_next(low - 1);
            let below = magnitude(low - 1);
            let m = magnitude(low);
            assert((below + m) * den < 2 * num) by (nonlinear_arith)
                requires
                    2 * num == 2 * significand * (unit * den) + 2 * (rest * scale),
                    m == significand * unit,
                    below < m,
                    0 <= rest,
                    scale > 0,
                    den > 0,
            {
                assert(rest * scale >= 0);
                assert(2 * m * den == 2 * significand * (unit * den));
                assert((below + m) * den < 2 * m * den);
            }
        }
    }
}

/// Rounding depends on the quotient alone.
pub proof fn lemma_rounds_scaled(code: int, num: int, den: int, factor: int)
    requires
        rounds_to(code, num, den),
        factor > 0,
    ensures
        rounds_to(code, num * factor, den * factor),
{
    let below = magnitude(code - 1) + magnitude(code);
    let above = magnitude(code) + magnitude(code + 1);
    assert(forall|a: int, b: int| #![trigger a * factor, b * factor] a < b ==> a * factor < b * factor)
        by (nonlinear_arith)
        requires
            factor > 0,
    ;
    let low = below * den;
    let high = above * den;
    assert(low * factor == below * (den * factor)) by (nonlinear_arith)
        requires
            low == below * den,
    ;
    assert(high * factor == above * (den * factor)) by (nonlinear_arith)
        requires
            high == above * den,
    ;
    let twice = 2 * num;
    assert(twice * factor == 2 * (num * factor)) by (nonlinear_arith)
        requires
            twice == 2 * num,
    ;
}

/// Adding or taking away less than a quarter of a number's last place does not
/// change what it rounds to.
pub proof fn lemma_rounds_absorbed(significand: int, shift: nat, change: int)
    requires
        LEADING <= significand < 2 * LEADING,
        1 <= shift <= 253,
        -pow2(shift) < 4 * change < pow2(shift),
    ensures
        rounds_to(shift * LEADING + significand, significand * pow2(shift) + change, 1),
{
    let code = shift * LEADING + significand;
    let unit = pow2(shift);
    lemma_magnitude_of_significand(significand, shift);
    lemma_magnitude_of_significand(significand + 1, shift);
    assert((significand + 1) * unit == significand * unit + unit) by (nonlinear_arith);
    if significand > LEADING {
        lemma_magnitude_of_significand(significand - 1, shift);
        assert((significand - 1) * unit == significand * unit - unit) by (nonlinear_arith);
    } else {
        let half = pow2((shift - 1) as nat);
        lemma_pow2_unfold(shift);
        lemma_magnitude_of_significand(2 * LEADING - 1, (shift - 1) as nat);
        assert((shift - 1) * LEADING + (2 * LEADING - 1) == code - 1);
        assert((2 * LEADING - 1) * half == significand * unit - half) by (nonlinear_arith)
            requires
                significand == LEADING,
                unit == 2 * half,
        ;
    }
}

/// A quotient of at least the magnitude of infinity rounds to infinity.
pub proof fn lemma_rounds_to_infinity(num: int, den: int)
    requires
        den > 0,
        num >= pow2(277) * den,
    ensures
        rounds_to(INFINITY as int, num, den),
{
    lemma_magnitude_of_significand(2 * LEADING as int, 253);
    lemma_pow2_adds(253, 24);
    lemma2_to64();
    let top = magnitude(INFINITY as int);
    assert(top == pow2(277)) by {
        assert(2 * LEADING == pow2(24));
        assert(pow2(24) * pow2(253) == pow2(253) * pow2(24)) by (nonlinear_arith);
    }
    lemma_magnitude_next(INFINITY - 1);
    let below = magnitude(INFINITY - 1);
    assert((below + top) * den < 2 * num) by (nonlinear_arith)
        requires
            below < top,
            den > 0,
            num >= top * den,
    ;
}

/// The code that a quotient rounds to is nearest: no finite magnitude lies closer.
pub proof fn law_rounded_nearest(code: int, num: int, den: int, other: int)
    requires
        rounds_to(code, num, den),
        den > 0,
        0 <= other < INFINITY,
        code < INFINITY,
    ensures
        vstd::math::abs(num - magnitude(code) * den) <= vstd::math::abs(
            num - magnitude(other) * den,
        ),
{
    let m = magnitude(code);
    let o = magnitude(other);
    if other > code {
        if other > code + 1 {
            lemma_magnitude_increases(code + 1, other);
        }
        lemma_magnitude_next(code);
        let above = magnitude(code + 1);
        assert((m + above) * den <= (m + o) * den && m * den <= o * den) by (nonlinear_arith)
            requires
                m < above <= o,
                den > 0,
        ;
        assert((m + o) * den == m * den + o * den) by (nonlinear_arith);
    } else if other < code {
        if other < code - 1 {
            lemma_magnitude_increases(other, code - 1);
        }
        lemma_magnitude_next(code - 1);
        let below = magnitude(code - 1);
        assert((o + m) * den <= (below + m) * den && o * den <= m * den) by (nonlinear_arith)
            requires
                o <= below < m,
                den > 0,
        ;
        assert((o + m) * den == m * den + o * den) by (nonlinear_arith);
    }
}

/// What `value * 2^exponent` is multiplied by, where the exponent is not negative.
pub open spec fn raised(exponent: int) -> int {
    if exponent >= 0 {
        pow2(exponent as nat) as int
    } else {
        1
    }
}

/// The position of the highest set bit.
fn highest_bit(value: u64) -> (top: u32)
    requires
        value > 0,
    ensures
        top < 64,
        pow2(top as nat) <= value < pow2((top + 1) as nat),
{
    let mut top: u32 = 0;
    let mut rest: u64 = value;
    proof {
        lemma2_to64();
    }
    while rest > 1
        invariant
            rest > 0,
            top < 64,
            value <= u64::MAX,
            rest * pow2(top as nat) <= value < (rest + 1) * pow2(top as nat),
        decreases rest,
    {
        let ghost unit = pow2(top as nat);
        proof {
            lemma_pow2_unfold((top + 1) as nat);
            let half = (rest / 2) as int;
            assert(half * (2 * unit) <= rest * unit && (rest + 1) * unit <= (half + 1) * (2 * unit))
                by (nonlinear_arith)
                requires
                    half == rest / 2,
                    unit >= 0,
            ;
            if top == 63 {
                lemma2_to64_rest();
                assert(rest * unit >= 2 * unit) by (nonlinear_arith)
                    requires
                        rest >= 2,
                        unit >= 0,
                ;
                lemma_pow2_unfold(64);
            }
        }
        rest = rest / 2;
        top = top + 1;
    }
    proof {
        lemma_pow2_unfold((top + 1) as nat);
    }
    top
}

/// How far the last place of `value * 2^exponent` lies above 2^-149, where `top` is
/// the position of the highest bit of `value`.
spec fn last_place(top: u32, exponent: i32) -> int {
    if top + exponent > 23 {
        top + exponent - 23
    } else {
        0
    }
}

/// Rounds a value whose bits all lie at or above the last place: nothing is lost.
fn round_exact(value: u64, exponent: i32, top: u32, shift: u32) -> (code: u32)
    requires
        pow2(top as nat) <= value < pow2((top + 1) as nat),
        shift == last_place(top, exponent),
        shift <= exponent <= 400,
        shift <= 253,
        top < 64,
    ensures
        rounds_to(code as int, value * pow2(exponent as nat), 1),
{
    let left: u32 = exponent as u32 - shift;
    proof {
        lemma2_to64();
        lemma_pow2_adds((top + 1) as nat, left as nat);
        lemma_pow2_adds(top as nat, left as nat);
        let factor = pow2(left as nat) as int;
        lemma_pow2_pos(left as nat);
        let (low, high) = (pow2(top as nat) as int, pow2((top + 1) as nat) as int);
        assert(low * factor <= value * factor < high * factor) by (nonlinear_arith)
            requires
                low <= value < high,
                factor > 0,
        ;
        if top + 1 + left < 24 {
            lemma_pow2_strictly_increases((top + 1 + left) as nat, 24);
        }
        vstd::bits::lemma_u64_shl_is_mul(value, left as u64);
    }
    let significand: u64 = value << left;
    proof {
        lemma_pow2_adds(left as nat, shift as nat);
        let (a, b) = (pow2(left as nat) as int, pow2(shift as nat) as int);
        assert((value * a) * b == value * (a * b)) by (nonlinear_arith);
        lemma_magnitude_of_significand(significand as int, shift as nat);
        lemma_rounded_exact(shift * LEADING + significand, 1);
    }
    shift * LEADING + significand as u32
}

/// Rounds a value with bits below the last place, `right` of them.
fn round_inexact(
    value: u64,
    top: u32,
    shift: u32,
    right: u32,
    Ghost(scale): Ghost<int>,
    Ghost(den): Ghost<int>,
) -> (code: u32)
    requires
        pow2(top as nat) <= value < pow2((top + 1) as nat),
        value < 0x4000_0000_0000_0000,
        scale > 0,
        den > 0,
        pow2(right as nat) * scale == pow2(shift as nat) * den,
        shift <= 253,
        0 < right,
        top <= right + 23,
        shift > 0 ==> top == right + 23,
        top < 64,
    ensures
        rounds_to(code as int, value * scale, den),
{
    let ghost step = pow2(right as nat) as int;
    proof {
        lemma2_to64();
        lemma2_to64_rest();
        lemma_pow2_pos(right as nat);
    }
    if right >= 63 {
        proof {
            if right > 63 {
                lemma_pow2_strictly_increases(63, right as nat);
            }
            lemma_rounds_significand(value as int, scale, den, 0, step, 0, value as int);
        }
        return 0;
    }
    proof {
        vstd::bits::lemma_u64_pow2_no_overflow(right as nat);
        vstd::bits::lemma_u64_shl_is_mul(1, right as u64);
    }
    let unit: u64 = 1u64 << right;
    let significand: u64 = value / unit;
    let rest: u64 = value % unit;
    proof {
        lemma_pow2_adds(right as nat, 24);
        lemma_pow2_adds(right as nat, 23);
        if top + 1 < right + 24 {
            lemma_pow2_strictly_increases((top + 1) as nat, (right + 24) as nat);
        }
        assert(significand < 2 * LEADING) by (nonlinear_arith)
            requires
                value < unit * 0x0100_0000,
                significand == value / unit,
                unit > 0,
        ;
        if shift > 0 {
            assert(significand >= LEADING) by (nonlinear_arith)
                requires
                    value >= unit * 0x0080_0000,
                    significand == value / unit,
                    unit > 0,
            ;
        }
        vstd::arithmetic::div_mod::lemma_fundamental_div_mod(value as int, unit as int);
        assert(significand * step + rest == value) by (nonlinear_arith)
            requires
                value == unit * (value as int / unit as int) + (value as int % unit as int),
                significand == value / unit,
                rest == value % unit,
                step == unit,
        ;
        lemma_rounds_significand(
            value as int,
            scale,
            den,
            shift as nat,
            step,
            significand as int,
            rest as int,
        );
    }
    let low: u32 = shift * LEADING + significand as u32;
    if 2 * rest > unit || 2 * rest == unit && significand % 2 == 1 {
        low + 1
    } else {
        low
    }
}

/// The code that `value * 2^exponent`, counted in units of 2^-149, rounds to.
pub(crate) fn round(value: u64, exponent: i32) -> (code: u32)
    requires
        0 < value < 0x4000_0000_0000_0000,
        -400 <= exponent <= 400,
    ensures
        rounds_to(code as int, value * raised(exponent as int), raised(-exponent)),
{
    let top: u32 = highest_bit(value);
    let ghost scale = raised(exponent as int);
    let ghost den = raised(-exponent);
    proof {
        lemma2_to64();
        lemma2_to64_rest();
        if exponent >= 0 {
            lemma_pow2_pos(exponent as nat);
        } else {
            lemma_pow2_pos((-exponent) as nat);
        }
        if top > 62 {
            lemma_pow2_strictly_increases(62, top as nat);
        }
    }
    let place: i32 = top as i32 + exponent;
    if place > 276 {
        proof {
            lemma_pow2_adds(top as nat, exponent as nat);
            if place > 277 {
                lemma_pow2_strictly_increases(277, place as nat);
            }
            let floor = pow2(top as nat) as int;
            assert(value * scale >= floor * scale) by (nonlinear_arith)
                requires
                    value >= floor,
                    scale > 0,
            ;
            lemma_rounds_to_infinity(value * scale, den);
        }
        return INFINITY;
    }
    let shift: u32 = if place > 23 { (place - 23) as u32 } else { 0 };
    if exponent >= shift as i32 {
        return round_exact(value, exponent, top, shift);
    }
    let right: u32 = (shift as i32 - exponent) as u32;
    proof {
        if exponent >= 0 {
            lemma_pow2_adds(right as nat, exponent as nat);
        } else {
            lemma_pow2_adds(shift as nat, (-exponent) as nat);
        }
    }
    round_inexact(value, top, shift, right, Ghost(scale), Ghost(den))
}

/// A greater quotient does not round to a lesser code.
pub proof fn lemma_rounded_monotone(num: int, num2: int, den: int)
    requires
        0 <= num <= num2,
        den > 0,
    ensures
        0 <= rounded(num, den) <= rounded(num2, den) <= INFINITY,
{
    law_rounding_total(num, den);
    law_rounding_total(num2, den);
    let (c, d) = (rounded(num, den), rounded(num2, den));
    if c > d && num < num2 {
        let (a, b) = (magnitude(d) + magnitude(d + 1), magnitude(c - 1) + magnitude(c));
        if d + 1 < c {
            lemma_magnitude_increases(d, c - 1);
            lemma_magnitude_increases(d + 1, c);
        }
        assert(a * den <= b * den) by (nonlinear_arith)
            requires
                a <= b,
                den > 0,
        ;
    }
}

/// A quotient rounds to an even code where another magnitude is as near.
pub proof fn law_rounded_tie(code: int, num: int, den: int, other: int)
    requires
        rounds_to(code, num, den),
        den > 0,
        0 <= other < INFINITY,
        code < INFINITY,
        other != code,
        vstd::math::abs(num - magnitude(code) * den) == vstd::math::abs(
            num - magnitude(other) * den,
        ),
    ensures
        code % 2 == 0,
{
    let (m, o) = (magnitude(code), magnitude(other));
    assert((m + o) * den == m * den + o * den) by (nonlinear_arith);
    if other > code {
        lemma_magnitude_increases(code, other);
        if other > code + 1 {
            lemma_magnitude_increases(code + 1, other);
        }
        let above = magnitude(code + 1);
        assert(m * den < o * den && (m + above) * den <= (m + o) * den) by (nonlinear_arith)
            requires
                m < o,
                above <= o,
                den > 0,
        ;
        assert(other > code + 1 ==> (m + above) * den < (m + o) * den) by (nonlinear_arith)
            requires
                other > code + 1 ==> above < o,
                den > 0,
        ;
    } else {
        lemma_magnitude_increases(other, code);
        if other < code - 1 {
            lemma_magnitude_increases(other, code - 1);
        }
        let below = magnitude(code - 1);
        assert(o * den < m * den && (o + m) * den <= (below + m) * den) by (nonlinear_arith)
            requires
                o < m,
                o <= below,
                den > 0,
        ;
    }
}

/// A quotient rounds to infinity from halfway between the greatest finite magnitude and
/// the next power of two on.
pub proof fn law_rounded_overflow(num: int, den: int)
    requires
        num >= 0,
        den > 0,
    ensures
        rounded(num, den) == INFINITY <==> 2 * num >= (pow2(25) - 1) * pow2(253) * den,
{
    law_rounding_total(num, den);
    let code = rounded(num, den);
    let top = INFINITY as int;
    let unit = pow2(253) as int;
    lemma_magnitude_of_significand(2 * LEADING as int, 253);
    lemma_magnitude_of_significand(2 * LEADING - 1, 253);
    lemma2_to64();
    let half = (magnitude(top - 1) + magnitude(top)) * den;
    assert(half == (pow2(25) - 1) * unit * den) by (nonlinear_arith)
        requires
            half == ((2 * LEADING - 1) * unit + (2 * LEADING) * unit) * den,
            pow2(25) == 4 * LEADING,
    ;
    if code < top {
        let high = (magnitude(code) + magnitude(code + 1)) * den;
        if code + 1 < top {
            lemma_magnitude_increases(code, top - 1);
            lemma_magnitude_increases(code + 1, top);
            let (a, b) = (magnitude(code) + magnitude(code + 1), magnitude(top - 1) + magnitude(top));
            assert(a * den < b * den) by (nonlinear_arith)
                requires
                    a < b,
                    den > 0,
            ;
        }
    }
}

} // verus!
