//! What the arithmetic on binary32 numbers comes to, whatever the operands.
use crate::binary32;
use crate::binary32::Binary32;
use crate::rounding;
use vstd::arithmetic::power2::*;
use vstd::prelude::*;

verus! {

/// Whether two numbers have the same value: finite numbers that are as great, or the same
/// infinity.
pub open spec fn same_value(a: Binary32, b: Binary32) -> bool {
    ||| a.is_finite() && b.is_finite() && a.scaled() == b.scaled()
    ||| a.is_infinite() && b.is_infinite() && a.is_negative() == b.is_negative()
}

/// How far a number is from `num / den`, times `den`.
pub open spec fn distance(a: Binary32, num: int, den: int) -> int {
    vstd::math::abs(num - a.scaled() * den) as int
}

/// What the bits of a number say: the sign, eight bits of exponent and 23 of fraction.
pub proof fn law_bit_fields(a: Binary32)
    ensures
        ({
            let exponent = (a.bits >> 23) & 0xFF;
            let fraction = a.bits & 0x7F_FFFF;
            let size = if exponent == 0 {
                fraction as int
            } else {
                (0x80_0000 + fraction) * pow2((exponent - 1) as nat)
            };
            &&& a.is_negative() <==> a.bits >> 31 == 1
            &&& a.is_finite() <==> exponent != 0xFF
            &&& a.is_infinite() <==> exponent == 0xFF && fraction == 0
            &&& a.is_nan() <==> exponent == 0xFF && fraction != 0
            &&& a.scaled() == if a.bits >> 31 == 1 {
                -size
            } else {
                size
            }
        }),
{
    let b = a.bits;
    let exponent = (b >> 23) & 0xFF;
    let fraction = b & 0x7F_FFFF;
    assert(b % 0x8000_0000 == exponent * 0x80_0000 + fraction && exponent <= 0xFF && fraction
        < 0x80_0000 && (b >= 0x8000_0000 <==> b >> 31 == 1)) by (bit_vector)
        requires
            exponent == (b >> 23) & 0xFF,
            fraction == b & 0x7F_FFFF,
    ;
    let code = a.code();
    assert(code / 0x80_0000 == exponent && code % 0x80_0000 == fraction);
}

/// Numbers compare equal exactly where they have the same value.
pub proof fn law_equal_values(a: Binary32, b: Binary32)
    ensures
        vstd::std_specs::cmp::PartialEqSpec::eq_spec(&a, &b) <==> same_value(a, b),
        a.equals(b) <==> same_value(a, b),
{
    let (x, y) = (a.code(), b.code());
    assert(rounding::magnitude(0) == 0);
    if x < y {
        rounding::lemma_magnitude_increases(x, y);
    } else if y < x {
        rounding::lemma_magnitude_increases(y, x);
    }
    if x > 0 {
        rounding::lemma_magnitude_increases(0, x);
    }
    if y > 0 {
        rounding::lemma_magnitude_increases(0, y);
    }
}

/// A number is positive exactly where its value is greater than zero.
pub proof fn law_positive(a: Binary32, r: bool)
    requires
        call_ensures(Binary32::positive, (a,), r),
    ensures
        r <==> a.is_finite() && a.scaled() > 0 || a.is_infinite() && !a.is_negative(),
{
    assert(rounding::magnitude(0) == 0);
    if a.code() > 0 {
        rounding::lemma_magnitude_increases(0, a.code());
    }
}

/// Negation turns the sign bit over and nothing else.
pub proof fn law_negated(a: Binary32, r: Binary32)
    requires
        call_ensures(Binary32::negated, (a,), r),
    ensures
        r.bits == a.bits ^ 0x8000_0000,
        a.is_finite() ==> r.is_finite() && r.scaled() == -a.scaled(),
{
    lemma_negation_bits(a);
}

/// The bits of a negated number.
pub proof fn lemma_negation_bits(a: Binary32)
    ensures
        a.negation().bits == a.bits ^ 0x8000_0000,
        a.negation().code() == a.code(),
        a.negation().is_negative() == !a.is_negative(),
{
    let b = a.bits;
    assert((b < 0x8000_0000 ==> b ^ 0x8000_0000 == b + 0x8000_0000) && (b >= 0x8000_0000 ==> b
        ^ 0x8000_0000 == b - 0x8000_0000)) by (bit_vector);
}

/// A rounded quotient is the nearest number, the even one of two that are as near.
proof fn lemma_nearest(r: Binary32, negative: bool, num: int, den: int, other: Binary32)
    requires
        den > 0,
        negative ==> num <= 0,
        !negative ==> num >= 0,
        r == Binary32::signed(negative, rounding::rounded(vstd::math::abs(num) as int, den)),
        other.is_finite(),
    ensures
        r.is_infinite() <==> 2 * vstd::math::abs(num) >= (pow2(25) - 1) * pow2(253) * den,
        r.is_finite() || r.is_infinite(),
        r.is_negative() == negative,
        r.is_finite() ==> distance(r, num, den) <= distance(other, num, den),
        r.is_finite() && distance(r, num, den) == distance(other, num, den) && r.scaled()
            != other.scaled() ==> r.code() % 2 == 0,
{
    let size = vstd::math::abs(num) as int;
    let code = rounding::rounded(size, den);
    rounding::law_rounding_total(size, den);
    rounding::law_rounded_overflow(size, den);
    assert(r.code() == code);
    if r.is_finite() {
        let (m, o) = (rounding::magnitude(code), rounding::magnitude(other.code()));
        rounding::lemma_magnitude_next(code);
        rounding::lemma_magnitude_next(other.code());
        rounding::law_rounded_nearest(code, size, den, other.code());
        assert((-m) * den == -(m * den) && (-o) * den == -(o * den)) by (nonlinear_arith);
        assert(m * den >= 0 && o * den >= 0) by (nonlinear_arith)
            requires
                m >= 0,
                o >= 0,
                den > 0,
        ;
        assert(o * den == 0 ==> o == 0) by (nonlinear_arith)
            requires
                den > 0,
        ;
        assert(m * den == 0 ==> m == 0) by (nonlinear_arith)
            requires
                den > 0,
        ;
        if distance(r, num, den) == distance(other, num, den) && r.scaled() != other.scaled() {
            if other.code() == code {
                assert(other.is_negative() != negative);
                if size == 0 {
                    assert(rounding::magnitude(0) == 0);
                    rounding::lemma_rounded_exact(0, den);
                    assert(0 * den == 0) by (nonlinear_arith);
                }
            } else {
                if size == 0 {
                    assert(rounding::magnitude(0) == 0);
                    assert(0 * den == 0) by (nonlinear_arith);
                    rounding::lemma_rounded_exact(0, den);
                }
                rounding::law_rounded_tie(code, size, den, other.code());
            }
        }
    }
}

/// The sum of two finite numbers is the number nearest to the exact sum, the even one of
/// two that are as near, and an infinity only where the exact sum is out of range.
pub proof fn law_sum(a: Binary32, b: Binary32, r: Binary32, other: Binary32)
    requires
        call_ensures(Binary32::plus, (a, b), r),
        a.is_finite(),
        b.is_finite(),
        other.is_finite(),
    ensures
        ({
            let exact = a.scaled() + b.scaled();
            &&& r.is_infinite() <==> 2 * vstd::math::abs(exact) >= (pow2(25) - 1) * pow2(253)
            &&& r.is_finite() || r.is_infinite()
            &&& exact != 0 ==> r.is_negative() == (exact < 0)
            &&& exact == 0 ==> r.is_negative() == (a.is_negative() && b.is_negative())
            &&& r.is_finite() ==> distance(r, exact, 1) <= distance(other, exact, 1)
            &&& r.is_finite() && distance(r, exact, 1) == distance(other, exact, 1) && r.scaled()
                != other.scaled() ==> r.code() % 2 == 0
        }),
{
    let exact = a.scaled() + b.scaled();
    let negative = if exact == 0 {
        a.is_negative() && b.is_negative()
    } else {
        exact < 0
    };
    if exact == 0 {
        assert(rounding::magnitude(0) == 0);
        rounding::lemma_rounded_exact(0, 1);
    }
    lemma_nearest(r, negative, exact, 1, other);
}

/// Sums with infinities and with what is not a number.
pub proof fn law_sum_special(a: Binary32, b: Binary32, r: Binary32)
    requires
        call_ensures(Binary32::plus, (a, b), r),
        !a.is_finite() || !b.is_finite(),
    ensures
        r.is_nan() <==> a.is_nan() || b.is_nan() || a.is_infinite() && b.is_infinite()
            && a.is_negative() != b.is_negative(),
        !r.is_nan() && a.is_infinite() ==> r == a,
        !r.is_nan() && b.is_infinite() ==> r == b,
{
}

/// The difference is the sum with the number negated.
pub proof fn law_difference(a: Binary32, b: Binary32, r: Binary32, opposite: Binary32, s: Binary32)
    requires
        call_ensures(Binary32::minus, (a, b), r),
        call_ensures(Binary32::negated, (b,), opposite),
        call_ensures(Binary32::plus, (a, opposite), s),
    ensures
        r == s,
{
}

/// The difference of two finite numbers is the number nearest to the exact difference.
pub proof fn law_difference_nearest(a: Binary32, b: Binary32, r: Binary32, other: Binary32)
    requires
        call_ensures(Binary32::minus, (a, b), r),
        a.is_finite(),
        b.is_finite(),
        other.is_finite(),
    ensures
        ({
            let exact = a.scaled() - b.scaled();
            &&& r.is_infinite() <==> 2 * vstd::math::abs(exact) >= (pow2(25) - 1) * pow2(253)
            &&& r.is_finite() || r.is_infinite()
            &&& exact != 0 ==> r.is_negative() == (exact < 0)
            &&& r.is_finite() ==> distance(r, exact, 1) <= distance(other, exact, 1)
            &&& r.is_finite() && distance(r, exact, 1) == distance(other, exact, 1) && r.scaled()
                != other.scaled() ==> r.code() % 2 == 0
        }),
{
    lemma_difference_nearest(a, b, other);
}

/// The difference of two finite numbers, rounded, is the number nearest to the exact one.
pub proof fn lemma_difference_nearest(a: Binary32, b: Binary32, other: Binary32)
    requires
        a.is_finite(),
        b.is_finite(),
        other.is_finite(),
    ensures
        ({
            let r = a.difference(b);
            let exact = a.scaled() - b.scaled();
            &&& r.is_infinite() <==> 2 * vstd::math::abs(exact) >= (pow2(25) - 1) * pow2(253)
            &&& r.is_finite() || r.is_infinite()
            &&& exact != 0 ==> r.is_negative() == (exact < 0)
            &&& r.is_finite() ==> distance(r, exact, 1) <= distance(other, exact, 1)
            &&& r.is_finite() && distance(r, exact, 1) == distance(other, exact, 1) && r.scaled()
                != other.scaled() ==> r.code() % 2 == 0
        }),
{
    let c = b.negation();
    let r = a.difference(b);
    assert(c.code() == b.code() && c.is_negative() == !b.is_negative());
    assert(c.scaled() == -b.scaled());
    let exact = a.scaled() - b.scaled();
    let negative = if exact == 0 {
        a.is_negative() && c.is_negative()
    } else {
        exact < 0
    };
    if exact == 0 {
        assert(rounding::magnitude(0) == 0);
        rounding::lemma_rounded_exact(0, 1);
    }
    lemma_nearest(r, negative, exact, 1, other);
}

/// The product of two finite numbers is the number nearest to the exact product, with the
/// sign of the exact product, and an infinity only where that is out of range.
pub proof fn law_product(a: Binary32, b: Binary32, r: Binary32, other: Binary32)
    requires
        call_ensures(Binary32::times, (a, b), r),
        a.is_finite(),
        b.is_finite(),
        other.is_finite(),
    ensures
        ({
            let exact = a.scaled() * b.scaled();
            let unit = binary32::one();
            &&& r.is_infinite() <==> 2 * vstd::math::abs(exact) >= (pow2(25) - 1) * pow2(253) * unit
            &&& r.is_finite() || r.is_infinite()
            &&& r.is_negative() == (a.is_negative() != b.is_negative())
            &&& r.is_finite() ==> distance(r, exact, unit) <= distance(other, exact, unit)
            &&& r.is_finite() && distance(r, exact, unit) == distance(other, exact, unit)
                && r.scaled() != other.scaled() ==> r.code() % 2 == 0
        }),
{
    let exact = a.scaled() * b.scaled();
    let (m, n) = (rounding::magnitude(a.code()), rounding::magnitude(b.code()));
    let negative = a.is_negative() != b.is_negative();
    lemma_pow2_pos(149);
    rounding::lemma_magnitude_next(a.code());
    rounding::lemma_magnitude_next(b.code());
    assert(m * n >= 0 && (-m) * n == -(m * n) && m * (-n) == -(m * n) && (-m) * (-n) == m * n)
        by (nonlinear_arith)
        requires
            m >= 0,
            n >= 0,
    ;
    lemma_nearest(r, negative, exact, binary32::one(), other);
}

/// Products with infinities and with what is not a number.
pub proof fn law_product_special(a: Binary32, b: Binary32, r: Binary32)
    requires
        call_ensures(Binary32::times, (a, b), r),
        !a.is_finite() || !b.is_finite(),
    ensures
        r.is_nan() <==> a.is_nan() || b.is_nan() || a.is_infinite() && b.scaled() == 0
            || b.is_infinite() && a.scaled() == 0,
        !r.is_nan() ==> r.is_infinite() && r.is_negative() == (a.is_negative() != b.is_negative()),
{
    assert(rounding::magnitude(0) == 0);
    if a.code() > 0 {
        rounding::lemma_magnitude_increases(0, a.code());
    }
    if b.code() > 0 {
        rounding::lemma_magnitude_increases(0, b.code());
    }
}

/// An integer is held exactly, and zero without a sign.
pub proof fn law_integer(n: i16, r: Binary32)
    requires
        call_ensures(Binary32::from_i16, (n,), r),
    ensures
        r.is_finite(),
        r.scaled() == n * pow2(149),
        r.is_negative() <==> n < 0,
{
    Binary32::lemma_of_int(n as int);
    if n >= 0 {
        Binary32::lemma_unsigned(n as int);
    } else {
        r.lemma_int_parts(n as int);
    }
}

/// Hundredths are the number nearest to the quotient by a hundred, the even one of two
/// that are as near.
pub proof fn law_hundredths(n: i16, r: Binary32, other: Binary32)
    requires
        call_ensures(Binary32::from_hundredths, (n,), r),
        other.is_finite(),
    ensures
        r.is_finite(),
        r.is_negative() <==> n < 0,
        distance(r, n * pow2(149), 100) <= distance(other, n * pow2(149), 100),
        distance(r, n * pow2(149), 100) == distance(other, n * pow2(149), 100) && r.scaled()
            != other.scaled() ==> r.code() % 2 == 0,
{
    lemma_hundredths_nearest(n as int, other);
}

/// Hundredths, rounded, are the number nearest to the quotient.
pub proof fn lemma_hundredths_nearest(n: int, other: Binary32)
    requires
        -0x8000 <= n < 0x8000,
        other.is_finite(),
    ensures
        ({
            let r = Binary32::of_hundredths(n);
            &&& r.is_finite()
            &&& r.is_negative() <==> n < 0
            &&& distance(r, n * pow2(149), 100) <= distance(other, n * pow2(149), 100)
            &&& distance(r, n * pow2(149), 100) == distance(other, n * pow2(149), 100) && r.scaled()
                != other.scaled() ==> r.code() % 2 == 0
        }),
{
    let r = Binary32::of_hundredths(n);
    let u = pow2(149) as int;
    let num = n * u;
    let (top, wide) = (pow2(25) as int, pow2(253) as int);
    lemma_pow2_pos(149);
    lemma2_to64();
    lemma_pow2_adds(149, 104);
    lemma_pow2_adds(64, 40);
    assert((-n) * u == -(n * u)) by (nonlinear_arith);
    assert((n < 0 ==> n * u < 0) && (n >= 0 ==> n * u >= 0)) by (nonlinear_arith)
        requires
            u > 0,
    ;
    let size = vstd::math::abs(num) as int;
    assert(size == vstd::math::abs(n) * u);
    lemma_pow2_pos(104);
    assert(size <= 0x8000 * u) by (nonlinear_arith)
        requires
            size == vstd::math::abs(n) * u,
            vstd::math::abs(n) <= 0x8000,
            u > 0,
    ;
    lemma_pow2_pos(253);
    assert(wide >= u) by (nonlinear_arith)
        requires
            wide == u * pow2(104),
            pow2(104) >= 1,
            u > 0,
    ;
    assert(2 * size < (top - 1) * wide * 100) by (nonlinear_arith)
        requires
            size <= 0x8000 * u,
            wide >= u,
            u > 0,
            top == 0x200_0000,
    ;
    lemma_nearest(r, n < 0, num, 100, other);
}

/// Of two sums with the same number, that of the greater number is not the lesser.
pub proof fn lemma_sum_monotone(a: Binary32, b: Binary32, c: Binary32)
    requires
        a.is_finite(),
        b.is_finite(),
        c.is_finite(),
        a.scaled() <= b.scaled(),
        a.sum(c).is_finite(),
        b.sum(c).is_finite(),
    ensures
        a.sum(c).scaled() <= b.sum(c).scaled(),
{
    lemma_rounding_monotone(
        a.sum(c),
        b.sum(c),
        a.scaled() + c.scaled(),
        b.scaled() + c.scaled(),
        1,
    );
}

/// Of two rounded quotients, that of the greater is not the lesser.
pub proof fn lemma_rounding_monotone(r: Binary32, s: Binary32, num: int, num2: int, den: int)
    requires
        num <= num2,
        den > 0,
        r.is_finite(),
        s.is_finite(),
        num == 0 ==> r.scaled() == 0,
        num2 == 0 ==> s.scaled() == 0,
        num != 0 ==> r == Binary32::signed(
            num < 0,
            rounding::rounded(vstd::math::abs(num) as int, den),
        ),
        num2 != 0 ==> s == Binary32::signed(
            num2 < 0,
            rounding::rounded(vstd::math::abs(num2) as int, den),
        ),
    ensures
        r.scaled() <= s.scaled(),
{
    let (m, n) = (vstd::math::abs(num) as int, vstd::math::abs(num2) as int);
    let (c, d) = (rounding::rounded(m, den), rounding::rounded(n, den));
    rounding::law_rounding_total(m, den);
    rounding::law_rounding_total(n, den);
    lemma_signed_scaled(num < 0, c);
    lemma_signed_scaled(num2 < 0, d);
    if num > 0 {
        rounding::lemma_rounded_monotone(m, n, den);
        lemma_magnitudes_ordered(c, d);
    } else if num2 < 0 {
        rounding::lemma_rounded_monotone(n, m, den);
        lemma_magnitudes_ordered(d, c);
    }
}

proof fn lemma_magnitudes_ordered(low: int, high: int)
    requires
        0 <= low <= high,
    ensures
        rounding::magnitude(low) <= rounding::magnitude(high),
{
    if low < high {
        rounding::lemma_magnitude_increases(low, high);
    }
}

/// The value of the number with a given sign and code.
proof fn lemma_signed_scaled(negative: bool, code: int)
    requires
        0 <= code <= rounding::INFINITY,
    ensures
        rounding::magnitude(code) >= 0,
        Binary32::signed(negative, code).scaled() == if negative {
            -rounding::magnitude(code)
        } else {
            rounding::magnitude(code)
        },
{
    rounding::lemma_magnitude_next(code);
    assert(Binary32::signed(negative, code).code() == code);
}

} // verus!
