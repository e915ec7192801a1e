//! Binary32 numbers as bit patterns, with arithmetic that rounds to the nearest
//! number and to even on a tie.
use crate::rounding;
use crate::rounding::{round, INFINITY, LEADING};
use vstd::arithmetic::power2::*;
use vstd::prelude::*;

verus! {

/// The weight of the sign bit.
pub const SIGN: u32 = 0x8000_0000;

/// The bit pattern of the quiet NaN that invalid operations give.
pub const NAN: u32 = 0x7FC0_0000;

/// A binary32 number, held as its bit pattern.
#[derive(Clone, Copy, Debug)]
pub struct Binary32 {
    pub bits: u32,
}

/// Units of 2^-149 in one.
pub open spec fn one() -> int {
    pow2(149) as int
}

impl Binary32 {
    /// The bit pattern without the sign.
    pub open spec fn code(self) -> int {
        self.bits as int % SIGN as int
    }

    pub open spec fn is_negative(self) -> bool {
        self.bits >= SIGN
    }

    pub open spec fn is_nan(self) -> bool {
        self.code() > INFINITY
    }

    pub open spec fn is_infinite(self) -> bool {
        self.code() == INFINITY
    }

    pub open spec fn is_finite(self) -> bool {
        self.code() < INFINITY
    }

    /// Greater than zero: a NaN is not.
    pub open spec fn is_positive(self) -> bool {
        !self.is_negative() && 0 < self.code() <= INFINITY
    }

    /// Equal in value: zeros are equal, a NaN equals nothing.
    pub open spec fn equals(self, other: Binary32) -> bool {
        &&& !self.is_nan()
        &&& !other.is_nan()
        &&& self.bits == other.bits || self.code() == 0 && other.code() == 0
    }

    /// The value of a finite number, in units of 2^-149.
    pub open spec fn scaled(self) -> int {
        if self.is_negative() {
            -rounding::magnitude(self.code())
        } else {
            rounding::magnitude(self.code())
        }
    }

    /// Whether the number is the integer `n`.
    pub open spec fn is_int(self, n: int) -> bool {
        self.is_finite() && self.scaled() == n * one()
    }

    /// The number with the given sign and code.
    pub open spec fn signed(negative: bool, code: int) -> Binary32 {
        Binary32 {
            bits: if negative {
                (SIGN + code) as u32
            } else {
                code as u32
            },
        }
    }

    pub open spec fn nan() -> Binary32 {
        Binary32 { bits: NAN }
    }

    /// The number with the other sign.
    pub open spec fn negation(self) -> Binary32 {
        Binary32::signed(!self.is_negative(), self.code())
    }

    /// The sum, rounded. A sum that is zero is negative where both operands are.
    pub open spec fn sum(self, rhs: Binary32) -> Binary32 {
        let total = self.scaled() + rhs.scaled();
        if self.is_nan() || rhs.is_nan() {
            Binary32::nan()
        } else if self.is_infinite() && rhs.is_infinite() && self.is_negative()
            != rhs.is_negative() {
            Binary32::nan()
        } else if self.is_infinite() {
            self
        } else if rhs.is_infinite() {
            rhs
        } else if total == 0 {
            Binary32::signed(self.is_negative() && rhs.is_negative(), 0)
        } else {
            Binary32::signed(total < 0, rounding::rounded(vstd::math::abs(total) as int, 1))
        }
    }

    /// The difference, rounded.
    pub open spec fn difference(self, rhs: Binary32) -> Binary32 {
        self.sum(rhs.negation())
    }

    /// The product, rounded.
    pub open spec fn product(self, rhs: Binary32) -> Binary32 {
        let negative = self.is_negative() != rhs.is_negative();
        let (a, b) = (rounding::magnitude(self.code()), rounding::magnitude(rhs.code()));
        if self.is_nan() || rhs.is_nan() {
            Binary32::nan()
        } else if self.is_infinite() || rhs.is_infinite() {
            if self.code() == 0 || rhs.code() == 0 {
                Binary32::nan()
            } else {
                Binary32::signed(negative, INFINITY as int)
            }
        } else {
            Binary32::signed(negative, rounding::rounded(a * b, one()))
        }
    }

    /// The integer `n`, rounded.
    pub open spec fn of_int(n: int) -> Binary32 {
        Binary32::signed(n < 0, rounding::rounded(vstd::math::abs(n) * one(), 1))
    }

    /// `n` hundredths, rounded.
    pub open spec fn of_hundredths(n: int) -> Binary32 {
        Binary32::signed(n < 0, rounding::rounded(vstd::math::abs(n) * one(), 100))
    }

    fn code_of(self) -> (code: u32)
        ensures
            code == self.code(),
    {
        if self.bits >= SIGN {
            self.bits - SIGN
        } else {
            self.bits
        }
    }

    fn with_sign(negative: bool, code: u32) -> (r: Binary32)
        requires
            code < SIGN,
        ensures
            r == Binary32::signed(negative, code as int),
            r.code() == code,
            r.is_negative() == negative,
    {
        if negative {
            Binary32 { bits: SIGN + code }
        } else {
            Binary32 { bits: code }
        }
    }

    /// The significand of a finite number, and the power of two that scales it.
    fn parts(self) -> (r: (u32, u32))
        requires
            self.is_finite(),
        ensures
            r.0 < 2 * LEADING,
            r.1 <= 253,
            r.1 > 0 ==> r.0 >= LEADING,
            self.code() == r.1 * LEADING + r.0,
            rounding::magnitude(self.code()) == r.0 * pow2(r.1 as nat),
    {
        let code: u32 = self.code_of();
        let shift: u32 = if code < LEADING { 0 } else { code / LEADING - 1 };
        let significand: u32 = code - shift * LEADING;
        proof {
            rounding::lemma_magnitude_of_significand(significand as int, shift as nat);
        }
        (significand, shift)
    }

    /// Whether the number is greater than zero.
    pub fn positive(self) -> (r: bool)
        ensures
            r == self.is_positive(),
    {
        0 < self.bits && self.bits <= INFINITY
    }

    /// The number with the other sign.
    pub fn negated(self) -> (r: Binary32)
        ensures
            r == self.negation(),
    {
        Binary32::with_sign(self.bits < SIGN, self.code_of())
    }

    /// Adds two finite numbers, of which `self` has the last place at least as high.
    fn plus_finite(self, rhs: Binary32) -> (r: Binary32)
        requires
            self.is_finite(),
            rhs.is_finite(),
            self.code() / LEADING as int >= rhs.code() / LEADING as int,
        ensures
            r == self.sum(rhs),
    {
        let (a, shift_a) = self.parts();
        let (b, shift_b) = rhs.parts();
        let negative_a: bool = self.bits >= SIGN;
        let negative_b: bool = rhs.bits >= SIGN;
        assert(shift_a >= shift_b);
        let gap: u32 = shift_a - shift_b;
        let ghost unit = pow2(shift_b as nat) as int;
        proof {
            lemma_pow2_pos(shift_b as nat);
            lemma_pow2_adds(shift_b as nat, gap as nat);
        }
        if gap >= 26 {
            proof {
                Self::lemma_absorbed(self, rhs, a as int, b as int, shift_a as nat, shift_b as nat);
            }
            return self;
        }
        proof {
            lemma2_to64();
            if gap < 25 {
                lemma_pow2_strictly_increases(gap as nat, 25);
            }
            lemma_pow2_pos(gap as nat);
            let factor = pow2(gap as nat) as int;
            assert(0 <= a * factor <= 0x0100_0000 * 0x0200_0000) by (nonlinear_arith)
                requires
                    0 <= a < 0x0100_0000,
                    0 < factor <= 0x0200_0000,
            ;
            vstd::bits::lemma_u64_shl_is_mul(a as u64, gap as u64);
        }
        let aligned: u64 = (a as u64) << gap;
        let x: i64 = if negative_a { -(aligned as i64) } else { aligned as i64 };
        let y: i64 = if negative_b { -(b as i64) } else { b as i64 };
        let total: i64 = x + y;
        proof {
            let factor = pow2(gap as nat) as int;
            assert(aligned * unit == a * pow2(shift_a as nat)) by (nonlinear_arith)
                requires
                    aligned == a * factor,
                    unit * factor == pow2(shift_a as nat),
            ;
            assert(total * unit == x * unit + y * unit) by (nonlinear_arith)
                requires
                    total == x + y,
            ;
            assert((-aligned) * unit == -(aligned * unit)) by (nonlinear_arith);
            assert((-b) * unit == -(b * unit)) by (nonlinear_arith);
            assert(self.scaled() + rhs.scaled() == total * unit);
            assert(total == 0 ==> total * unit == 0);
            assert(total > 0 ==> total * unit > 0) by (nonlinear_arith)
                requires
                    unit > 0,
            ;
            assert(total < 0 ==> total * unit < 0) by (nonlinear_arith)
                requires
                    unit > 0,
            ;
        }
        if total == 0 {
            return Binary32::with_sign(negative_a && negative_b, 0);
        }
        let size: u64 = if total < 0 { (-total) as u64 } else { total as u64 };
        let code: u32 = round(size, shift_b as i32);
        proof {
            assert((-total) * unit == -(total * unit)) by (nonlinear_arith);
            assert(size * unit == vstd::math::abs(total * unit));
            rounding::lemma_rounds_to_one(code as int, size * unit, 1);
        }
        Binary32::with_sign(total < 0, code)
    }

    /// A number whose last place lies far above all of another's bits is their sum.
    proof fn lemma_absorbed(
        self,
        rhs: Binary32,
        a: int,
        b: int,
        shift_a: nat,
        shift_b: nat,
    )
        requires
            self.is_finite(),
            rhs.is_finite(),
            0 <= a < 2 * LEADING,
            0 <= b < 2 * LEADING,
            shift_b + 26 <= shift_a <= 253,
            a >= LEADING,
            self.code() == shift_a * LEADING + a,
            rounding::magnitude(self.code()) == a * pow2(shift_a),
            rounding::magnitude(rhs.code()) == b * pow2(shift_b),
        ensures
            self.sum(rhs) == self,
    {
        let unit = pow2(shift_b) as int;
        let last = pow2(shift_a) as int;
        lemma_pow2_pos(shift_b);
        lemma_pow2_adds(shift_b, 26);
        lemma2_to64();
        if shift_b + 26 < shift_a {
            lemma_pow2_strictly_increases(shift_b + 26, shift_a);
        }
        assert(0 <= b * unit && 4 * (b * unit) < last) by (nonlinear_arith)
            requires
                0 <= b < 0x0100_0000,
                unit > 0,
                unit * 0x0400_0000 <= last,
        ;
        assert(a * last >= last) by (nonlinear_arith)
            requires
                a >= 1,
                last > 0,
        ;
        let change = if self.is_negative() == rhs.is_negative() {
            b * unit
        } else {
            -(b * unit)
        };
        rounding::lemma_rounds_absorbed(a, shift_a, change);
        rounding::lemma_rounds_to_one(self.code(), a * last + change, 1);
        assert(vstd::math::abs(self.scaled() + rhs.scaled()) == a * last + change);
    }

    /// The sum of two numbers.
    pub fn plus(self, rhs: Binary32) -> (r: Binary32)
        ensures
            r == self.sum(rhs),
    {
        let code_a: u32 = self.code_of();
        let code_b: u32 = rhs.code_of();
        if code_a > INFINITY || code_b > INFINITY {
            return Binary32 { bits: NAN };
        }
        if code_a == INFINITY {
            if code_b == INFINITY && (self.bits >= SIGN) != (rhs.bits >= SIGN) {
                return Binary32 { bits: NAN };
            }
            return self;
        }
        if code_b == INFINITY {
            return rhs;
        }
        if code_a / LEADING >= code_b / LEADING {
            self.plus_finite(rhs)
        } else {
            rhs.plus_finite(self)
        }
    }

    /// The difference of two numbers.
    pub fn minus(self, rhs: Binary32) -> (r: Binary32)
        ensures
            r == self.difference(rhs),
    {
        self.plus(rhs.negated())
    }

    /// The product of two numbers.
    pub fn times(self, rhs: Binary32) -> (r: Binary32)
        ensures
            r == self.product(rhs),
    {
        let code_a: u32 = self.code_of();
        let code_b: u32 = rhs.code_of();
        let negative: bool = (self.bits >= SIGN) != (rhs.bits >= SIGN);
        if code_a > INFINITY || code_b > INFINITY {
            return Binary32 { bits: NAN };
        }
        if code_a == INFINITY || code_b == INFINITY {
            if code_a == 0 || code_b == 0 {
                return Binary32 { bits: NAN };
            }
            return Binary32::with_sign(negative, INFINITY);
        }
        let (a, shift_a) = self.parts();
        let (b, shift_b) = rhs.parts();
        let ghost exact = rounding::magnitude(self.code()) * rounding::magnitude(rhs.code());
        let ghost unit = pow2((shift_a + shift_b) as nat) as int;
        proof {
            lemma_pow2_pos(149);
            lemma_pow2_pos((shift_a + shift_b) as nat);
            lemma_pow2_adds(shift_a as nat, shift_b as nat);
            let (u, v) = (pow2(shift_a as nat) as int, pow2(shift_b as nat) as int);
            assert((a * u) * (b * v) == (a * b) * (u * v)) by (nonlinear_arith);
            assert(0 <= a * b < 0x0001_0000_0000_0000) by (nonlinear_arith)
                requires
                    0 <= a < 0x0100_0000,
                    0 <= b < 0x0100_0000,
            ;
        }
        let value: u64 = a as u64 * b as u64;
        assert(exact == value * unit);
        if value == 0 {
            proof {
                assert(value * unit == 0) by (nonlinear_arith)
                    requires
                        value == 0,
                ;
                assert(rounding::magnitude(0) == 0);
                rounding::lemma_rounded_exact(0, one());
            }
            return Binary32::with_sign(negative, 0);
        }
        let exponent: i32 = (shift_a + shift_b) as i32 - 149;
        let code: u32 = round(value, exponent);
        proof {
            lemma2_to64();
            if exponent >= 0 {
                let factor = one();
                rounding::lemma_rounds_scaled(
                    code as int,
                    value * pow2(exponent as nat),
                    1,
                    factor,
                );
                lemma_pow2_adds(exponent as nat, 149);
                assert((value * pow2(exponent as nat)) * factor == value * unit)
                    by (nonlinear_arith)
                    requires
                        pow2(exponent as nat) * factor == unit,
                ;
            } else {
                let den = pow2((-exponent) as nat) as int;
                assert(rounding::raised(exponent as int) == 1);
                assert(value * rounding::raised(exponent as int) == value);
                assert(rounding::raised(-exponent) == den);
                rounding::lemma_rounds_scaled(code as int, value as int, den, unit);
                lemma_pow2_adds((-exponent) as nat, (shift_a + shift_b) as nat);
            }
            rounding::lemma_rounds_to_one(code as int, exact, one());
        }
        Binary32::with_sign(negative, code)
    }

    /// The integer `n`, which a binary32 number holds exactly.
    pub fn from_i16(n: i16) -> (r: Binary32)
        ensures
            r == Binary32::of_int(n as int),
            r.is_int(n as int),
    {
        proof {
            lemma_pow2_pos(149);
            Binary32::lemma_of_int(n as int);
        }
        if n == 0 {
            proof {
                assert(rounding::magnitude(0) == 0);
                assert(0 * one() == 0) by (nonlinear_arith);
                rounding::lemma_rounded_exact(0, 1);
            }
            return Binary32::with_sign(false, 0);
        }
        let size: u64 = if n < 0 { (-(n as i64)) as u64 } else { n as u64 };
        let code: u32 = round(size, 149);
        proof {
            rounding::lemma_rounds_to_one(code as int, size * one(), 1);
        }
        Binary32::with_sign(n < 0, code)
    }

    /// `n` hundredths.
    pub fn from_hundredths(n: i16) -> (r: Binary32)
        ensures
            r == Binary32::of_hundredths(n as int),
            r.is_positive() <==> n > 0,
    {
        if n == 0 {
            proof {
                assert(rounding::magnitude(0) == 0);
                assert(0 * one() == 0) by (nonlinear_arith);
                rounding::lemma_rounded_exact(0, 100);
            }
            return Binary32::with_sign(false, 0);
        }
        let size: u64 = if n < 0 { (-(n as i64)) as u64 } else { n as u64 };
        let mut value: u64 = size;
        let mut doublings: u32 = 0;
        proof {
            lemma2_to64();
        }
        while value < 100 * LEADING as u64
            invariant
                0 < size <= 0x8000,
                0 < value,
                value == size * pow2(doublings as nat),
                value < 200 * LEADING as u64,
                doublings <= 30,
            decreases 200 * LEADING - value,
        {
            proof {
                lemma_pow2_unfold((doublings + 1) as nat);
                let unit = pow2(doublings as nat) as int;
                assert(2 * (size * unit) == size * (2 * unit) && size * unit >= unit)
                    by (nonlinear_arith)
                    requires
                        size > 0,
                        unit >= 0,
                ;
                if doublings == 30 {
                    lemma2_to64();
                }
            }
            value = 2 * value;
            doublings = doublings + 1;
        }
        let significand: u64 = value / 100;
        let rest: u64 = value % 100;
        let shift: u32 = 149 - doublings;
        proof {
            let unit = pow2(shift as nat) as int;
            lemma_pow2_pos(shift as nat);
            rounding::lemma_rounds_significand(
                value as int,
                unit,
                100,
                shift as nat,
                100,
                significand as int,
                rest as int,
            );
            lemma_pow2_adds(doublings as nat, shift as nat);
            let factor = pow2(doublings as nat) as int;
            assert((size * factor) * unit == size * (factor * unit)) by (nonlinear_arith);
        }
        let low: u32 = shift * LEADING + significand as u32;
        let code: u32 = if 2 * rest > 100 || 2 * rest == 100 && significand % 2 == 1 {
            low + 1
        } else {
            low
        };
        proof {
            rounding::lemma_rounds_to_one(code as int, size * one(), 100);
        }
        Binary32::with_sign(n < 0, code)
    }

    /// A small integer has a code.
    proof fn int_code(significand: int, shift: nat) -> (code: int)
        requires
            100 <= shift <= 149,
            pow2((149 - shift) as nat) <= significand <= 2 * LEADING,
        ensures
            0 <= code < INFINITY,
            rounding::magnitude(code) == significand * pow2(shift),
        decreases shift,
    {
        if significand >= LEADING {
            rounding::lemma_magnitude_of_significand(significand, shift);
            shift * LEADING + significand
        } else {
            lemma2_to64();
            lemma2_to64_rest();
            lemma_pow2_unfold((150 - shift) as nat);
            lemma_pow2_unfold(shift);
            let half = pow2((shift - 1) as nat) as int;
            assert((2 * significand) * half == significand * (2 * half)) by (nonlinear_arith);
            Binary32::int_code(2 * significand, (shift - 1) as nat)
        }
    }

    /// The code of a number with the magnitude `|n|`.
    proof fn lemma_int_code(n: int) -> (code: int)
        requires
            -2 * LEADING <= n <= 2 * LEADING,
        ensures
            0 <= code < INFINITY,
            rounding::magnitude(code) == vstd::math::abs(n) * one(),
            code == 0 <==> n == 0,
    {
        lemma2_to64();
        lemma_pow2_pos(149);
        assert(rounding::magnitude(0) == 0);
        assert(0 * one() == 0) by (nonlinear_arith);
        if n == 0 {
            0
        } else {
            let size = vstd::math::abs(n) as int;
            assert(size * one() > 0) by (nonlinear_arith)
                requires
                    size > 0,
                    one() > 0,
            ;
            Binary32::int_code(size, 149)
        }
    }

    /// A number with the magnitude `|n|` and, unless it is zero, the sign of `n` is `n`.
    proof fn lemma_signed_int(negative: bool, code: int, n: int)
        requires
            0 <= code < INFINITY,
            rounding::magnitude(code) == vstd::math::abs(n) * one(),
            n != 0 ==> negative == (n < 0),
        ensures
            Binary32::signed(negative, code).is_int(n),
    {
        assert((-n) * one() == -(n * one())) by (nonlinear_arith);
    }

    /// The magnitude and the sign of an integer.
    pub proof fn lemma_int_parts(self, n: int)
        requires
            self.is_int(n),
        ensures
            rounding::magnitude(self.code()) == vstd::math::abs(n) * one(),
            n != 0 ==> self.is_negative() == (n < 0),
    {
        lemma_pow2_pos(149);
        rounding::lemma_magnitude_next(self.code());
        assert((-n) * one() == -(n * one())) by (nonlinear_arith);
        assert(n > 0 ==> n * one() > 0) by (nonlinear_arith)
            requires
                one() > 0,
        ;
        assert(n < 0 ==> n * one() < 0) by (nonlinear_arith)
            requires
                one() > 0,
        ;
    }

    /// Integers of up to 24 bits are held exactly.
    pub proof fn lemma_of_int(n: int)
        requires
            -2 * LEADING <= n <= 2 * LEADING,
        ensures
            Binary32::of_int(n).is_int(n),
    {
        let code = Binary32::lemma_int_code(n);
        rounding::lemma_rounded_exact(code, 1);
        Binary32::lemma_signed_int(n < 0, code, n);
    }

    /// Products of integers are exact up to 24 bits.
    pub proof fn lemma_product_int(self, rhs: Binary32, m: int, n: int)
        requires
            self.is_int(m),
            rhs.is_int(n),
            -2 * LEADING <= m * n <= 2 * LEADING,
        ensures
            self.product(rhs).is_int(m * n),
    {
        lemma_pow2_pos(149);
        self.lemma_int_parts(m);
        rhs.lemma_int_parts(n);
        let code = Binary32::lemma_int_code(m * n);
        let (a, b) = (vstd::math::abs(m) as int, vstd::math::abs(n) as int);
        assert(vstd::math::abs(m * n) == a * b && (m * n < 0 <==> (m < 0) != (n < 0) && m * n != 0))
            by {
            assert(m * n == a * b || m * n == -(a * b)) by (nonlinear_arith)
                requires
                    a == m || a == -m,
                    b == n || b == -n,
            ;
            assert(a * b >= 0) by (nonlinear_arith)
                requires
                    a >= 0,
                    b >= 0,
            ;
            assert(m < 0 && n < 0 ==> m * n > 0) by (nonlinear_arith);
            assert(m < 0 && n > 0 ==> m * n < 0) by (nonlinear_arith);
            assert(m > 0 && n < 0 ==> m * n < 0) by (nonlinear_arith);
            assert(m > 0 && n > 0 ==> m * n > 0) by (nonlinear_arith);
            assert(m == 0 || n == 0 ==> m * n == 0) by (nonlinear_arith);
        }
        let u = one();
        assert((a * u) * (b * u) == ((a * b) * u) * u) by (nonlinear_arith);
        rounding::lemma_rounded_exact(code, u);
        let negative = self.is_negative() != rhs.is_negative();
        assert(m * n != 0 ==> m != 0 && n != 0) by (nonlinear_arith);
        Binary32::lemma_signed_int(negative, code, m * n);
    }

    /// Sums of integers are exact up to 24 bits.
    pub proof fn lemma_sum_int(self, rhs: Binary32, m: int, n: int)
        requires
            self.is_int(m),
            rhs.is_int(n),
            -2 * LEADING <= m + n <= 2 * LEADING,
        ensures
            self.sum(rhs).is_int(m + n),
    {
        lemma_pow2_pos(149);
        let u = one();
        let code = Binary32::lemma_int_code(m + n);
        let total = m + n;
        assert(total * u == m * u + n * u) by (nonlinear_arith)
            requires
                total == m + n,
        ;
        assert((-total) * u == -(total * u)) by (nonlinear_arith);
        assert(total > 0 ==> total * u > 0) by (nonlinear_arith)
            requires
                u > 0,
        ;
        assert(total < 0 ==> total * u < 0) by (nonlinear_arith)
            requires
                u > 0,
        ;
        assert(total == 0 ==> total * u == 0);
        if total == 0 {
            Binary32::lemma_signed_int(self.is_negative() && rhs.is_negative(), 0, 0);
        } else {
            rounding::lemma_rounded_exact(code, 1);
            Binary32::lemma_signed_int(total < 0, code, total);
        }
    }

    /// Adding a positive zero to an integer gives the number that stands for it.
    pub proof fn lemma_plus_zero(self, n: int)
        requires
            self.is_int(n),
        ensures
            self.sum(Binary32 { bits: 0 }) == Binary32::of_int(n),
    {
        let u = one();
        lemma_pow2_pos(149);
        assert(rounding::magnitude(0) == 0);
        assert((-n) * u == -(n * u)) by (nonlinear_arith);
        assert(n > 0 ==> n * u > 0) by (nonlinear_arith)
            requires
                u > 0,
        ;
        assert(n < 0 ==> n * u < 0) by (nonlinear_arith)
            requires
                u > 0,
        ;
        if n == 0 {
            assert(0 * u == 0) by (nonlinear_arith);
            rounding::lemma_rounded_exact(0, 1);
        }
    }

    /// Integers are equal as numbers where they are equal.
    pub proof fn lemma_eq_int(self, other: Binary32, m: int, n: int)
        requires
            self.is_int(m),
            other.is_int(n),
        ensures
            self.equals(other) <==> m == n,
    {
        lemma_pow2_pos(149);
        self.lemma_int_parts(m);
        other.lemma_int_parts(n);
        let (a, b) = (self.code(), other.code());
        if a < b {
            rounding::lemma_magnitude_increases(a, b);
        } else if b < a {
            rounding::lemma_magnitude_increases(b, a);
        }
        if a == b {
            let (x, y) = (vstd::math::abs(m) as int, vstd::math::abs(n) as int);
            assert(x == y) by (nonlinear_arith)
                requires
                    x * one() == y * one(),
                    one() > 0,
            ;
            if a != 0 {
                rounding::lemma_magnitude_increases(0, a);
                assert(rounding::magnitude(0) == 0);
            }
            assert(x * one() == 0 <==> x == 0) by (nonlinear_arith)
                requires
                    one() > 0,
            ;
        }
    }

    /// An integer that is not negative has no sign.
    pub proof fn lemma_unsigned(n: int)
        requires
            0 <= n <= 2 * LEADING,
        ensures
            !Binary32::of_int(n).is_negative(),
    {
        let code = Binary32::lemma_int_code(n);
        rounding::lemma_rounded_exact(code, 1);
    }

    /// A finite product of numbers without a sign has none.
    pub proof fn lemma_product_unsigned(self, rhs: Binary32)
        requires
            self.is_finite(),
            rhs.is_finite(),
            !self.is_negative(),
            !rhs.is_negative(),
        ensures
            !self.product(rhs).is_negative(),
    {
        let (a, b) = (rounding::magnitude(self.code()), rounding::magnitude(rhs.code()));
        lemma_pow2_pos(149);
        rounding::lemma_magnitude_next(self.code());
        rounding::lemma_magnitude_next(rhs.code());
        assert(a * b >= 0) by (nonlinear_arith)
            requires
                a >= 0,
                b >= 0,
        ;
        rounding::law_rounding_total(a * b, one());
    }

    /// The sum of two zeros has no sign where one of them has none.
    pub proof fn lemma_zero_sum_unsigned(self, rhs: Binary32)
        requires
            self.is_int(0),
            rhs.is_int(0),
            !rhs.is_negative(),
        ensures
            !self.sum(rhs).is_negative(),
    {
        assert(0 * one() == 0) by (nonlinear_arith);
    }

    /// An integer has one bit pattern, but for a zero with a sign.
    pub proof fn lemma_int_bits(self, n: int)
        requires
            self.is_int(n),
            -2 * LEADING <= n <= 2 * LEADING,
            n == 0 ==> !self.is_negative(),
        ensures
            self == Binary32::of_int(n),
    {
        let other = Binary32::of_int(n);
        Binary32::lemma_of_int(n);
        self.lemma_eq_int(other, n, n);
        if n == 0 {
            Binary32::lemma_unsigned(0);
        } else {
            self.lemma_int_parts(n);
            other.lemma_int_parts(n);
        }
    }

    /// The negation of an integer.
    pub proof fn lemma_negation_int(self, n: int)
        requires
            self.is_int(n),
        ensures
            self.negation().is_int(-n),
    {
        assert((-n) * one() == -(n * one())) by (nonlinear_arith);
    }
}

/// Numbers compare by value.
impl PartialEq for Binary32 {
    fn eq(&self, other: &Binary32) -> (r: bool) {
        let code_a: u32 = self.code_of();
        let code_b: u32 = other.code_of();
        code_a <= INFINITY && code_b <= INFINITY && (self.bits == other.bits || code_a == 0
            && code_b == 0)
    }
}

impl vstd::std_specs::cmp::PartialEqSpecImpl for Binary32 {
    open spec fn obeys_eq_spec() -> bool {
        true
    }

    open spec fn eq_spec(&self, other: &Binary32) -> bool {
        self.equals(*other)
    }
}

} // verus!
