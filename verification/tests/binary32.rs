use ble_leveler::binary32::Binary32;

fn number(value: f32) -> Binary32 {
    Binary32 { bits: value.to_bits() }
}

fn assert_same(got: Binary32, expected: f32, what: &str) {
    if expected.is_nan() {
        assert!(f32::from_bits(got.bits).is_nan(), "{}", what);
    } else {
        assert_eq!(got.bits, expected.to_bits(), "{}", what);
    }
}

fn next(state: &mut u64) -> u32 {
    *state = state.wrapping_mul(6364136223846793005).wrapping_add(1442695040888963407);
    (*state >> 32) as u32
}

fn check(a: f32, b: f32) {
    let what = format!("{:e} ({:#x}) and {:e} ({:#x})", a, a.to_bits(), b, b.to_bits());
    assert_same(number(a).plus(number(b)), a + b, &what);
    assert_same(number(a).minus(number(b)), a - b, &what);
    assert_same(number(a).times(number(b)), a * b, &what);
    assert_same(number(a).negated(), -a, &what);
    assert_eq!(number(a) == number(b), a == b, "{}", what);
    assert_eq!(number(a).positive(), a > 0.0, "{}", what);
}

#[test]
fn arithmetic_on_special_numbers() {
    let special = [
        0.0f32,
        -0.0,
        1.0,
        -1.0,
        1.5,
        2.5,
        f32::MIN_POSITIVE,
        f32::MAX,
        f32::MIN,
        f32::EPSILON,
        f32::INFINITY,
        f32::NEG_INFINITY,
        f32::NAN,
        f32::from_bits(1),
        f32::from_bits(0x8000_0001),
        f32::from_bits(0x007F_FFFF),
        f32::from_bits(0x0080_0001),
        f32::from_bits(0x7F7F_FFFE),
        f32::from_bits(0x7300_0000),
        f32::from_bits(0x7280_0000),
        16777216.0,
        16777215.0,
        0.5,
        0.75,
    ];
    for a in special {
        for b in special {
            check(a, b);
        }
    }
}

#[test]
fn arithmetic_on_many_numbers() {
    let mut state: u64 = 1;
    for _ in 0..200_000 {
        let (a, b) = (next(&mut state), next(&mut state));
        check(f32::from_bits(a), f32::from_bits(b));
    }
}

#[test]
fn arithmetic_on_numbers_of_like_size() {
    let mut state: u64 = 2;
    for _ in 0..200_000 {
        let (a, b) = (next(&mut state), next(&mut state));
        let exponent = 0x3F80_0000u32 + ((b >> 27) << 23);
        check(
            f32::from_bits((a & 0x807F_FFFF) | 0x3F80_0000),
            f32::from_bits((b & 0x807F_FFFF) | exponent),
        );
    }
}

#[test]
fn arithmetic_near_underflow_and_overflow() {
    let mut state: u64 = 3;
    for _ in 0..100_000 {
        let (a, b) = (next(&mut state), next(&mut state));
        check(f32::from_bits(a & 0x81FF_FFFF), f32::from_bits(b & 0x81FF_FFFF));
        check(
            f32::from_bits((a & 0x807F_FFFF) | 0x2000_0000),
            f32::from_bits((b & 0x80FF_FFFF) | 0x1F00_0000),
        );
        check(
            f32::from_bits((a & 0x807F_FFFF) | 0x7F00_0000),
            f32::from_bits((b & 0x80FF_FFFF) | 0x7E00_0000),
        );
    }
}

#[test]
fn integers_are_exact() {
    for n in i16::MIN..=i16::MAX {
        assert_eq!(Binary32::from_i16(n).bits, (n as f32).to_bits());
    }
}

#[test]
fn hundredths_round_like_a_division() {
    for n in i16::MIN..=i16::MAX {
        assert_eq!(Binary32::from_hundredths(n).bits, (n as f32 / 100.0).to_bits(), "{}", n);
    }
    assert_eq!(Binary32::from_hundredths(150).bits, 1.5f32.to_bits());
    assert_eq!(Binary32::from_hundredths(1).bits, 0.01f32.to_bits());
}

#[test]
fn nan_equals_nothing_and_zeros_are_equal() {
    assert!(number(f32::NAN) != number(f32::NAN));
    assert!(number(0.0) == number(-0.0));
    assert!(number(1.0) != number(-1.0));
}
