use arb_bot::binary64::Binary64;

fn same(actual: Binary64, expected: f64) {
    if expected.is_nan() {
        assert!(f64::from_bits(actual.to_bits()).is_nan());
    } else {
        assert_eq!(actual.to_bits(), expected.to_bits());
    }
}

fn compare_all(x: f64, y: f64) {
    let a = Binary64::from_bits(x.to_bits());
    let b = Binary64::from_bits(y.to_bits());
    same(a.minus(b), x - y);
    same(a.times(b), x * y);
    same(a.over(b), x / y);
    assert_eq!(a.less_than(b), x < y);
    assert_eq!(a.is_a_zero(), x == 0.0);
}

fn next(state: &mut u64) -> u64 {
    *state = state.wrapping_mul(6364136223846793005).wrapping_add(1442695040888963407);
    let x = *state;
    x ^ (x >> 29)
}

#[test]
fn special_values_agree_with_the_machine() {
    let values = [
        0.0,
        -0.0,
        1.0,
        -1.0,
        f64::INFINITY,
        f64::NEG_INFINITY,
        f64::NAN,
        f64::MAX,
        f64::MIN,
        f64::MIN_POSITIVE,
        -f64::MIN_POSITIVE,
        f64::EPSILON,
        1.0 + f64::EPSILON,
        1.0 - f64::EPSILON / 2.0,
        5e-324,
        -5e-324,
        1.5e-323,
        2.2250738585072009e-308,
        0.000672,
        20.0,
        47.123,
        1e300,
        1e-300,
        9007199254740993.0,
    ];
    for x in values {
        for y in values {
            compare_all(x, y);
        }
    }
}

#[test]
fn random_bit_patterns_agree_with_the_machine() {
    let mut state = 1u64;
    for _ in 0..20000 {
        let x = f64::from_bits(next(&mut state));
        let y = f64::from_bits(next(&mut state));
        compare_all(x, y);
    }
}

#[test]
fn neighbouring_exponents_agree_with_the_machine() {
    let mut state = 7u64;
    for _ in 0..20000 {
        let x = next(&mut state);
        let y = next(&mut state);
        let shift = next(&mut state) % 140;
        let exponent = (x >> 52) & 0x7ff;
        let near = (exponent + shift).saturating_sub(70).min(0x7fe);
        let close = (y & 0x800f_ffff_ffff_ffff) | (near << 52);
        compare_all(f64::from_bits(x), f64::from_bits(close));
    }
}

#[test]
fn subnormal_operands_agree_with_the_machine() {
    let mut state = 11u64;
    for _ in 0..5000 {
        let x = next(&mut state) & 0x800f_ffff_ffff_ffff;
        let y = next(&mut state) >> (next(&mut state) % 64);
        compare_all(f64::from_bits(x), f64::from_bits(y));
        compare_all(f64::from_bits(y), f64::from_bits(x));
        let scale = f64::from_bits(0x3c00_0000_0000_0000 | (y >> 12));
        compare_all(f64::from_bits(x | 0x0010_0000_0000_0000), scale);
    }
}

#[test]
fn rounding_takes_the_even_neighbour_of_two() {
    // 2^53 + 1 lies halfway between 2^53 and 2^53 + 2.
    compare_all(9007199254740992.0, -1.0);
    compare_all(9007199254740994.0, -1.0);
    let a = Binary64::from_bits(9007199254740992.0f64.to_bits());
    let b = Binary64::from_bits((-1.0f64).to_bits());
    assert_eq!(a.minus(b).to_bits(), 9007199254740992.0f64.to_bits());
}

#[test]
fn a_difference_is_zero_for_equal_numbers_only() {
    let zero = Binary64::from_bits(0);
    let least = Binary64::from_bits(f64::MIN_POSITIVE.to_bits());
    let next = Binary64::from_bits(f64::MIN_POSITIVE.to_bits() + 1);
    assert_eq!(next.minus(least).to_bits(), 1);
    assert!(zero.less_than(next.minus(least)));
    assert!(least.minus(next).less_than(zero));
    assert!(least.minus(least).is_a_zero());
}

#[test]
fn parts_and_multiples_keep_to_their_side() {
    let size = Binary64::from_bits((20.0f64 / 47.1).to_bits());
    let kept = Binary64::from_bits((1.0f64 - 0.000672).to_bits());
    let two = Binary64::from_bits(2.0f64.to_bits());
    assert!(size.times(kept).less_than(size));
    assert!(size.less_than(size.times(two)));
    assert_eq!(f64::from_bits(kept.to_bits()), 0.999328);
}
