use std::cmp::Ordering;
use vm::number::{real_partial_order, Real};

fn of(x: f64) -> Real {
    Real::from_bits(x.to_bits())
}

fn samples() -> Vec<f64> {
    vec![
        0.0,
        -0.0,
        1.0,
        -1.0,
        0.5,
        -0.5,
        0.999_999_999_999,
        1.5,
        2.9,
        -2.9,
        1e10,
        -1e10,
        4_503_599_627_370_496.0,
        4_503_599_627_370_497.0,
        9_007_199_254_740_993.0,
        -9_007_199_254_740_993.0,
        4_611_686_018_427_387_904.0,
        9_223_372_036_854_774_784.0,
        9_223_372_036_854_775_807.0,
        -9_223_372_036_854_775_808.0,
        -9_223_372_036_854_777_856.0,
        1e19,
        -1e19,
        1e300,
        -1e300,
        f64::MIN_POSITIVE,
        -f64::MIN_POSITIVE,
        5e-324,
        -5e-324,
        f64::MAX,
        f64::MIN,
        f64::INFINITY,
        f64::NEG_INFINITY,
        f64::NAN,
        -f64::NAN,
        f64::from_bits(0x7ff0_0000_0000_0001),
        f64::from_bits(0xfff8_0000_0000_0000),
    ]
}

#[test]
fn truncation_is_that_of_the_cast() {
    for x in samples() {
        assert_eq!(of(x).truncate(), x as i64, "for {:?}", x);
    }
    assert_eq!(of(2.9).truncate(), 2);
    assert_eq!(of(-2.9).truncate(), -2);
    assert_eq!(of(f64::NAN).truncate(), 0);
    assert_eq!(of(1e300).truncate(), i64::MAX);
    assert_eq!(of(f64::NEG_INFINITY).truncate(), i64::MIN);
    assert_eq!(of(4_611_686_018_427_387_904.0).truncate(), 1 << 62);
}

#[test]
fn order_is_that_of_the_reals() {
    for x in samples() {
        for y in samples() {
            assert_eq!(real_partial_order(&of(x), &of(y)), x.partial_cmp(&y), "for {:?} and {:?}", x, y);
        }
    }
    assert_eq!(real_partial_order(&of(0.0), &of(-0.0)), Some(Ordering::Equal));
    assert_eq!(real_partial_order(&of(-1.0), &of(-2.0)), Some(Ordering::Greater));
    assert_eq!(real_partial_order(&of(f64::NAN), &of(f64::NAN)), None);
}

#[test]
fn signs_and_zeros_are_those_of_the_reals() {
    for x in samples() {
        assert_eq!(of(x).is_nan(), x.is_nan(), "for {:?}", x);
        assert_eq!(of(x).is_zero(), x == 0.0, "for {:?}", x);
        assert_eq!(of(x).is_negative(), x < 0.0, "for {:?}", x);
        assert_eq!(of(x).negate().to_bits(), (-x).to_bits(), "for {:?}", x);
    }
    assert_eq!(of(1.5).negate(), of(-1.5));
    assert_eq!(of(0.0).negate().to_bits(), 0x8000_0000_0000_0000);
    assert_eq!(Real::from_bits(7).to_bits(), 7);
}

#[test]
fn integers_become_the_nearest_real() {
    let mut integers: Vec<i64> = vec![
        0,
        1,
        -1,
        2,
        3,
        -7,
        255,
        1 << 52,
        (1 << 52) + 1,
        (1 << 53) - 1,
        1 << 53,
        (1 << 53) + 1,
        (1 << 53) + 2,
        (1 << 53) + 3,
        (1 << 54) + 2,
        (1 << 54) + 6,
        (1 << 54) - 1,
        (1 << 60) + 127,
        (1 << 60) + 128,
        (1 << 60) + 129,
        (1 << 60) + 384,
        (1 << 62) + 511,
        (1 << 62) + 512,
        (1 << 62) + 513,
        (1 << 62) + 1536,
        i64::MAX,
        i64::MAX - 511,
        i64::MAX - 512,
        i64::MAX - 1023,
        i64::MAX - 1024,
        i64::MIN,
        i64::MIN + 1,
        i64::MIN + 1024,
        i64::MIN + 1025,
        123_456_789_012_345_678,
        -987_654_321_098_765_432,
    ];
    let mut state: u64 = 0x9e37_79b9_7f4a_7c15;
    for _ in 0..2000 {
        state = state.wrapping_mul(6364136223846793005).wrapping_add(1442695040888963407);
        let shift = (state >> 58) as u32;
        integers.push((state as i64) >> shift);
    }
    for x in integers {
        assert_eq!(Real::from_integer(x).to_bits(), (x as f64).to_bits(), "for {}", x);
    }
    assert_eq!(Real::from_integer(3).to_bits(), 0x4008_0000_0000_0000);
    assert_eq!(Real::from_integer(-1).to_bits(), 0xbff0_0000_0000_0000);
    assert_eq!(Real::from_integer((1 << 53) + 1).to_bits(), 0x4340_0000_0000_0000);
    assert_eq!(Real::from_integer((1 << 53) + 3).to_bits(), 0x4340_0000_0000_0002);
    assert_eq!(Real::from_integer(i64::MAX).to_bits(), 0x43e0_0000_0000_0000);
}
