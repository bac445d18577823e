use ui_render::scalar::Scalar;

fn scalar(n: f32) -> Scalar {
    Scalar { bits: n.to_bits() }
}

fn samples() -> Vec<f32> {
    vec![
        0.0,
        -0.0,
        1.0,
        -1.0,
        0.5,
        -0.5,
        1.5,
        100.0,
        -100.0,
        f32::MIN_POSITIVE,
        -f32::MIN_POSITIVE,
        f32::from_bits(1),
        f32::from_bits(0x8000_0001),
        f32::from_bits(0x007f_ffff),
        f32::MAX,
        f32::MIN,
        f32::INFINITY,
        f32::NEG_INFINITY,
        f32::NAN,
        f32::from_bits(0xffc0_0001),
    ]
}

#[test]
fn order_of_numbers() {
    for a in samples() {
        for b in samples() {
            assert_eq!(scalar(a).lt(scalar(b)), a < b, "{a} < {b}");
            assert_eq!(scalar(a).le(scalar(b)), a <= b, "{a} <= {b}");
            assert_eq!(scalar(a).num_eq(scalar(b)), a == b, "{a} == {b}");
        }
    }
}

#[test]
fn larger_and_smaller_number() {
    for a in samples() {
        for b in samples() {
            let max = f32::from_bits(scalar(a).max(scalar(b)).bits);
            let min = f32::from_bits(scalar(a).min(scalar(b)).bits);
            if a.is_nan() && b.is_nan() {
                assert!(max.is_nan() && min.is_nan());
            } else {
                assert_eq!(max, a.max(b), "max({a}, {b})");
                assert_eq!(min, a.min(b), "min({a}, {b})");
            }
        }
    }
}

#[test]
fn larger_of_a_number_and_nan_is_the_number() {
    let nan = scalar(f32::NAN);
    assert_eq!(nan.max(scalar(2.0)), scalar(2.0));
    assert_eq!(scalar(2.0).max(nan), scalar(2.0));
    assert_eq!(nan.min(scalar(2.0)), scalar(2.0));
    assert_eq!(scalar(2.0).min(nan), scalar(2.0));
}

#[test]
fn not_a_number() {
    for a in samples() {
        assert_eq!(scalar(a).is_not_a_number(), a.is_nan(), "{a}");
    }
}

#[test]
fn constants() {
    assert_eq!(Scalar::zero(), scalar(0.0));
    assert_eq!(Scalar::one(), scalar(1.0));
}

#[test]
fn negation() {
    assert_eq!(scalar(2.5).negated(), scalar(-2.5));
    assert_eq!(scalar(-2.5).negated(), scalar(2.5));
    assert_eq!(scalar(0.0).negated(), scalar(-0.0));
    assert_eq!(scalar(f32::INFINITY).negated(), scalar(f32::NEG_INFINITY));
    for a in samples() {
        assert_eq!(scalar(a).negated().negated(), scalar(a), "{a}");
    }
}

#[test]
fn integers_become_numbers() {
    assert_eq!(Scalar::from_u32(0), scalar(0.0));
    assert_eq!(Scalar::from_u32(1), scalar(1.0));
    assert_eq!(Scalar::from_u32(3), scalar(3.0));
    assert_eq!(Scalar::from_u32(1000), scalar(1000.0));
    assert_eq!(Scalar::from_u32(u32::MAX), scalar(4294967296.0));
}

#[test]
fn integers_up_to_24_bits_are_exact() {
    for n in [16777213u32, 16777214, 16777215, 16777216] {
        assert_eq!(f32::from_bits(Scalar::from_u32(n).bits) as u64, n as u64);
    }
}

#[test]
fn larger_integers_are_rounded_to_even() {
    assert_eq!(Scalar::from_u32(16777217), scalar(16777216.0));
    assert_eq!(Scalar::from_u32(16777218), scalar(16777218.0));
    assert_eq!(Scalar::from_u32(16777219), scalar(16777220.0));
    assert_eq!(Scalar::from_u32(33554433), scalar(33554432.0));
    assert_eq!(Scalar::from_u32(33554434), scalar(33554432.0));
    assert_eq!(Scalar::from_u32(33554435), scalar(33554436.0));
    assert_eq!(Scalar::from_u32(0xffff_ff7f), scalar(4294967040.0));
    assert_eq!(Scalar::from_u32(0xffff_ff80), scalar(4294967296.0));
}

#[test]
fn integers_are_rounded_as_by_the_machine() {
    let mut n: u32 = 12345;
    for _ in 0..20000 {
        n = n.wrapping_mul(1664525).wrapping_add(1013904223);
        for m in [n, n >> 3, n >> 7, n >> 9, n >> 20] {
            assert_eq!(Scalar::from_u32(m).bits, (m as f32).to_bits(), "{m}");
        }
    }
}

#[test]
fn rounding_keeps_the_order() {
    let mut n: u32 = 777;
    for _ in 0..5000 {
        n = n.wrapping_mul(22695477).wrapping_add(1);
        let m = n.wrapping_mul(69069);
        let (low, high) = if m < n { (m, n) } else { (n, m) };
        assert!(Scalar::from_u32(low).le(Scalar::from_u32(high)), "{low} {high}");
    }
}

#[test]
fn number_without_its_sign() {
    assert_eq!(scalar(-2.5).absolute(), scalar(2.5));
    assert_eq!(scalar(2.5).absolute(), scalar(2.5));
    assert_eq!(scalar(-0.0).absolute(), scalar(0.0));
    for a in samples() {
        assert_eq!(scalar(a).absolute().bits, a.abs().to_bits(), "{a}");
    }
}
