use polarize_core::binary64::Real;

fn num(value: f64) -> Real {
    Real { bits: value.to_bits() }
}

fn value(r: Real) -> f64 {
    f64::from_bits(r.bits)
}

fn samples() -> Vec<f64> {
    vec![
        f64::NEG_INFINITY,
        f64::MIN,
        -2.5,
        -1.0,
        -f64::MIN_POSITIVE,
        -0.0,
        0.0,
        f64::MIN_POSITIVE,
        0.3,
        0.5,
        1.0,
        1.0 + f64::EPSILON,
        2.0,
        f64::MAX,
        f64::INFINITY,
        f64::NAN,
        -f64::NAN,
    ]
}

#[test]
fn classification_agrees_with_the_hardware() {
    for a in samples() {
        assert_eq!(num(a).is_nan(), a.is_nan(), "{a}");
        assert_eq!(num(a).is_finite(), a.is_finite(), "{a}");
        assert_eq!(num(a).is_in_unit(), (0.0..=1.0).contains(&a), "{a}");
    }
}

#[test]
fn both_orders_agree_with_the_hardware() {
    for a in samples() {
        for b in samples() {
            assert_eq!(num(a).is_below(num(b)), a < b, "{a} < {b}");
            assert_eq!(num(a).is_at_most(num(b)), a <= b, "{a} <= {b}");
            assert_eq!(
                num(a).stands_before(num(b)),
                a.total_cmp(&b).is_lt(),
                "{a} before {b}"
            );
        }
    }
}

#[test]
fn the_clamp_agrees_with_the_hardware() {
    for a in samples() {
        let clamped = num(a).clamp_to_unit();
        if a.is_nan() {
            assert!(clamped.is_nan());
        } else {
            assert_eq!(value(clamped), a.clamp(0.0, 1.0), "{a}");
            assert!(clamped.is_in_unit());
            assert_eq!(clamped.clamp_to_unit(), clamped);
        }
    }
}

#[test]
fn the_smaller_and_the_larger_agree_with_the_hardware() {
    for a in samples() {
        for b in samples() {
            let (low, high) = (value(num(a).min(num(b))), value(num(a).max(num(b))));
            if a.is_nan() && b.is_nan() {
                assert!(low.is_nan() && high.is_nan());
            } else {
                assert_eq!(low, a.min(b), "min {a} {b}");
                assert_eq!(high, a.max(b), "max {a} {b}");
            }
        }
    }
}

#[test]
fn what_is_not_finite_becomes_zero() {
    assert_eq!(num(f64::NAN).or_zero(), num(0.0));
    assert_eq!(num(f64::INFINITY).or_zero(), num(0.0));
    assert_eq!(num(-2.5).or_zero(), num(-2.5));
    assert_eq!(Real::default(), num(0.0));
}
