use raytracer::math::{
    f_clamp, f_eq, f_geq, f_leq, f_max_all, f_min_all, lerp, neg_log10, schlick, wide_root, Scalar,
};

fn s(x: f64) -> Scalar {
    Scalar::from_raw((x * 1_000_000.0).round() as i64)
}

#[test]
fn f_equality() {
    let f1 = s(3.0);
    let f2 = s(3.0000004);
    assert!(f_eq(f1, f2), "{:?} =/= {:?}", f1, f2);
}

#[test]
fn lerp_floats() {
    let start = s(1.0);
    let end = s(4.0);
    let result = lerp(start, end, s(0.7));
    assert!(f_eq(result, s(3.1)), "Got {:?}, not {:?}", result, s(3.1));
}

#[test]
fn threshold_comparisons() {
    assert!(f_eq(s(1.0), s(1.0001)));
    assert!(!f_eq(s(1.0), s(1.000101)));
    assert!(f_leq(s(1.00005), s(1.0)));
    assert!(!f_leq(s(1.001), s(1.0)));
    assert!(f_geq(s(0.99995), s(1.0)));
    assert!(!f_geq(s(0.999), s(1.0)));
    assert!(f_eq(Scalar::infinity(), Scalar::infinity()));
    assert!(!f_eq(Scalar::infinity(), Scalar::neg_infinity()));
}

#[test]
fn arithmetic_rounds_toward_zero_and_saturates() {
    assert_eq!(s(1.5) * s(2.5), s(3.75));
    assert_eq!(Scalar::from_raw(3) * Scalar::from_raw(500_000), Scalar::from_raw(1));
    assert_eq!(Scalar::from_raw(-3) * Scalar::from_raw(500_000), Scalar::from_raw(-1));
    assert_eq!(s(1.0) / s(3.0), Scalar::from_raw(333_333));
    assert_eq!(s(-1.0) / s(3.0), Scalar::from_raw(-333_333));
    assert_eq!(s(1.0) / s(-3.0), Scalar::from_raw(-333_333));
    assert_eq!(s(1.0) / s(0.0), Scalar::infinity());
    assert_eq!(s(-1.0) / s(0.0), Scalar::neg_infinity());
    assert_eq!(s(0.0) / s(0.0), s(0.0));
    assert_eq!(Scalar::infinity() + s(1.0), Scalar::infinity());
    assert_eq!(Scalar::neg_infinity() - s(1.0), Scalar::neg_infinity());
    assert_eq!(-Scalar::neg_infinity(), Scalar::infinity());
    assert_eq!(Scalar::infinity() * s(2.0), Scalar::infinity());
    assert_eq!(Scalar::infinity() * s(-2.0), Scalar::neg_infinity());
    assert_eq!(Scalar::from_int(7), s(7.0));
    assert_eq!(Scalar::from_count(12), s(12.0));
    assert_eq!(s(-2.75).trunc(), -2);
    assert_eq!(s(2.75).trunc(), 2);
    assert_eq!(s(-2.5).abs(), s(2.5));
    assert_eq!(s(2.0).min(s(-1.0)), s(-1.0));
    assert_eq!(s(2.0).max(s(-1.0)), s(2.0));
    assert_eq!(s(1.5).square(), s(2.25));
    assert_eq!(s(3.0).raw(), 3_000_000);
}

#[test]
fn square_roots_round_to_nearest() {
    assert_eq!(s(4.0).sqrt(), s(2.0));
    assert_eq!(s(2.0).sqrt(), Scalar::from_raw(1_414_214));
    assert_eq!(s(0.25).sqrt(), s(0.5));
    assert_eq!(s(0.0).sqrt(), s(0.0));
    assert_eq!(s(-4.0).sqrt(), s(0.0));
    assert_eq!(wide_root(0), 0);
    assert_eq!(wide_root(2), 1);
    assert_eq!(wide_root(3), 2);
    assert_eq!(wide_root(6), 2);
    assert_eq!(wide_root(7), 3);
    assert_eq!(wide_root(1_000_000), 1_000);
    assert_eq!(wide_root(u128::MAX), 1u128 << 64);
}

#[test]
fn clamp_keeps_within_bounds() {
    assert_eq!(f_clamp(s(1.5), s(0.0), s(1.0)), s(1.0));
    assert_eq!(f_clamp(s(-0.5), s(0.0), s(1.0)), s(0.0));
    assert_eq!(f_clamp(s(0.25), s(0.0), s(1.0)), s(0.25));
}

#[test]
fn largest_and_smallest_of_a_list() {
    assert_eq!(f_max_all(vec![s(1.0), s(-3.0), s(2.5)]), s(2.5));
    assert_eq!(f_min_all(vec![s(1.0), s(-3.0), s(2.5)]), s(-3.0));
    assert_eq!(f_max_all(vec![]), Scalar::neg_infinity());
    assert_eq!(f_min_all(vec![]), Scalar::infinity());
}

#[test]
fn schlick_reflectance() {
    // r0 = ((1 - 1.5) / (1 + 1.5))^2 = 0.04; at normal incidence nothing is added.
    assert_eq!(schlick(s(1.0), s(1.0), s(1.5)), s(0.04));
    // At grazing incidence everything is reflected.
    assert_eq!(schlick(s(0.0), s(1.0), s(1.5)), s(1.0));
    let mid = schlick(s(0.5), s(1.0), s(1.5));
    assert_eq!(mid, s(0.07));
    for step in 0..=10 {
        let r = schlick(s(step as f64 / 10.0), s(1.0), s(1.52));
        assert!(r.raw >= schlick(s(1.0), s(1.0), s(1.52)).raw);
        assert!(r.raw <= 1_000_000);
    }
}

#[test]
fn decimal_logarithm() {
    assert_eq!(neg_log10(s(1.0)), s(0.0));
    assert_eq!(neg_log10(s(0.1)), s(1.0));
    assert_eq!(neg_log10(s(0.001)), s(3.0));
    assert_eq!(neg_log10(s(100.0)), s(-2.0));
    assert_eq!(neg_log10(s(0.0)), Scalar::infinity());
    assert_eq!(neg_log10(s(-1.0)), Scalar::infinity());
    let half = neg_log10(s(0.5));
    assert!((half.raw - 301_030).abs() <= 2, "{:?}", half);
    let two = neg_log10(s(2.0));
    assert!((two.raw + 301_030).abs() <= 2, "{:?}", two);
}
