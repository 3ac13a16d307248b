use textplots::sample::{is_finite_value, is_normal_value, max_value, min_value, range_values};

#[test]
fn normal_classification() {
    assert!(is_normal_value(1.0f32.to_bits()));
    assert!(is_normal_value((-3.5f32).to_bits()));
    assert!(is_normal_value(f32::MIN_POSITIVE.to_bits()));
    assert!(!is_normal_value(0.0f32.to_bits()));
    assert!(!is_normal_value((-0.0f32).to_bits()));
    assert!(!is_normal_value(1.0e-40f32.to_bits()));
    assert!(!is_normal_value(f32::NAN.to_bits()));
    assert!(!is_normal_value(f32::INFINITY.to_bits()));
    assert!(!is_normal_value(f32::NEG_INFINITY.to_bits()));
}

#[test]
fn finite_classification() {
    assert!(is_finite_value(0.0f32.to_bits()));
    assert!(is_finite_value(1.0e-40f32.to_bits()));
    assert!(is_finite_value(f32::MAX.to_bits()));
    assert!(!is_finite_value(f32::NAN.to_bits()));
    assert!(!is_finite_value(f32::INFINITY.to_bits()));
    assert!(!is_finite_value(f32::NEG_INFINITY.to_bits()));
}

#[test]
fn min_max_order_values() {
    let pairs = [
        (-2.0f32, 1.5f32),
        (3.0, 7.25),
        (-8.0, -0.125),
        (0.0, 5.0),
        (-5.0, 0.0),
        (f32::MIN, f32::MAX),
    ];
    for &(a, b) in &pairs {
        assert_eq!(min_value(a.to_bits(), b.to_bits()), a.to_bits());
        assert_eq!(min_value(b.to_bits(), a.to_bits()), a.to_bits());
        assert_eq!(max_value(a.to_bits(), b.to_bits()), b.to_bits());
        assert_eq!(max_value(b.to_bits(), a.to_bits()), b.to_bits());
    }
}

#[test]
fn min_max_zero_tie_keeps_left() {
    // -0.0 and +0.0 encode equal values; on a tie the left pattern wins.
    let neg = (-0.0f32).to_bits();
    let pos = 0.0f32.to_bits();
    assert_eq!(min_value(neg, pos), neg);
    assert_eq!(min_value(pos, neg), pos);
    assert_eq!(max_value(neg, pos), neg);
    assert_eq!(max_value(pos, neg), pos);
}

#[test]
fn range_skips_non_finite() {
    let ys = vec![
        f32::INFINITY.to_bits(),
        1.0f32.to_bits(),
        f32::NAN.to_bits(),
        (-2.0f32).to_bits(),
        f32::NEG_INFINITY.to_bits(),
    ];
    let (lo, hi) = range_values(&ys);
    assert_eq!(lo, (-2.0f32).to_bits());
    assert_eq!(hi, 1.0f32.to_bits());
}

#[test]
fn range_of_empty_is_zero() {
    let (lo, hi) = range_values(&Vec::new());
    assert_eq!(lo, 0.0f32.to_bits());
    assert_eq!(hi, 0.0f32.to_bits());
}

#[test]
fn range_of_only_non_finite_is_zero() {
    let ys = vec![f32::NAN.to_bits(), f32::INFINITY.to_bits()];
    let (lo, hi) = range_values(&ys);
    assert_eq!(lo, 0.0f32.to_bits());
    assert_eq!(hi, 0.0f32.to_bits());
}

#[test]
fn range_keeps_subnormals_and_zeros() {
    let tiny = 1.0e-40f32;
    let ys = vec![tiny.to_bits(), 0.0f32.to_bits(), 2.0f32.to_bits()];
    let (lo, hi) = range_values(&ys);
    assert_eq!(lo, 0.0f32.to_bits());
    assert_eq!(hi, 2.0f32.to_bits());
}
