use sensor_stats::reading::{is_above, INFINITY, SIGN};

fn sample_readings() -> Vec<f64> {
    vec![
        f64::NEG_INFINITY,
        f64::MIN,
        -1.0e300,
        -1234.5,
        -2.0,
        -1.0,
        -0.5,
        -f64::MIN_POSITIVE,
        -5e-324,
        -0.0,
        0.0,
        5e-324,
        f64::MIN_POSITIVE,
        0.5,
        1.0,
        1.0 + f64::EPSILON,
        2.0,
        50.0,
        1234.5,
        1.0e300,
        f64::MAX,
        f64::INFINITY,
        f64::NAN,
        -f64::NAN,
    ]
}

#[test]
fn order_agrees_with_floating_comparison() {
    let samples = sample_readings();
    for a in samples.iter() {
        for b in samples.iter() {
            assert_eq!(
                is_above(a.to_bits(), b.to_bits()),
                a > b,
                "{a} against {b}"
            );
        }
    }
}

#[test]
fn reading_equal_to_threshold_is_not_above() {
    for a in sample_readings().iter() {
        assert!(!is_above(a.to_bits(), a.to_bits()));
    }
    assert!(!is_above(50.0f64.to_bits(), 50.0f64.to_bits()));
}

#[test]
fn the_two_zeros_do_not_exceed_each_other() {
    let plus = 0.0f64.to_bits();
    let minus = (-0.0f64).to_bits();
    assert_ne!(plus, minus);
    assert!(!is_above(plus, minus));
    assert!(!is_above(minus, plus));
}

#[test]
fn next_pattern_up_is_above() {
    let threshold = 50.0f64.to_bits();
    assert!(is_above(threshold + 1, threshold));
    assert!(!is_above(threshold - 1, threshold));
    let negative = (-50.0f64).to_bits();
    assert!(is_above(negative - 1, negative));
    assert!(!is_above(negative + 1, negative));
}

#[test]
fn not_a_number_is_never_above_nor_below() {
    let nan = f64::NAN.to_bits();
    let quiet = INFINITY + 1;
    let negative = SIGN + INFINITY + 12345;
    for a in sample_readings().iter() {
        assert!(!is_above(nan, a.to_bits()));
        assert!(!is_above(a.to_bits(), nan));
        assert!(!is_above(quiet, a.to_bits()));
        assert!(!is_above(a.to_bits(), quiet));
        assert!(!is_above(negative, a.to_bits()));
        assert!(!is_above(a.to_bits(), negative));
    }
}

#[test]
fn infinities_bound_every_number() {
    let top = f64::INFINITY.to_bits();
    let bottom = f64::NEG_INFINITY.to_bits();
    assert_eq!(top, INFINITY);
    assert_eq!(bottom, SIGN + INFINITY);
    assert!(is_above(top, f64::MAX.to_bits()));
    assert!(is_above(f64::MIN.to_bits(), bottom));
    assert!(is_above(top, bottom));
    assert!(!is_above(bottom, top));
}

#[test]
fn order_is_asymmetric_and_transitive_on_samples() {
    let samples = sample_readings();
    for a in samples.iter() {
        for b in samples.iter() {
            let ab = is_above(a.to_bits(), b.to_bits());
            if ab {
                assert!(!is_above(b.to_bits(), a.to_bits()));
            }
            for c in samples.iter() {
                if ab && is_above(b.to_bits(), c.to_bits()) {
                    assert!(is_above(a.to_bits(), c.to_bits()));
                }
            }
        }
    }
}
