use modscope::float_order::{
    INFINITY32, INFINITY64, ONE32, clamp_unit, is_above32, is_above64, is_at_least64, is_nan32,
    is_nan64, is_ranked_no_later, whole_part64,
};

fn doubles() -> Vec<f64> {
    vec![
        f64::NEG_INFINITY,
        f64::MIN,
        -120.0,
        -1.5,
        -1.0,
        -1e-12,
        -f64::MIN_POSITIVE,
        -5e-324,
        -0.0,
        0.0,
        5e-324,
        f64::MIN_POSITIVE,
        1e-12,
        0.15,
        0.5,
        0.999999,
        1.0,
        1.5,
        6.0,
        4503599627370495.5,
        9007199254740993.0,
        1e18,
        18446744073709549568.0,
        18446744073709551616.0,
        f64::MAX,
        f64::INFINITY,
        f64::NAN,
        -f64::NAN,
    ]
}

fn singles() -> Vec<f32> {
    doubles().into_iter().map(|d| d as f32).collect()
}

#[test]
fn constants_are_the_numbers_they_name() {
    assert_eq!(INFINITY64, f64::INFINITY.to_bits());
    assert_eq!(INFINITY32, f32::INFINITY.to_bits());
    assert_eq!(ONE32, 1.0f32.to_bits());
}

#[test]
fn doubles_compare_like_floats() {
    for a in doubles() {
        assert_eq!(is_nan64(a.to_bits()), a.is_nan());
        for b in doubles() {
            assert_eq!(is_above64(a.to_bits(), b.to_bits()), a > b, "{a} > {b}");
            assert_eq!(is_at_least64(a.to_bits(), b.to_bits()), a >= b, "{a} >= {b}");
            assert_eq!(
                is_ranked_no_later(a.to_bits(), b.to_bits()),
                a.total_cmp(&b).is_le(),
                "{a} {b}"
            );
        }
    }
}

#[test]
fn singles_compare_like_floats() {
    for a in singles() {
        assert_eq!(is_nan32(a.to_bits()), a.is_nan());
        for b in singles() {
            assert_eq!(is_above32(a.to_bits(), b.to_bits()), a > b, "{a} > {b}");
        }
    }
}

#[test]
fn clamping_agrees_with_floats() {
    for a in singles() {
        let clamped = f32::from_bits(clamp_unit(a.to_bits()));
        if a.is_nan() {
            assert!(clamped.is_nan());
        } else {
            assert_eq!(clamped, a.clamp(0.0, 1.0));
            assert_eq!(clamp_unit(clamp_unit(a.to_bits())), clamp_unit(a.to_bits()));
        }
    }
}

#[test]
fn whole_parts_agree_with_casts() {
    for a in doubles() {
        assert_eq!(whole_part64(a.to_bits()), a.max(0.0) as u64, "{a}");
    }
    let mut x = 0.3;
    for _ in 0..80 {
        assert_eq!(whole_part64(f64::to_bits(x)), x as u64, "{x}");
        x *= 1.9;
    }
}
