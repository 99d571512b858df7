use noise_road::shade::{noise_val_to_u8, NoiseValue, MAX_DENOM};

fn level(numer: i128, denom: i128) -> u8 {
    noise_val_to_u8(&NoiseValue::new(numer, denom).unwrap())
}

#[test]
fn value_needs_positive_bounded_denominator() {
    assert!(NoiseValue::new(1, 0).is_none());
    assert!(NoiseValue::new(1, -4).is_none());
    assert!(NoiseValue::new(1, MAX_DENOM + 1).is_none());
    let v = NoiseValue::new(-3, MAX_DENOM).unwrap();
    assert_eq!((v.numer(), v.denom()), (-3, MAX_DENOM));
}

#[test]
fn intensity_of_zero_is_zero() {
    assert_eq!(level(0, 1), 0);
    assert_eq!(level(0, 1_000_000), 0);
}

#[test]
fn intensity_just_below_one_is_white() {
    assert_eq!(level(999_999, 1_000_000), 255);
    assert_eq!(level(MAX_DENOM - 1, MAX_DENOM), 255);
    assert_eq!(level(254, 255), 254);
    assert_eq!(level(2541, 2550), 255);
}

#[test]
fn intensity_of_one_is_zero() {
    assert_eq!(level(1, 1), 0);
    assert_eq!(level(1_000_000, 1_000_000), 0);
    assert_eq!(level(7, 1), 0);
    assert_eq!(level(-7, 1), 0);
    assert_eq!(level(-12, 4), 0);
}

#[test]
fn intensity_of_half_is_128() {
    assert_eq!(level(1, 2), 128);
    assert_eq!(level(5, 10), 128);
}

#[test]
fn intensity_rounds_up() {
    assert_eq!(level(1, 255), 1);
    assert_eq!(level(1, 256), 1);
    assert_eq!(level(1, MAX_DENOM), 1);
    assert_eq!(level(2, 255), 2);
    assert_eq!(level(2, 254), 3);
    assert_eq!(level(1, 4), 64);
    assert_eq!(level(3, 4), 192);
}

#[test]
fn intensity_of_minus_quarter_wraps() {
    assert_eq!(level(-1, 4), 193);
    assert_eq!(level(-250_000, 1_000_000), 193);
}

#[test]
fn negative_values_wrap_from_white_down() {
    assert_eq!(level(-1, 1000), 0);
    assert_eq!(level(-1, 255), 255);
    assert_eq!(level(-2, 255), 254);
    assert_eq!(level(-1, 2), 129);
    assert_eq!(level(-999, 1000), 2);
    assert_eq!(level(-(MAX_DENOM - 1), MAX_DENOM), 2);
}

#[test]
fn intensity_uses_fractional_part_only() {
    assert_eq!(level(5, 2), 128);
    assert_eq!(level(-9, 4), 193);
    assert_eq!(level(1_250_000, 1_000_000), 64);
    assert_eq!(level(i128::MAX, 1), 0);
    assert_eq!(level(i128::MIN, 1), 0);
    assert_eq!(level(i128::MIN, 3), level(-2, 3));
    assert_eq!(level(i128::MAX, 3), level(1, 3));
}

#[test]
fn intensity_matches_ceiling_on_unit_interval() {
    for denom in [1i128, 2, 3, 7, 255, 256, 1000] {
        for numer in 0..denom {
            let shade = level(numer, denom) as i128;
            assert!(shade * denom >= 255 * numer);
            assert!((shade - 1) * denom < 255 * numer);
        }
    }
}

/// The gray level computed in double-precision floating point, with the
/// rounded-up number cut to its lowest eight bits.
fn float_level(value: f64) -> u8 {
    (((value % 1.0) * 255.0).ceil() as i64).rem_euclid(256) as u8
}

#[test]
fn intensity_agrees_with_float_arithmetic() {
    assert_eq!(float_level(0.5), 128);
    assert_eq!(float_level(-0.25), 193);
    for numer in -4096i128..=4096 {
        assert_eq!(level(numer, 1024), float_level(numer as f64 / 1024.0));
    }
    for numer in (-200_000i128..=200_000).step_by(37) {
        assert_eq!(level(numer, 65536), float_level(numer as f64 / 65536.0));
    }
}
