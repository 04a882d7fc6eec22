use unirand::colour::clamp_u8;
use unirand::generator::MarsagliaUniRng;

#[test]
fn values_in_range_are_kept() {
    assert_eq!(clamp_u8(0), 0);
    assert_eq!(clamp_u8(1), 1);
    assert_eq!(clamp_u8(128), 128);
    assert_eq!(clamp_u8(254), 254);
    assert_eq!(clamp_u8(255), 255);
}

#[test]
fn values_above_the_range_saturate() {
    assert_eq!(clamp_u8(256), 255);
    assert_eq!(clamp_u8(300), 255);
    assert_eq!(clamp_u8(511), 255);
    assert_eq!(clamp_u8(i64::MAX), 255);
}

#[test]
fn values_below_the_range_saturate() {
    assert_eq!(clamp_u8(-1), 0);
    assert_eq!(clamp_u8(-256), 0);
    assert_eq!(clamp_u8(i64::MIN), 0);
}

#[test]
fn channels_of_jittered_pixels_stay_bytes() {
    let mut rng = MarsagliaUniRng::initialise(12345).unwrap();
    let mut n = 0.0f64;
    while n <= 1.0 {
        let r = (rng.generate() as f32 / 16777216.0) as f64;
        let g = (rng.generate() as f32 / 16777216.0) as f64;
        let b = (rng.generate() as f32 / 16777216.0) as f64;
        let red = n * r * 255.0;
        let green = (1.0 - n) * g * 255.0;
        let blue = (0.5 - (n - 0.5).abs()) * 2.0 * b * 255.0;
        for raw in [red, green, blue] {
            let byte = clamp_u8(raw as i64);
            assert_eq!(byte as i64, (raw as i64).clamp(0, 255));
            assert!(raw >= 0.0 && raw < 255.0);
            assert_eq!(byte as f64, raw.floor());
        }
        n += 1.0 / 1024.0;
    }
}

#[test]
fn a_raw_product_beyond_the_byte_range_does_not_wrap() {
    let raw = 1.2f64 * 0.999 * 255.0;
    assert!(raw > 255.0);
    assert_eq!(clamp_u8(raw as i64), 255);
    assert_eq!(clamp_u8((-0.3f64 * 255.0) as i64), 0);
    assert_eq!(clamp_u8(f64::NAN as i64), 0);
    assert_eq!(clamp_u8(f64::INFINITY as i64), 255);
    assert_eq!(clamp_u8(f64::NEG_INFINITY as i64), 0);
}
