use runt_core::float::{round_through_double, F32};

fn f(v: f32) -> F32 {
    F32(v.to_bits())
}

#[test]
fn casts_agree_with_the_machine() {
    for v in [
        0.0f32, -0.0, 0.4, -0.9, 1.0, 2.5, -2.5, 1e9, -1e9, 8388609.0, 16777216.0, 9.2e18, -9.3e18, 1e30, f32::INFINITY,
        f32::NEG_INFINITY, f32::NAN, f32::MIN_POSITIVE, 1e-40,
    ] {
        assert_eq!(f(v).to_i64(), v as i64, "{v}");
        assert_eq!(f(v).is_nan(), v.is_nan());
        assert_eq!(f(v).is_finite(), v.is_finite());
        for w in [0.0f32, -0.0, 1.0, -1.0, 2.5, -2.5, f32::NAN, f32::INFINITY] {
            assert_eq!(f(v).lt(f(w)), v < w, "{v} {w}");
            assert_eq!(f(v).same(f(w)), v == w, "{v} {w}");
        }
        assert_eq!(f(v).clamp(f(-2.0), f(3.0)).0, v.clamp(-2.0, 3.0).to_bits());
    }
    for n in [
        0i64, 1, -1, 3, 255, 16777215, 16777216, 16777217, 16777219, -16777217, 123456789012345, i64::MAX, i64::MIN,
        i64::MIN + 1, 9007199254740993, 9007199254740995, -9007199254740993, 1 << 62,
    ] {
        assert_eq!(F32::from_i64(n).0, (n as f32).to_bits(), "{n}");
        assert_eq!(round_through_double(n), n as f64 as i64, "{n}");
    }
}
