use terrain::scalar::{Scalar, Vec3};

fn s(x: f32) -> Scalar {
    Scalar::from_bits(x.to_bits())
}

/// Numbers of every sort: zeros, subnormals, whole numbers and their
/// neighbours, infinities and NaNs, and a spread of other bit patterns.
fn numbers() -> Vec<f32> {
    let mut all = vec![
        0.0,
        -0.0,
        1.0,
        -1.0,
        0.5,
        -0.5,
        1e-9,
        1e-45,
        -1e-45,
        f32::MIN_POSITIVE,
        f32::MAX,
        f32::MIN,
        f32::INFINITY,
        f32::NEG_INFINITY,
        f32::NAN,
        -f32::NAN,
        0.99999994,
        2147483647.0,
        -2147483648.0,
        4294967295.0,
        4294967040.0,
        16777216.0,
        8388607.5,
        2097151.9,
        200000.0,
    ];
    let mut x: u32 = 12345;
    for _ in 0..200 {
        x = x.wrapping_mul(1664525).wrapping_add(1013904223);
        all.push(f32::from_bits(x));
        all.push((x >> 8) as f32 / 1000.0 - 8000.0);
    }
    all
}

#[test]
fn order_agrees_with_the_machine() {
    let all = numbers();
    for &a in &all {
        assert_eq!(s(a).is_nan(), a.is_nan());
        for &b in &all {
            assert_eq!(s(a).lt(s(b)), a < b, "{a} < {b}");
            assert_eq!(s(a).same(s(b)), a == b, "{a} == {b}");
        }
    }
}

#[test]
fn limits_agree_with_the_machine() {
    let all = numbers();
    for &a in &all {
        assert_eq!(s(a).abs().bits, a.abs().to_bits());
        for &b in &all {
            if a.is_nan() && b.is_nan() {
                assert!(s(a).max(s(b)).is_nan() && s(a).min(s(b)).is_nan());
            } else if a != b {
                assert_eq!(s(a).max(s(b)).bits, a.max(b).to_bits(), "{a} max {b}");
                assert_eq!(s(a).min(s(b)).bits, a.min(b).to_bits(), "{a} min {b}");
            }
        }
        let limited = s(a).clamp(s(-2.5), s(1000.0));
        if a.is_nan() {
            assert!(limited.is_nan());
        } else {
            assert_eq!(limited.bits, a.clamp(-2.5, 1000.0).to_bits());
        }
    }
}

#[test]
fn rounding_agrees_with_the_machine() {
    for a in numbers() {
        assert_eq!(s(a).to_u32(), a as u32, "{a}");
        assert_eq!(s(a).floor_to_i32(), a.floor() as i32, "{a}");
        assert_eq!(s(a).quantise(), (a * 1024.0) as i32, "{a}");
    }
}

#[test]
fn bytes_over_255_agree_with_the_machine() {
    for byte in 0..=255u8 {
        assert_eq!(Scalar::from_unit_byte(byte).bits, (byte as f32 / 255.0).to_bits());
    }
}

#[test]
fn fractions_agree_with_the_machine() {
    let mut k: u32 = 0;
    while k < 0x100_0000 {
        let expected = k as f32 / (1 << 24) as f32;
        assert_eq!(Scalar::from_fraction24(k).bits, expected.to_bits());
        k += 4099;
    }
    assert_eq!(Scalar::from_fraction24(0xFF_FFFF).bits, 0.99999994f32.to_bits());
}

#[test]
fn boxes_grow_componentwise() {
    let a = Vec3 { x: s(1.0), y: s(f32::NAN), z: s(-3.0) };
    let b = Vec3 { x: s(2.0), y: s(5.0), z: s(-4.0) };
    assert_eq!(a.min(b), Vec3 { x: s(1.0), y: s(5.0), z: s(-4.0) });
    assert_eq!(a.max(b), Vec3 { x: s(2.0), y: s(5.0), z: s(-3.0) });
    let c = b.min(a);
    assert!(c.y.is_nan());
}

#[test]
fn truncation_is_monotone() {
    let all = numbers();
    for &a in &all {
        for &b in &all {
            if !b.is_nan() && !(b < a) {
                assert!(s(a).to_u32() <= s(b).to_u32());
            }
        }
    }
}
