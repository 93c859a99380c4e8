//! Double-precision numbers by bit pattern, against the machine's own.

use astrotui::binary64::Binary64;

fn num(x: f64) -> Binary64 {
    Binary64::from_bits(x.to_bits())
}

/// Numbers of every kind: zeros, subnormals, neighbours of powers of two, infinities, and those
/// that are none.
fn sampler() -> Vec<f64> {
    let mut out = vec![
        0.0,
        5e-324,
        2.2250738585072009e-308,
        2.2250738585072014e-308,
        0.1,
        0.25,
        0.49999999999999994,
        0.5,
        1.0,
        1.5,
        2.0,
        3.0,
        4095.75,
        4503599627370495.5,
        4503599627370495.0,
        1e300,
        f64::MAX,
        f64::INFINITY,
        f64::NAN,
        f64::from_bits(0x7FF0_0000_0000_0001),
    ];
    let mut bits: u64 = 0x0123_4567_89AB_CDEF;
    for _ in 0..200 {
        bits = bits.wrapping_mul(6_364_136_223_846_793_005).wrapping_add(1_442_695_040_888_963_407);
        out.push(f64::from_bits(bits));
        out.push(f64::from_bits(0x3FF0_0000_0000_0000 + (bits >> 10)));
    }
    let negated: Vec<f64> = out.iter().map(|x| -x).collect();
    out.extend(negated);
    out
}

#[test]
fn comparisons_are_those_of_doubles() {
    let all = sampler();
    for &a in &all {
        assert_eq!(num(a).is_finite(), a.is_finite(), "{a:e}");
        assert_eq!(num(a).is_nan(), a.is_nan(), "{a:e}");
        assert_eq!(num(a).to_bits(), a.to_bits());
        for &b in &all {
            assert_eq!(num(a).lt(num(b)), a < b, "{a:e} < {b:e}");
            assert_eq!(num(a).le(num(b)), a <= b, "{a:e} <= {b:e}");
        }
    }
}

#[test]
fn floors_are_those_of_scaled_doubles() {
    for x in sampler() {
        // Where scaling is exact and the floor fits, it is the machine's own.
        for k in 0..3u64 {
            let scaled = x * f64::from(1u32 << k);
            if x >= 0.0 && scaled < 4.5e15 {
                assert_eq!(num(x).floor_shl(k), scaled.floor() as u64, "{x:e} by 2^{k}");
            }
        }
    }
    assert_eq!(num(2.75).floor_shl(0), 2);
    assert_eq!(num(2.75).floor_shl(1), 5);
    assert_eq!(num(2.75).floor_shl(2), 11);
    assert_eq!(num(-0.0).floor_shl(2), 0);
}
