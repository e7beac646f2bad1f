//! Torus arithmetic, the bit encoding, and gadget decomposition.

use ghost_tfhe::encoding::{decode_bit, encode_bit};
use ghost_tfhe::tgsw::{TgswParams, TgswSample};
use ghost_tfhe::torus::Torus;

fn tor(x: f64) -> Torus {
    let frac = x.rem_euclid(1.0);
    Torus::new((frac * 18446744073709551616.0) as u64)
}

fn val(t: &Torus) -> f64 {
    t.value() as f64 / 18446744073709551616.0
}

#[test]
fn test_torus_wrapping() {
    // 0.75 + 0.75 = 1.5, which wraps to 0.5
    let t1 = tor(0.75).add(&tor(0.75));
    assert!((val(&t1) - 0.5).abs() < 1e-10);

    // -0.3 wraps to 0.7
    let t2 = Torus::of_int(-((0.3 * 18446744073709551616.0) as i64));
    assert!((val(&t2) - 0.7).abs() < 1e-10);
}

#[test]
fn test_torus_addition() {
    let t1 = tor(0.7);
    let t2 = tor(0.5);
    let result = t1.add(&t2);

    assert!((val(&result) - 0.2).abs() < 1e-10);
}

#[test]
fn test_torus_subtraction() {
    let t1 = tor(0.3);
    let t2 = tor(0.5);
    let result = t1.sub(&t2);

    assert!((val(&result) - 0.8).abs() < 1e-10);
}

#[test]
fn test_torus_scalar_mul() {
    let t = tor(0.3);
    let r = t.mul_scalar(3);
    assert!((val(&r) - 0.9).abs() < 1e-10);
    let neg = t.mul_scalar(-1);
    assert!((val(&neg) - 0.7).abs() < 1e-10);
}

#[test]
fn test_torus_round() {
    let t = tor(0.3);
    let r = t.round(2);
    // nearest multiple of 1/4
    assert!((val(&r) - 0.25).abs() < 1e-10);
}

#[test]
fn test_encode_decode() {
    let zero = encode_bit(false);
    let one = encode_bit(true);

    assert_eq!(decode_bit(&zero), false);
    assert_eq!(decode_bit(&one), true);
}

#[test]
fn test_decode_with_noise() {
    // Even with small noise, decoding should work
    let noisy_zero = tor(0.05); // Close to 0
    let noisy_one = tor(0.23); // Close to 0.25

    assert_eq!(decode_bit(&noisy_zero), false);
    assert_eq!(decode_bit(&noisy_one), true);
}

#[test]
fn test_tgsw_decompose() {
    let params = TgswParams::default();
    let value = tor(0.123456);
    let decomposed = TgswSample::decompose(&value, &params);

    assert_eq!(decomposed.len(), params.l);

    let half_bg = (1i64 << params.bg_bit) / 2;
    for digit in &decomposed {
        assert!(*digit >= -half_bg && *digit < half_bg);
    }
}

#[test]
fn test_decompose_round_trip() {
    // Recomposing the digits lands within Bg^-l of the input.
    let params = TgswParams::default();
    let value = tor(0.6789);
    let d = TgswSample::decompose(&value, &params);
    let bg = 2f64.powi(params.bg_bit as i32);
    let mut recomposed = 0f64;
    for (j, digit) in d.iter().enumerate() {
        recomposed += (*digit as f64) * bg.powi(-(j as i32 + 1));
    }
    let mut err = (recomposed.rem_euclid(1.0) - val(&value)).abs();
    if err > 0.5 {
        err = 1.0 - err;
    }
    assert!(err < bg.powi(-(params.l as i32)));
}
