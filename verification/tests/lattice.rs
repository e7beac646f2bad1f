//! LWE and TLWE ciphertexts: round trips, homomorphic sums, CMux selection,
//! and the noise sampler's guarantees.

use ghost_tfhe::lwe::{LweCiphertext, LweParams, LweSecretKey};
use ghost_tfhe::noise::{gaussian_noise, gaussian_torus};
use ghost_tfhe::tgsw::{TgswParams, TgswSample};
use ghost_tfhe::tlwe::{TlweKeySwitchKey, TlweParams, TlweSample, TlweSecretKey};
use ghost_tfhe::torus::Torus;

fn tor(x: f64) -> Torus {
    let frac = x.rem_euclid(1.0);
    Torus::new((frac * 18446744073709551616.0) as u64)
}

fn val(t: &Torus) -> f64 {
    t.value() as f64 / 18446744073709551616.0
}

fn sigma_t(x: f64) -> u64 {
    (x * 18446744073709551616.0) as u64
}

#[test]
fn test_lwe_encrypt_decrypt() {
    let params = LweParams { n: 10, q: 1024, stddev: 1 << 32 };

    let sk = LweSecretKey::generate_binary(params);
    let message = 42;
    let ct = LweCiphertext::encrypt(message, &sk);
    let decrypted = ct.decrypt(&sk);

    assert!((decrypted as i64 - message as i64).abs() < 10);
}

#[test]
fn test_homomorphic_addition() {
    let params = LweParams { n: 10, q: 1024, stddev: 1 << 31 };

    let sk = LweSecretKey::generate_binary(params);

    let m1 = 10;
    let m2 = 20;
    let ct1 = LweCiphertext::encrypt(m1, &sk);
    let ct2 = LweCiphertext::encrypt(m2, &sk);

    let ct_sum = ct1.add(&ct2);
    let decrypted = ct_sum.decrypt(&sk);

    assert!((decrypted as i64 - (m1 + m2) as i64).abs() < 10);
}

#[test]
fn lwe_sum_of_42_and_17() {
    let params = LweParams { n: 10, q: 1024, stddev: 1 << 32 };
    let sk = LweSecretKey::generate_binary(params);
    let ct1 = LweCiphertext::encrypt(42, &sk);
    let ct2 = LweCiphertext::encrypt(17, &sk);
    let sum = ct1.add(&ct2).decrypt(&sk);
    assert!((sum as i64 - 59).abs() < 10);
}

#[test]
fn lwe_exact_round_trip_with_tiny_noise() {
    // With a standard deviation below an integer step the sampler's hard
    // bound collapses to zero and decryption is exact.
    let params = LweParams { n: 16, q: 4096, stddev: 1 };
    let sk = LweSecretKey::generate_ternary(params);
    for m in [0u64, 1, 59, 4095] {
        let ct = LweCiphertext::encrypt(m, &sk);
        assert_eq!(ct.decrypt(&sk), m);
    }
}

#[test]
fn lwe_scalar_mul_scales_message() {
    let params = LweParams { n: 16, q: 4096, stddev: 1 };
    let sk = LweSecretKey::generate_binary(params);
    let ct = LweCiphertext::encrypt(7, &sk);
    let scaled = ct.scalar_mul(3);
    assert_eq!(scaled.decrypt(&sk), 21);
}

#[test]
fn test_gaussian_noise_distribution() {
    // Unit standard deviation scaled by 1000 so the integer grid is fine.
    let scale = 1000f64;
    let stddev = (1000u64) << 32;
    let samples: Vec<i64> = (0..10000).map(|_| gaussian_noise(stddev)).collect();

    let mean: f64 = samples.iter().map(|&x| x as f64).sum::<f64>() / samples.len() as f64;
    assert!((mean / scale).abs() < 0.1);

    let within_3std = samples.iter().filter(|&&x| (x as f64 / scale).abs() < 3.0).count();
    assert!(within_3std as f64 / samples.len() as f64 > 0.99);
}

#[test]
fn gaussian_torus_respects_hard_bound() {
    let stddev = sigma_t(1e-3);
    for _ in 0..1000 {
        let e = gaussian_torus(stddev);
        assert!(e.unsigned_abs() <= 6 * stddev);
    }
}

#[test]
fn test_tlwe_encrypt_decrypt_binary() {
    let params = TlweParams { n: 10, stddev: sigma_t(1e-9) };

    let sk = TlweSecretKey::generate_binary(params);

    let m0 = tor(0.0);
    let ct0 = TlweSample::encrypt(&m0, &sk);
    assert!(!ct0.decrypt_binary(&sk));

    let m1 = tor(0.5);
    let ct1 = TlweSample::encrypt(&m1, &sk);
    assert!(ct1.decrypt_binary(&sk));
}

#[test]
fn test_tlwe_homomorphic_ops() {
    let params = TlweParams { n: 10, stddev: sigma_t(1e-9) };

    let sk = TlweSecretKey::generate_binary(params);

    let m1 = tor(0.1);
    let m2 = tor(0.2);

    let ct1 = TlweSample::encrypt(&m1, &sk);
    let ct2 = TlweSample::encrypt(&m2, &sk);

    let ct_sum = ct1.add(&ct2);
    let phase_sum = ct_sum.decrypt_phase(&sk);
    assert!((val(&phase_sum) - 0.3).abs() < 1e-6);

    let ct_scaled = ct1.scalar_mul(3);
    let phase_scaled = ct_scaled.decrypt_phase(&sk);
    assert!((val(&phase_scaled) - 0.3).abs() < 1e-6);
}

#[test]
fn tlwe_trivial_phase_is_message() {
    let params = TlweParams { n: 12, stddev: sigma_t(1e-9) };
    let sk = TlweSecretKey::generate_ternary(params);
    let ct = TlweSample::trivial(&tor(0.375), params);
    let phase = ct.decrypt_phase(&sk);
    assert!((val(&phase) - 0.375).abs() < 1e-12);
}

#[test]
fn tlwe_keys_are_small() {
    let params = TlweParams { n: 64, stddev: sigma_t(1e-9) };
    let bin = TlweSecretKey::generate_binary(params);
    assert!(bin.coeffs.iter().all(|&c| c == 0 || c == 1));
    let ter = TlweSecretKey::generate_ternary(params);
    assert!(ter.coeffs.iter().all(|&c| -1 <= c && c <= 1));
    assert_eq!(bin.coeffs.len(), 64);
    assert_eq!(ter.coeffs.len(), 64);
}

#[test]
fn test_tgsw_cmux() {
    let tlwe_params = TlweParams { n: 10, stddev: sigma_t(1e-9) };

    let tgsw_params = TgswParams { l: 2, bg_bit: 8, tlwe_params };

    let sk = TlweSecretKey::generate_binary(tlwe_params);

    let m0 = tor(0.1);
    let m1 = tor(0.7);
    let c0 = TlweSample::encrypt(&m0, &sk);
    let c1 = TlweSample::encrypt(&m1, &sk);

    let selector = TgswSample::encrypt(1, &sk, tgsw_params);

    let result = selector.cmux(&c0, &c1);
    let decrypted = result.decrypt_phase(&sk);

    assert!((val(&decrypted) - 0.7).abs() < 0.01);

    let selector0 = TgswSample::encrypt(0, &sk, tgsw_params);
    let result0 = selector0.cmux(&c0, &c1);
    let decrypted0 = result0.decrypt_phase(&sk);

    assert!((val(&decrypted0) - 0.1).abs() < 0.01);
}

#[test]
fn tgsw_trivial_selector_selects() {
    let tlwe_params = TlweParams { n: 8, stddev: sigma_t(1e-9) };
    let tgsw_params = TgswParams { l: 2, bg_bit: 8, tlwe_params };
    let sk = TlweSecretKey::generate_binary(tlwe_params);
    let c0 = TlweSample::encrypt(&tor(0.2), &sk);
    let c1 = TlweSample::encrypt(&tor(0.9), &sk);
    let sel1 = TgswSample::trivial(1, tgsw_params);
    let picked = sel1.cmux(&c0, &c1).decrypt_phase(&sk);
    assert!((val(&picked) - 0.9).abs() < 0.01);
    let sel0 = TgswSample::trivial(0, tgsw_params);
    let picked0 = sel0.cmux(&c0, &c1).decrypt_phase(&sk);
    assert!((val(&picked0) - 0.2).abs() < 0.01);
}

#[test]
fn key_switch_key_has_declared_shape() {
    let params = TlweParams { n: 6, stddev: sigma_t(1e-9) };
    let key_in = TlweSecretKey::generate_binary(params);
    let key_out = TlweSecretKey::generate_binary(params);
    let ksk = TlweKeySwitchKey::generate(&key_in, &key_out, 4, 8);
    assert_eq!(ksk.samples.len(), 6);
    assert!(ksk.samples.iter().all(|row| row.len() == 4));
    assert_eq!(ksk.t, 4);
    assert_eq!(ksk.base_bit, 8);
}
