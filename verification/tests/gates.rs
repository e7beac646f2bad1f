//! The Boolean layer: encoder round trips, truth tables for every gate, the
//! bootstrap's noise reset, and the literal gate scenarios.

use ghost_tfhe::tfhe::{TfheCloudKey, TfheEncoder, TfheGates, TfheParams, TfheSecretKey};
use ghost_tfhe::tgsw::TgswParams;
use ghost_tfhe::tlwe::{TlweParams, TlweSample};
use ghost_tfhe::torus::Torus;

fn sigma_t(x: f64) -> u64 {
    (x * 18446744073709551616.0) as u64
}

fn params(n: usize, l: usize, bg_bit: u32) -> TfheParams {
    let tlwe_params = TlweParams { n, stddev: sigma_t(1e-9) };
    let tgsw_params = TgswParams { l, bg_bit, tlwe_params };
    TfheParams { tlwe_params, tgsw_params, n, big_n: n, k: 1 }
}

fn keys(p: TfheParams) -> (TfheSecretKey, TfheCloudKey) {
    let sk = TfheSecretKey::generate(p);
    let ck = TfheCloudKey::generate(&sk);
    (sk, ck)
}

#[test]
fn test_encoder_decoder() {
    let p = params(10, 2, 8);
    let sk = TfheSecretKey::generate(p);

    let enc_true = TfheEncoder::encode_bool(true, &sk);
    let dec_true = TfheEncoder::decode_bool(&enc_true, &sk);
    assert_eq!(dec_true, true);

    let enc_false = TfheEncoder::encode_bool(false, &sk);
    let dec_false = TfheEncoder::decode_bool(&enc_false, &sk);
    assert_eq!(dec_false, false);

    let bits = vec![true, false, true, true, false];
    let encoded = TfheEncoder::encode_bits(&bits, &sk);
    let decoded = TfheEncoder::decode_bits(&encoded, &sk);
    assert_eq!(decoded, bits);
}

#[test]
fn test_tfhe_gates() {
    // Affine pre-combinations on fresh encodings: with true at 1/8 and false
    // at 7/8, both true+true and true-false land at a quarter turn.
    let p = params(10, 2, 8);
    let sk = TfheSecretKey::generate(p);

    let a_true = TfheEncoder::encode_bool(true, &sk);
    let b_true = TfheEncoder::encode_bool(true, &sk);
    let a_false = TfheEncoder::encode_bool(false, &sk);

    let result_and = a_true.add(&b_true);
    let phase = result_and.decrypt_phase(&sk.tlwe_key);
    let v = phase.value() as f64 / 18446744073709551616.0;
    assert!(v > 0.2 && v < 0.3);

    let result_xor = a_true.sub(&a_false);
    let phase_xor = result_xor.decrypt_phase(&sk.tlwe_key);
    let vx = phase_xor.value() as f64 / 18446744073709551616.0;
    assert!(vx > 0.2 && vx < 0.3);
}

fn gate_case(
    ck: &TfheCloudKey,
    sk: &TfheSecretKey,
    gate: impl Fn(&TlweSample, &TlweSample, &TfheCloudKey) -> TlweSample,
    a: bool,
    b: bool,
) -> bool {
    let ea = TfheEncoder::encode_bool(a, sk);
    let eb = TfheEncoder::encode_bool(b, sk);
    let r = gate(&ea, &eb, ck);
    TfheEncoder::decode_bool(&r, sk)
}

#[test]
fn nand_truth_table() {
    let (sk, ck) = keys(params(64, 2, 10));
    for (a, b) in [(false, false), (false, true), (true, false), (true, true)] {
        assert_eq!(gate_case(&ck, &sk, TfheGates::nand, a, b), !(a && b));
    }
}

#[test]
fn and_truth_table() {
    let (sk, ck) = keys(params(64, 2, 10));
    for (a, b) in [(false, false), (false, true), (true, false), (true, true)] {
        assert_eq!(gate_case(&ck, &sk, TfheGates::and, a, b), a && b);
    }
}

#[test]
fn or_truth_table() {
    let (sk, ck) = keys(params(64, 2, 10));
    for (a, b) in [(false, false), (false, true), (true, false), (true, true)] {
        assert_eq!(gate_case(&ck, &sk, TfheGates::or, a, b), a || b);
    }
}

#[test]
fn xor_truth_table() {
    let (sk, ck) = keys(params(64, 2, 10));
    for (a, b) in [(false, false), (false, true), (true, false), (true, true)] {
        assert_eq!(gate_case(&ck, &sk, TfheGates::xor, a, b), a ^ b);
    }
}

#[test]
fn not_truth_table() {
    let (sk, ck) = keys(params(64, 2, 10));
    for a in [false, true] {
        let ea = TfheEncoder::encode_bool(a, &sk);
        let r = TfheGates::not(&ea, &ck);
        assert_eq!(TfheEncoder::decode_bool(&r, &sk), !a);
    }
}

#[test]
fn mux_truth_table() {
    let (sk, ck) = keys(params(32, 2, 10));
    for s in [false, true] {
        for a in [false, true] {
            for b in [false, true] {
                let es = TfheEncoder::encode_bool(s, &sk);
                let ea = TfheEncoder::encode_bool(a, &sk);
                let eb = TfheEncoder::encode_bool(b, &sk);
                let r = TfheGates::mux(&es, &ea, &eb, &ck);
                let expected = if s { a } else { b };
                assert_eq!(TfheEncoder::decode_bool(&r, &sk), expected);
            }
        }
    }
}

#[test]
fn nand_with_larger_ring() {
    // The NAND scenario at a reduced parameter set with the full gadget:
    // ring degree 128, three levels in base 2^10.
    let (sk, ck) = keys(params(128, 3, 10));
    assert_eq!(gate_case(&ck, &sk, TfheGates::nand, true, true), false);
    assert_eq!(gate_case(&ck, &sk, TfheGates::nand, true, false), true);
    assert_eq!(gate_case(&ck, &sk, TfheGates::nand, false, true), true);
    assert_eq!(gate_case(&ck, &sk, TfheGates::nand, false, false), true);
}

#[test]
fn bootstrap_resets_noise() {
    // Feed an input whose noise eats 80% of the decision margin; the output
    // is still correct and its noise is back at the fresh level (under 20%
    // of the margin).
    let p = params(128, 3, 10);
    let (sk, ck) = keys(p);
    let enc = TfheEncoder::encode_bool(true, &sk);
    // push the phase from 1/8 by +0.1: still inside the lower half turn
    let drift = TlweSample::trivial(
        &Torus::new(sigma_t(0.1)),
        p.tlwe_params,
    );
    let noisy = enc.add(&drift);
    // refresh through an OR with a trivial false: OR(x, false) == x
    let falsum = TlweSample::trivial(&Torus::new(ghost_tfhe::tfhe::MU_FALSE), p.tlwe_params);
    let refreshed = TfheGates::or(&noisy, &falsum, &ck);
    assert_eq!(TfheEncoder::decode_bool(&refreshed, &sk), true);
    let phase = refreshed.decrypt_phase(&sk.tlwe_key).value() as f64 / 18446744073709551616.0;
    let err = (phase - 0.125).abs();
    assert!(err < 0.025, "output noise {} above a fifth of the margin", err);
}
