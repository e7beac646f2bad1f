//! Multi-bit circuits: adders, shifts, comparisons, parity chains.

use ghost_tfhe::operations::HomomorphicOps;
use ghost_tfhe::tfhe::{TfheCloudKey, TfheEncoder, TfheGates, TfheParams, TfheSecretKey};
use ghost_tfhe::tgsw::TgswParams;
use ghost_tfhe::tlwe::TlweParams;

fn sigma_t(x: f64) -> u64 {
    (x * 18446744073709551616.0) as u64
}

fn params(n: usize, l: usize, bg_bit: u32) -> TfheParams {
    let tlwe_params = TlweParams { n, stddev: sigma_t(1e-9) };
    let tgsw_params = TgswParams { l, bg_bit, tlwe_params };
    TfheParams { tlwe_params, tgsw_params, n, big_n: n, k: 1 }
}

fn keys(p: TfheParams) -> (TfheSecretKey, TfheCloudKey) {
    let sk = TfheSecretKey::generate(p);
    let ck = TfheCloudKey::generate(&sk);
    (sk, ck)
}

#[test]
fn test_half_adder() {
    let p = params(32, 2, 8);
    let (sk, ck) = keys(p);

    // Test 1 + 1 = 10 (binary)
    let a = TfheEncoder::encode_bool(true, &sk);
    let b = TfheEncoder::encode_bool(true, &sk);

    let (sum, carry) = HomomorphicOps::half_adder(&a, &b, &ck);

    assert!(sum.params.n == 32);
    assert!(carry.params.n == 32);
}

#[test]
fn half_adder_decrypts_correctly() {
    let (sk, ck) = keys(params(64, 2, 10));

    let t = TfheEncoder::encode_bool(true, &sk);
    let t2 = TfheEncoder::encode_bool(true, &sk);
    let f = TfheEncoder::encode_bool(false, &sk);

    let (sum, carry) = HomomorphicOps::half_adder(&t, &t2, &ck);
    assert_eq!(TfheEncoder::decode_bool(&sum, &sk), false);
    assert_eq!(TfheEncoder::decode_bool(&carry, &sk), true);

    let (sum2, carry2) = HomomorphicOps::half_adder(&t, &f, &ck);
    assert_eq!(TfheEncoder::decode_bool(&sum2, &sk), true);
    assert_eq!(TfheEncoder::decode_bool(&carry2, &sk), false);
}

#[test]
fn test_bit_operations() {
    let p = params(16, 2, 8);
    let (sk, ck) = keys(p);

    // Test shift operations
    let bits = TfheEncoder::encode_bits(&vec![true, false, true], &sk);

    let shifted_left = HomomorphicOps::left_shift(&bits, 1, &ck);
    assert_eq!(shifted_left.len(), 3);

    let shifted_right = HomomorphicOps::right_shift(&bits, 1, &ck);
    assert_eq!(shifted_right.len(), 3);

    let dl = TfheEncoder::decode_bits(&shifted_left, &sk);
    assert_eq!(dl, vec![false, true, false]);
    let dr = TfheEncoder::decode_bits(&shifted_right, &sk);
    assert_eq!(dr, vec![false, true, false]);
}

#[test]
fn xor_ripple_gives_parity() {
    let (sk, ck) = keys(params(64, 2, 10));
    let bits = [true, false, true, true, false, false, true, true];
    let parity = bits.iter().fold(false, |acc, &b| acc ^ b);

    let encoded = TfheEncoder::encode_bits(&bits.to_vec(), &sk);
    let mut acc = encoded[0].clone_sample();
    for e in encoded.iter().skip(1) {
        acc = TfheGates::xor(&acc, e, &ck);
    }
    assert_eq!(TfheEncoder::decode_bool(&acc, &sk), parity);
}

#[test]
fn ripple_carry_adder_adds() {
    let (sk, ck) = keys(params(64, 2, 10));
    let x: u32 = 0b1011_0101;
    let y: u32 = 0b0110_1100;
    let xb: Vec<bool> = (0..8).map(|i| (x >> i) & 1 == 1).collect();
    let yb: Vec<bool> = (0..8).map(|i| (y >> i) & 1 == 1).collect();

    let ex = TfheEncoder::encode_bits(&xb, &sk);
    let ey = TfheEncoder::encode_bits(&yb, &sk);
    let sum = HomomorphicOps::add_n_bit(&ex, &ey, &ck);
    assert_eq!(sum.len(), 9);
    let out = TfheEncoder::decode_bits(&sum, &sk);
    let mut got: u32 = 0;
    for (i, bit) in out.iter().enumerate() {
        if *bit {
            got |= 1 << i;
        }
    }
    assert_eq!(got, x + y);
}

#[test]
fn bit_comparisons_follow_logic() {
    let (sk, ck) = keys(params(32, 2, 10));
    for a in [false, true] {
        for b in [false, true] {
            let ea = TfheEncoder::encode_bool(a, &sk);
            let eb = TfheEncoder::encode_bool(b, &sk);
            let eq = HomomorphicOps::equal_bit(&ea, &eb, &ck);
            assert_eq!(TfheEncoder::decode_bool(&eq, &sk), a == b);
            let gt = HomomorphicOps::greater_than_bit(&ea, &eb, &ck);
            assert_eq!(TfheEncoder::decode_bool(&gt, &sk), a && !b);
            let mx = HomomorphicOps::max_bit(&ea, &eb, &ck);
            assert_eq!(TfheEncoder::decode_bool(&mx, &sk), a || b);
            let mn = HomomorphicOps::min_bit(&ea, &eb, &ck);
            assert_eq!(TfheEncoder::decode_bool(&mn, &sk), a && b);
        }
    }
}

#[test]
fn equal_n_bit_compares_words() {
    let (sk, ck) = keys(params(32, 2, 10));
    let a = TfheEncoder::encode_bits(&vec![true, false, true], &sk);
    let b = TfheEncoder::encode_bits(&vec![true, false, true], &sk);
    let c = TfheEncoder::encode_bits(&vec![true, true, true], &sk);
    let same = HomomorphicOps::equal_n_bit(&a, &b, &ck);
    assert_eq!(TfheEncoder::decode_bool(&same, &sk), true);
    let differ = HomomorphicOps::equal_n_bit(&a, &c, &ck);
    assert_eq!(TfheEncoder::decode_bool(&differ, &sk), false);
}

#[test]
fn subtract_via_two_complement() {
    let (sk, ck) = keys(params(64, 2, 10));
    let x: u32 = 0b101;
    let y: u32 = 0b011;
    let xb: Vec<bool> = (0..3).map(|i| (x >> i) & 1 == 1).collect();
    let yb: Vec<bool> = (0..3).map(|i| (y >> i) & 1 == 1).collect();
    let ex = TfheEncoder::encode_bits(&xb, &sk);
    let ey = TfheEncoder::encode_bits(&yb, &sk);
    let diff = HomomorphicOps::subtract_n_bit(&ex, &ey, &ck);
    let out = TfheEncoder::decode_bits(&diff, &sk);
    // low three bits carry the difference 5 - 3 = 2
    let mut got: u32 = 0;
    for i in 0..3 {
        if out[i] {
            got |= 1 << i;
        }
    }
    assert_eq!(got, 2);
}
