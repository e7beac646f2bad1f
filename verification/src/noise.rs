//! Noise and randomness sources.
//!
//! The Gaussian sampler adds twelve centred uniform 64-bit words and scales
//! the sum once (the classic central-limit construction), so every sample is
//! exact integer arithmetic and carries a hard bound: a sample of standard
//! deviation `sigma` never exceeds `6 * sigma` in magnitude.  The correctness
//! lemmas of the ciphertext modules build on that bound.

use vstd::prelude::*;
use vstd::arithmetic::div_mod::{
    lemma_div_basics_4, lemma_div_is_ordered, lemma_div_is_ordered_by_denominator,
    lemma_div_multiples_vanish,
};
use vstd::arithmetic::mul::{lemma_mul_inequality, lemma_mul_upper_bound};
use vstd::arithmetic::power2::{
    lemma2_to64, lemma_pow2_adds, lemma_pow2_pos, lemma_pow2_strictly_increases, pow2,
};

verus! {

/// Relies on rand::random::<u64>: one word from the thread-local generator,
/// uniform over all 64-bit values. Nothing is promised of a random result.
#[verifier::external_body]
pub(crate) fn random_u64() -> u64 {
    rand::random::<u64>()
}

/// Relies on rand::random::<bool>: a uniform coin from the thread-local
/// generator. Nothing is promised of a random result.
#[verifier::external_body]
pub(crate) fn random_bool() -> bool {
    rand::random::<bool>()
}

/// Relies on rand::random_range: a value drawn from `0..n`, which the
/// documentation promises lies in the range; the range is non-empty here.
#[verifier::external_body]
pub(crate) fn random_below(n: u64) -> (r: u64)
    requires
        n > 0,
    ensures
        r < n,
{
    rand::random_range(0..n)
}

/// The hard magnitude bound of one sample: the sum of twelve centred words is
/// at most `12 * 2^63` in magnitude, scaled by `sigma / 2^den_shift`.
pub open spec fn clt_bound(sigma: int, den_shift: nat) -> int {
    (12 * 0x8000_0000_0000_0000 * sigma) / pow2(den_shift) as int
}

/// `2^e` for exponents up to 96, by splitting off the low 64 bits.
fn pow2_u128_wide(e: u32) -> (r: u128)
    requires
        e <= 96,
    ensures
        r == pow2(e as nat),
        r >= 1,
{
    if e <= 64 {
        crate::torus::pow2_u128(e)
    } else {
        let lo = crate::torus::pow2_u128(64);
        let hi = crate::torus::pow2_u128(e - 64);
        proof {
            lemma_pow2_adds(64, (e - 64) as nat);
            lemma_pow2_strictly_increases((e - 64) as nat, 33);
            lemma2_to64();
            lemma_mul_upper_bound(lo as int, 0x1_0000_0000_0000_0000, hi as int, 0x2_0000_0000);
        }
        lo * hi
    }
}

/// Sum of twelve centred uniform words, scaled by `sigma / 2^den_shift`.
fn clt_sum(stddev: u64, den_shift: u32) -> (e: i64)
    requires
        stddev < 0x0800_0000_0000_0000,
        64 <= den_shift <= 96,
    ensures
        -clt_bound(stddev as int, den_shift as nat) <= e <= clt_bound(
            stddev as int,
            den_shift as nat,
        ),
        -6 * stddev <= e <= 6 * stddev,
{
    let mut s: i128 = 0;
    let mut i: u32 = 0;
    while i < 12
        invariant
            i <= 12,
            -(i as int) * 0x8000_0000_0000_0000 <= s <= (i as int) * 0x8000_0000_0000_0000,
        decreases 12 - i,
    {
        let u = random_u64();
        if u >= 0x8000_0000_0000_0000 {
            s = s + (u - 0x8000_0000_0000_0000) as i128;
        } else {
            s = s - (0x8000_0000_0000_0000 - u) as i128;
        }
        i = i + 1;
    }
    let den: u128 = pow2_u128_wide(den_shift);
    proof {
        lemma_clt_scale_bound(stddev as int, den_shift as nat);
    }
    if s >= 0 {
        proof {
            lemma_mul_upper_bound(
                s as int,
                12int * 0x8000_0000_0000_0000,
                stddev as int,
                stddev as int,
            );
            lemma_mul_inequality(s as int, 12int * 0x8000_0000_0000_0000, stddev as int);
            lemma_div_is_ordered(
                s as int * stddev as int,
                12 * 0x8000_0000_0000_0000 * stddev as int,
                den as int,
            );
            lemma_div_basics_4(s as int * stddev as int, den as int);
        }
        let p: u128 = (s as u128) * (stddev as u128);
        (p / den) as i64
    } else {
        let m: u128 = (-s) as u128;
        proof {
            lemma_mul_upper_bound(
                m as int,
                12int * 0x8000_0000_0000_0000,
                stddev as int,
                stddev as int,
            );
            lemma_mul_inequality(m as int, 12int * 0x8000_0000_0000_0000, stddev as int);
            lemma_div_is_ordered(
                m as int * stddev as int,
                12 * 0x8000_0000_0000_0000 * stddev as int,
                den as int,
            );
            lemma_div_basics_4(m as int * stddev as int, den as int);
        }
        let p: u128 = m * (stddev as u128);
        let q: i64 = (p / den) as i64;
        -q
    }
}

/// The scale bound is monotone in the denominator and at most `6 * sigma`.
proof fn lemma_clt_scale_bound(sigma: int, den_shift: nat)
    requires
        0 <= sigma,
        64 <= den_shift <= 96,
    ensures
        0 <= clt_bound(sigma, den_shift) <= 6 * sigma,
        clt_bound(sigma, den_shift) <= clt_bound(sigma, 64),
{
    let num = 12 * 0x8000_0000_0000_0000 * sigma;
    lemma2_to64();
    lemma_pow2_pos(den_shift);
    if den_shift > 64 {
        lemma_pow2_strictly_increases(64, den_shift);
    }
    vstd::arithmetic::mul::lemma_mul_nonnegative(12int * 0x8000_0000_0000_0000, sigma);
    lemma_div_is_ordered_by_denominator(num, 0x1_0000_0000_0000_0000, pow2(den_shift) as int);
    assert(num == 0x1_0000_0000_0000_0000 * (6 * sigma));
    lemma_div_multiples_vanish(6 * sigma, 0x1_0000_0000_0000_0000);
    assert(clt_bound(sigma, 64) == 6 * sigma);
    lemma_div_basics_4(num, pow2(den_shift) as int);
}

/// A sample from a centred, bounded, approximately Gaussian distribution with
/// standard deviation `stddev / 2^32` (a 32.32 fixed-point width), as an
/// integer error term for LWE.  The magnitude never exceeds
/// `12 * 2^63 * stddev / 2^96`, which is `6 * stddev / 2^32`.
pub fn gaussian_noise(stddev: u64) -> (e: i64)
    requires
        stddev < 0x0800_0000_0000_0000,
    ensures
        -clt_bound(stddev as int, 96) <= e <= clt_bound(stddev as int, 96),
{
    clt_sum(stddev, 96)
}

/// The same distribution scaled to the torus: `stddev` is in units of
/// `2^-64` (a torus numerator), and so is the result.
pub fn gaussian_torus(stddev: u64) -> (e: i64)
    requires
        stddev < 0x0800_0000_0000_0000,
    ensures
        -6 * stddev <= e <= 6 * stddev,
{
    clt_sum(stddev, 64)
}

/// A vector of independent samples of `gaussian_noise`.
pub fn gaussian_noise_vec(len: usize, stddev: u64) -> (v: Vec<i64>)
    requires
        stddev < 0x0800_0000_0000_0000,
    ensures
        v@.len() == len,
        forall|i: int|
            0 <= i < len ==> -clt_bound(stddev as int, 96) <= #[trigger] v@[i] <= clt_bound(
                stddev as int,
                96,
            ),
{
    let mut v: Vec<i64> = Vec::new();
    while v.len() < len
        invariant
            v@.len() <= len,
            stddev < 0x0800_0000_0000_0000,
            forall|i: int|
                0 <= i < v@.len() ==> -clt_bound(stddev as int, 96) <= #[trigger] v@[i]
                    <= clt_bound(stddev as int, 96),
        decreases len - v.len(),
    {
        let e = gaussian_noise(stddev);
        v.push(e);
    }
    v
}

} // verus!
