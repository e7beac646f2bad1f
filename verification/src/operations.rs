//! Multi-bit homomorphic circuits built from the Boolean layer: adders,
//! comparisons, shifts and two's-complement arithmetic.
//!
//! Constant bits enter circuits as trivial samples, which are keyless and
//! exact, so every output stays a valid ciphertext under the caller's key.

use vstd::prelude::*;
use crate::tfhe::{
    const_table, pbs_output, sum_mask, xor_mask, TfheCloudKey, TfheGates, MU_FALSE, MU_QUARTER,
    MU_TRUE,
};
use crate::tlwe::{TlweParams, TlweSample};
use crate::torus::{t_of, Torus};

verus! {

/// All samples of a word are well-formed under the same parameters.
pub open spec fn bits_wf(v: Seq<TlweSample>, p: TlweParams) -> bool {
    forall|i: int| 0 <= i < v.len() ==> (#[trigger] v[i]).wf() && v[i].params == p
}

/// Two samples with the same mask, body and parameters.
pub open spec fn same_sample(x: TlweSample, y: TlweSample) -> bool {
    x.a@ == y.a@ && x.b == y.b && x.params == y.params
}

/// A trivial sample of the `false` encoding: zero mask, body `-1/8`.
pub open spec fn trivial_false_bit(x: TlweSample) -> bool {
    x.b.v == MU_FALSE && forall|j: int| 0 <= j < x.a@.len() ==> #[trigger] x.a@[j].v == 0
}

/// Homomorphic circuit combinators.
pub struct HomomorphicOps;

impl HomomorphicOps {
    /// One-bit half adder: sum = a XOR b, carry = a AND b, each carrying its
    /// gate's exact bootstrap contract.
    pub fn half_adder(a: &TlweSample, b: &TlweSample, ck: &TfheCloudKey) -> (r: (
        TlweSample,
        TlweSample,
    ))
        requires
            a.wf(),
            b.wf(),
            ck.wf(),
            a.params == ck.gate_params(),
            b.params == ck.gate_params(),
        ensures
            r.0.wf() && r.0.params == ck.gate_params(),
            r.1.wf() && r.1.params == ck.gate_params(),
            pbs_output(
                r.0,
                xor_mask(a.a@, b.a@),
                t_of(2 * (a.b@ + b.b@) + MU_QUARTER),
                const_table(ck.bootstrapping_key.degree as int, MU_TRUE),
                ck.bootstrapping_key,
            ),
            pbs_output(
                r.1,
                sum_mask(a.a@, b.a@),
                t_of(MU_FALSE + a.b@ + b.b@),
                const_table(ck.bootstrapping_key.degree as int, MU_TRUE),
                ck.bootstrapping_key,
            ),
    {
        let sum = TfheGates::xor(a, b, ck);
        let carry = TfheGates::and(a, b, ck);
        (sum, carry)
    }

    /// One-bit full adder: sum = (a XOR b) XOR cin, carry = (a AND b) OR
    /// (cin AND (a XOR b)), with every intermediate gate output carrying its
    /// exact bootstrap contract.
    pub fn full_adder(
        a: &TlweSample,
        b: &TlweSample,
        cin: &TlweSample,
        ck: &TfheCloudKey,
    ) -> (r: (TlweSample, TlweSample))
        requires
            a.wf(),
            b.wf(),
            cin.wf(),
            ck.wf(),
            a.params == ck.gate_params(),
            b.params == ck.gate_params(),
            cin.params == ck.gate_params(),
        ensures
            r.0.wf() && r.0.params == ck.gate_params(),
            r.1.wf() && r.1.params == ck.gate_params(),
            exists|u: TlweSample, v: TlweSample, w: TlweSample|
                {
                    &&& #[trigger] pbs_output(
                        u,
                        xor_mask(a.a@, b.a@),
                        t_of(2 * (a.b@ + b.b@) + MU_QUARTER),
                        const_table(ck.bootstrapping_key.degree as int, MU_TRUE),
                        ck.bootstrapping_key,
                    )
                    &&& #[trigger] pbs_output(
                        v,
                        sum_mask(a.a@, b.a@),
                        t_of(MU_FALSE + a.b@ + b.b@),
                        const_table(ck.bootstrapping_key.degree as int, MU_TRUE),
                        ck.bootstrapping_key,
                    )
                    &&& #[trigger] pbs_output(
                        w,
                        sum_mask(cin.a@, u.a@),
                        t_of(MU_FALSE + cin.b@ + u.b@),
                        const_table(ck.bootstrapping_key.degree as int, MU_TRUE),
                        ck.bootstrapping_key,
                    )
                    &&& pbs_output(
                        r.0,
                        xor_mask(u.a@, cin.a@),
                        t_of(2 * (u.b@ + cin.b@) + MU_QUARTER),
                        const_table(ck.bootstrapping_key.degree as int, MU_TRUE),
                        ck.bootstrapping_key,
                    )
                    &&& pbs_output(
                        r.1,
                        sum_mask(v.a@, w.a@),
                        t_of(MU_TRUE + v.b@ + w.b@),
                        const_table(ck.bootstrapping_key.degree as int, MU_TRUE),
                        ck.bootstrapping_key,
                    )
                },
    {
        let ab_xor = TfheGates::xor(a, b, ck);
        let sum = TfheGates::xor(&ab_xor, cin, ck);
        let ab_and = TfheGates::and(a, b, ck);
        let cin_and_xor = TfheGates::and(cin, &ab_xor, ck);
        let carry = TfheGates::or(&ab_and, &cin_and_xor, ck);
        (sum, carry)
    }

    /// Ripple-carry addition of two words of equal width; the result has one
    /// extra carry bit.
    pub fn add_n_bit(a: &Vec<TlweSample>, b: &Vec<TlweSample>, ck: &TfheCloudKey) -> (r: Vec<
        TlweSample,
    >)
        requires
            a@.len() == b@.len(),
            ck.wf(),
            bits_wf(a@, ck.gate_params()),
            bits_wf(b@, ck.gate_params()),
        ensures
            r@.len() == a@.len() + 1,
            bits_wf(r@, ck.gate_params()),
    {
        let n = a.len();
        let mut result: Vec<TlweSample> = Vec::new();
        let mut carry = TlweSample::trivial(&Torus::new(MU_FALSE), gate_params_of(ck));
        let mut i: usize = 0;
        while i < n
            invariant
                i == result@.len() <= n,
                n == a@.len() == b@.len(),
                ck.wf(),
                bits_wf(a@, ck.gate_params()),
                bits_wf(b@, ck.gate_params()),
                carry.wf(),
                carry.params == ck.gate_params(),
                bits_wf(result@, ck.gate_params()),
            decreases n - i,
        {
            let (sum, new_carry) = Self::full_adder(bit_at(a, i), bit_at(b, i), &carry, ck);
            result.push(sum);
            carry = new_carry;
            i = i + 1;
        }
        result.push(carry);
        result
    }

    /// Repeated addition: add the word to an accumulator `constant` times.
    /// The accumulator is eight bits wider than the input.
    pub fn multiply_by_constant(a: &Vec<TlweSample>, constant: u32, ck: &TfheCloudKey) -> (r: Vec<
        TlweSample,
    >)
        requires
            1 <= a@.len() < 0x1000_0000,
            ck.wf(),
            bits_wf(a@, ck.gate_params()),
        ensures
            r@.len() == a@.len() + 8,
            bits_wf(r@, ck.gate_params()),
    {
        let n = a.len();
        let zero = TlweSample::trivial(&Torus::new(MU_FALSE), gate_params_of(ck));
        let mut result: Vec<TlweSample> = Vec::new();
        while result.len() < n + 8
            invariant
                result@.len() <= n + 8,
                n < 0x1000_0000,
                zero.wf(),
                zero.params == ck.gate_params(),
                bits_wf(result@, ck.gate_params()),
            decreases n + 8 - result.len(),
        {
            result.push(zero.clone_sample());
        }
        let mut c: u32 = 0;
        while c < constant
            invariant
                c <= constant,
                n == a@.len(),
                1 <= n < 0x1000_0000,
                ck.wf(),
                bits_wf(a@, ck.gate_params()),
                result@.len() == n + 8,
                bits_wf(result@, ck.gate_params()),
            decreases constant - c,
        {
            let mut low: Vec<TlweSample> = Vec::new();
            let mut i: usize = 0;
            while i < n
                invariant
                    i == low@.len() <= n,
                    result@.len() == n + 8,
                    bits_wf(result@, ck.gate_params()),
                    bits_wf(low@, ck.gate_params()),
                decreases n - i,
            {
                low.push(bit_at(&result, i).clone_sample());
                i = i + 1;
            }
            let sum = Self::add_n_bit(&low, a, ck);
            let mut j: usize = 0;
            let lim = if sum.len() < result.len() {
                sum.len()
            } else {
                result.len()
            };
            while j < lim
                invariant
                    j <= lim,
                    lim <= sum@.len(),
                    lim <= result@.len(),
                    result@.len() == n + 8,
                    bits_wf(sum@, ck.gate_params()),
                    bits_wf(result@, ck.gate_params()),
                decreases lim - j,
            {
                let s = bit_at(&sum, j).clone_sample();
                result.set(j, s);
                j = j + 1;
            }
            c = c + 1;
        }
        result
    }

    /// Bit equality: NOT (a XOR b), the exact negation of the XOR bootstrap.
    pub fn equal_bit(a: &TlweSample, b: &TlweSample, ck: &TfheCloudKey) -> (r: TlweSample)
        requires
            a.wf(),
            b.wf(),
            ck.wf(),
            a.params == ck.gate_params(),
            b.params == ck.gate_params(),
        ensures
            r.wf(),
            r.params == ck.gate_params(),
            exists|u: TlweSample|
                {
                    &&& #[trigger] pbs_output(
                        u,
                        xor_mask(a.a@, b.a@),
                        t_of(2 * (a.b@ + b.b@) + MU_QUARTER),
                        const_table(ck.bootstrapping_key.degree as int, MU_TRUE),
                        ck.bootstrapping_key,
                    )
                    &&& r.a@.len() == u.a@.len()
                    &&& (forall|i: int|
                        0 <= i < u.a@.len() ==> #[trigger] r.a@[i].v == t_of(-1 * u.a@[i].v))
                    &&& r.b@ == t_of(-1 * u.b@)
                },
    {
        let xor_result = TfheGates::xor(a, b, ck);
        TfheGates::not(&xor_result, ck)
    }

    /// Word equality: the conjunction of the bit equalities.
    pub fn equal_n_bit(a: &Vec<TlweSample>, b: &Vec<TlweSample>, ck: &TfheCloudKey) -> (r:
        TlweSample)
        requires
            a@.len() == b@.len(),
            a@.len() >= 1,
            ck.wf(),
            bits_wf(a@, ck.gate_params()),
            bits_wf(b@, ck.gate_params()),
        ensures
            r.wf(),
            r.params == ck.gate_params(),
    {
        let mut result = Self::equal_bit(bit_at(a, 0), bit_at(b, 0), ck);
        let mut i: usize = 1;
        while i < a.len()
            invariant
                1 <= i <= a@.len(),
                a@.len() == b@.len(),
                ck.wf(),
                bits_wf(a@, ck.gate_params()),
                bits_wf(b@, ck.gate_params()),
                result.wf(),
                result.params == ck.gate_params(),
            decreases a@.len() - i,
        {
            let bit_equal = Self::equal_bit(bit_at(a, i), bit_at(b, i), ck);
            result = TfheGates::and(&result, &bit_equal, ck);
            i = i + 1;
        }
        result
    }

    /// Left shift: trivial-false bits enter at the low end, bit `i` of the
    /// input moves to position `i + shift`, and the width is kept.
    pub fn left_shift(a: &Vec<TlweSample>, shift: usize, ck: &TfheCloudKey) -> (r: Vec<
        TlweSample,
    >)
        requires
            1 <= a@.len() < 0x1000_0000,
            shift <= a@.len(),
            ck.wf(),
            bits_wf(a@, ck.gate_params()),
        ensures
            r@.len() == a@.len(),
            bits_wf(r@, ck.gate_params()),
            forall|i: int| 0 <= i < shift ==> trivial_false_bit(#[trigger] r@[i]),
            forall|i: int| shift <= i < a@.len() ==> same_sample(#[trigger] r@[i], a@[i - shift]),
    {
        let n = a.len();
        let zero = TlweSample::trivial(&Torus::new(MU_FALSE), gate_params_of(ck));
        let mut result: Vec<TlweSample> = Vec::new();
        while result.len() < shift
            invariant
                result@.len() <= shift,
                shift <= n < 0x1000_0000,
                zero.wf(),
                zero.params == ck.gate_params(),
                zero.b.v == MU_FALSE,
                forall|j: int| 0 <= j < zero.a@.len() ==> #[trigger] zero.a@[j].v == 0,
                bits_wf(result@, ck.gate_params()),
                forall|i: int| 0 <= i < result@.len() ==> trivial_false_bit(#[trigger] result@[i]),
            decreases shift - result.len(),
        {
            result.push(zero.clone_sample());
        }
        let mut i: usize = 0;
        while i < n - shift
            invariant
                result@.len() == shift + i,
                i <= n - shift,
                shift <= n == a@.len(),
                n < 0x1000_0000,
                ck.wf(),
                bits_wf(a@, ck.gate_params()),
                bits_wf(result@, ck.gate_params()),
                forall|j: int| 0 <= j < shift ==> trivial_false_bit(#[trigger] result@[j]),
                forall|j: int|
                    shift <= j < result@.len() ==> same_sample(#[trigger] result@[j], a@[j - shift]),
            decreases n - shift - i,
        {
            result.push(bit_at(a, i).clone_sample());
            i = i + 1;
        }
        result
    }

    /// Right shift: bit `i + shift` of the input moves to position `i`,
    /// trivial-false bits enter at the high end, and the width is kept.
    pub fn right_shift(a: &Vec<TlweSample>, shift: usize, ck: &TfheCloudKey) -> (r: Vec<
        TlweSample,
    >)
        requires
            1 <= a@.len() < 0x1000_0000,
            shift <= a@.len(),
            ck.wf(),
            bits_wf(a@, ck.gate_params()),
        ensures
            r@.len() == a@.len(),
            bits_wf(r@, ck.gate_params()),
            forall|i: int|
                0 <= i < a@.len() - shift ==> same_sample(#[trigger] r@[i], a@[i + shift]),
            forall|i: int|
                a@.len() - shift <= i < a@.len() ==> trivial_false_bit(#[trigger] r@[i]),
    {
        let n = a.len();
        let zero = TlweSample::trivial(&Torus::new(MU_FALSE), gate_params_of(ck));
        let mut result: Vec<TlweSample> = Vec::new();
        let mut i: usize = shift;
        while i < n
            invariant
                shift <= i <= n,
                result@.len() == i - shift,
                n == a@.len() < 0x1000_0000,
                ck.wf(),
                bits_wf(a@, ck.gate_params()),
                bits_wf(result@, ck.gate_params()),
                forall|j: int|
                    0 <= j < result@.len() ==> same_sample(#[trigger] result@[j], a@[j + shift]),
            decreases n - i,
        {
            result.push(bit_at(a, i).clone_sample());
            i = i + 1;
        }
        while result.len() < n
            invariant
                n - shift <= result@.len() <= n,
                n < 0x1000_0000,
                shift <= n == a@.len(),
                zero.wf(),
                zero.params == ck.gate_params(),
                zero.b.v == MU_FALSE,
                forall|j: int| 0 <= j < zero.a@.len() ==> #[trigger] zero.a@[j].v == 0,
                bits_wf(result@, ck.gate_params()),
                forall|j: int|
                    0 <= j < n - shift ==> same_sample(#[trigger] result@[j], a@[j + shift]),
                forall|j: int|
                    n - shift <= j < result@.len() ==> trivial_false_bit(#[trigger] result@[j]),
            decreases n - result.len(),
        {
            result.push(zero.clone_sample());
        }
        result
    }

    /// Strict comparison of bits: a AND NOT b.
    pub fn greater_than_bit(a: &TlweSample, b: &TlweSample, ck: &TfheCloudKey) -> (r: TlweSample)
        requires
            a.wf(),
            b.wf(),
            ck.wf(),
            a.params == ck.gate_params(),
            b.params == ck.gate_params(),
        ensures
            r.wf(),
            r.params == ck.gate_params(),
    {
        let not_b = TfheGates::not(b, ck);
        TfheGates::and(a, &not_b, ck)
    }

    /// Maximum of two bits: OR.
    pub fn max_bit(a: &TlweSample, b: &TlweSample, ck: &TfheCloudKey) -> (r: TlweSample)
        requires
            a.wf(),
            b.wf(),
            ck.wf(),
            a.params == ck.gate_params(),
            b.params == ck.gate_params(),
        ensures
            r.wf(),
            r.params == ck.gate_params(),
    {
        TfheGates::or(a, b, ck)
    }

    /// Minimum of two bits: AND.
    pub fn min_bit(a: &TlweSample, b: &TlweSample, ck: &TfheCloudKey) -> (r: TlweSample)
        requires
            a.wf(),
            b.wf(),
            ck.wf(),
            a.params == ck.gate_params(),
            b.params == ck.gate_params(),
        ensures
            r.wf(),
            r.params == ck.gate_params(),
    {
        TfheGates::and(a, b, ck)
    }

    /// Two's-complement negation: invert every bit and add one.  The result
    /// carries the adder's extra bit.
    pub fn negate_n_bit(a: &Vec<TlweSample>, ck: &TfheCloudKey) -> (r: Vec<TlweSample>)
        requires
            1 <= a@.len() < 0x1000_0000,
            ck.wf(),
            bits_wf(a@, ck.gate_params()),
        ensures
            r@.len() == a@.len() + 1,
            bits_wf(r@, ck.gate_params()),
    {
        let n = a.len();
        let mut inverted: Vec<TlweSample> = Vec::new();
        let mut i: usize = 0;
        while i < n
            invariant
                i == inverted@.len() <= n,
                n == a@.len(),
                ck.wf(),
                bits_wf(a@, ck.gate_params()),
                bits_wf(inverted@, ck.gate_params()),
            decreases n - i,
        {
            inverted.push(TfheGates::not(bit_at(a, i), ck));
            i = i + 1;
        }
        let zero = TlweSample::trivial(&Torus::new(MU_FALSE), gate_params_of(ck));
        let one_bit = TlweSample::trivial(&Torus::new(MU_TRUE), gate_params_of(ck));
        let mut one: Vec<TlweSample> = Vec::new();
        one.push(one_bit);
        while one.len() < n
            invariant
                1 <= one@.len() <= n,
                n < 0x1000_0000,
                zero.wf(),
                zero.params == ck.gate_params(),
                bits_wf(one@, ck.gate_params()),
            decreases n - one.len(),
        {
            one.push(zero.clone_sample());
        }
        Self::add_n_bit(&inverted, &one, ck)
    }

    /// Subtraction as addition of the two's complement.
    pub fn subtract_n_bit(a: &Vec<TlweSample>, b: &Vec<TlweSample>, ck: &TfheCloudKey) -> (r: Vec<
        TlweSample,
    >)
        requires
            a@.len() == b@.len(),
            1 <= a@.len() < 0x1000_0000,
            ck.wf(),
            bits_wf(a@, ck.gate_params()),
            bits_wf(b@, ck.gate_params()),
        ensures
            r@.len() == a@.len() + 1,
            bits_wf(r@, ck.gate_params()),
    {
        let neg_b = Self::negate_n_bit(b, ck);
        let mut prefix: Vec<TlweSample> = Vec::new();
        let n = a.len();
        let mut i: usize = 0;
        while i < n
            invariant
                i == prefix@.len() <= n,
                n < neg_b@.len(),
                bits_wf(neg_b@, ck.gate_params()),
                bits_wf(prefix@, ck.gate_params()),
            decreases n - i,
        {
            prefix.push(bit_at(&neg_b, i).clone_sample());
            i = i + 1;
        }
        Self::add_n_bit(a, &prefix, ck)
    }
}

/// Read one bit of a word.
fn bit_at(v: &Vec<TlweSample>, i: usize) -> (r: &TlweSample)
    requires
        i < v@.len(),
    ensures
        r == v@[i as int],
{
    &v[i]
}

/// The TLWE parameters the cloud key's gates run under.
fn gate_params_of(ck: &TfheCloudKey) -> (r: TlweParams)
    requires
        ck.wf(),
    ensures
        r == ck.gate_params(),
        r.wf(),
{
    ck.bootstrapping_key.params.tlwe_params
}

} // verus!
