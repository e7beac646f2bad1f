//! The Boolean gate layer: programmable bootstrapping and gates built on
//! it.
//!
//! A bit is the torus point `1/8` (true) or `-1/8` (false).  Each binary gate
//! combines its inputs affinely so that the phases of the four input
//! combinations land in two half-turn buckets, then refreshes the result with
//! a programmable bootstrap whose test polynomial maps the lower half-turn to
//! `1/8` and the upper one to `-1/8`.  NOT is plain negation and needs no
//! bootstrap.  Dimensions are matched (`n == N`), so the extracted sample
//! lands back under the caller's key and no key switch is needed.

use vstd::prelude::*;
use crate::lwe::key_binary;
use crate::poly::TorusPoly;
use crate::tgsw::{BootstrappingKey, TgswParams};
use crate::tlwe::{TlweParams, TlweSample, TlweSecretKey};
use crate::torus::{t_dist, t_mod, t_of, Torus};
use crate::trlwe::{TrlweSample, TrlweSecretKey};

verus! {

/// The torus encoding of `true` in the Boolean layer: `1/8`.
pub const MU_TRUE: u64 = 0x2000_0000_0000_0000;

/// The torus encoding of `false` in the Boolean layer: `-1/8`, that is `7/8`.
pub const MU_FALSE: u64 = 0xE000_0000_0000_0000;

/// A quarter turn, the bias of the XOR pre-combination.
pub const MU_QUARTER: u64 = 0x4000_0000_0000_0000;

/// Parameters of the whole scheme: the TLWE layer, the gadget, the input
/// dimension `n`, the ring degree `big_n` and the number of mask polynomials
/// `k` (always 1 here).
#[derive(Clone, Copy, PartialEq, Eq, Structural, Debug)]
pub struct TfheParams {
    pub tlwe_params: TlweParams,
    pub tgsw_params: TgswParams,
    pub n: usize,
    pub big_n: usize,
    pub k: usize,
}

impl TfheParams {
    /// Validity: consistent sub-parameters with matched dimensions
    /// (`n == big_n`), so gate outputs live under the input key and the
    /// declared key switch is never needed.
    pub open spec fn wf(self) -> bool {
        &&& self.tlwe_params.wf()
        &&& self.tgsw_params.wf()
        &&& self.tgsw_params.tlwe_params == self.tlwe_params
        &&& self.n == self.tlwe_params.n
        &&& self.big_n == self.n
        &&& self.k == 1
    }
}

impl Default for TfheParams {
    /// A matched parameter set: dimension and ring degree 1024, noise 2e-9,
    /// gadget of three levels in base 2^10.
    fn default() -> (r: TfheParams)
        ensures
            r.wf(),
            r.n == 1024 && r.big_n == 1024,
            r.tlwe_params.stddev == 36893488147,
            r.tgsw_params.l == 3 && r.tgsw_params.bg_bit == 10,
    {
        let tlwe_params = TlweParams { n: 1024, stddev: 36893488147 };
        let tgsw_params = TgswParams { l: 3, bg_bit: 10, tlwe_params };
        TfheParams { tlwe_params, tgsw_params, n: 1024, big_n: 1024, k: 1 }
    }
}

/// The client's secret key: a binary TLWE key whose coefficients double as
/// the ring key of the bootstrap.
#[derive(Clone, Debug)]
pub struct TfheSecretKey {
    pub tlwe_key: TlweSecretKey,
    pub params: TfheParams,
}

impl TfheSecretKey {
    /// Well-formed: a binary key under the scheme's TLWE parameters.
    pub open spec fn wf(self) -> bool {
        &&& self.params.wf()
        &&& self.tlwe_key.wf()
        &&& self.tlwe_key.params == self.params.tlwe_params
        &&& key_binary(self.tlwe_key.coeffs@)
    }

    /// A fresh secret key.
    pub fn generate(params: TfheParams) -> (r: TfheSecretKey)
        requires
            params.wf(),
        ensures
            r.wf(),
            r.params == params,
    {
        let tlwe_key = TlweSecretKey::generate_binary(params.tlwe_params);
        TfheSecretKey { tlwe_key, params }
    }
}

/// The published evaluation key: the bootstrapping key, plus the optional
/// key-switch key, unused with matched dimensions.
#[derive(Clone, Debug)]
pub struct TfheCloudKey {
    pub bootstrapping_key: BootstrappingKey,
    pub key_switching_key: Option<crate::tlwe::TlweKeySwitchKey>,
}

impl TfheCloudKey {
    /// Well-formed: a well-formed bootstrapping key.
    pub open spec fn wf(self) -> bool {
        self.bootstrapping_key.wf()
    }

    /// The TLWE parameters gates operate under.
    pub open spec fn gate_params(self) -> TlweParams {
        self.bootstrapping_key.params.tlwe_params
    }

    /// Derive the cloud key from the secret key: TGSW encryptions of the key
    /// bits under the ring key with the same coefficients.
    pub fn generate(sk: &TfheSecretKey) -> (r: TfheCloudKey)
        requires
            sk.wf(),
        ensures
            r.wf(),
            r.gate_params() == sk.params.tlwe_params,
            r.key_switching_key is None,
            r.bootstrapping_key.n == sk.params.tlwe_params.n,
            r.bootstrapping_key.params == sk.params.tgsw_params,
            forall|i: int, c: int, j: int, t: int|
                0 <= i < r.bootstrapping_key.n && 0 <= c < 2 && 0 <= j
                    < sk.params.tgsw_params.l && 0 <= t < r.bootstrapping_key.degree ==> t_dist(
                    #[trigger] crate::trlwe::ring_phase_coeff(
                        r.bootstrapping_key.bk@[i].rows@[c]@[j],
                        sk.tlwe_key.coeffs@,
                        t,
                    ),
                    crate::trlwe::ring_gadget_mu(
                        c == 0,
                        j,
                        sk.tlwe_key.coeffs@[i] as int,
                        sk.tlwe_key.coeffs@,
                        t,
                        sk.params.tgsw_params.l as int,
                        sk.params.tgsw_params.bg_bit as int,
                    ),
                ) <= 6 * sk.params.tlwe_params.stddev,
    {
        let coeffs = copy_key(&sk.tlwe_key.coeffs);
        let rkey = TrlweSecretKey::from_coeffs(coeffs, sk.params.tlwe_params.stddev);
        let bootstrapping_key = BootstrappingKey::generate(
            &sk.tlwe_key,
            &rkey,
            sk.params.tgsw_params,
        );
        TfheCloudKey { bootstrapping_key, key_switching_key: None }
    }
}

/// An element-wise copy of a key vector.
fn copy_key(v: &Vec<i64>) -> (r: Vec<i64>)
    ensures
        r@ == v@,
{
    let mut r: Vec<i64> = Vec::new();
    let n = v.len();
    let mut i: usize = 0;
    while i < n
        invariant
            i == r@.len() <= n,
            n == v@.len(),
            forall|j: int| 0 <= j < i ==> #[trigger] r@[j] == v@[j],
        decreases n - i,
    {
        r.push(v[i]);
        i = i + 1;
    }
    proof {
        assert(r@ =~= v@);
    }
    r
}

/// Map a torus point to `Z/(2N)` by scaling and rounding.
fn mod_switch(t: &Torus, two_n: u64) -> (r: u64)
    requires
        2 <= two_n <= 0x2000_0000,
    ensures
        r < two_n,
        r == ((t@ * two_n + 0x8000_0000_0000_0000) / t_mod()) % (two_n as int),
{
    proof {
        vstd::arithmetic::mul::lemma_mul_upper_bound(
            t.v as int,
            0xffff_ffff_ffff_ffff,
            two_n as int,
            0x2000_0000,
        );
    }
    let p: u128 = (t.v as u128) * (two_n as u128) + 0x8000_0000_0000_0000;
    let q: u128 = p / 0x1_0000_0000_0000_0000;
    let m: u128 = q % (two_n as u128);
    proof {
        vstd::arithmetic::div_mod::lemma_mod_bound(q as int, two_n as int);
    }
    m as u64
}

/// The image of a torus coordinate in `Z/(2N)` under modulus switching.
pub open spec fn switched(v: int, two_n: int) -> int {
    ((v * two_n + 0x8000_0000_0000_0000) / t_mod()) % two_n
}

/// A coefficient vector rotated by the monomial `X^e` in the negacyclic ring.
pub open spec fn rot_seq(p: Seq<Torus>, e: int) -> Seq<Torus> {
    Seq::new(p.len(), |i: int| (Torus { v: crate::poly::rot_coeff(p, e, i) as u64 }))
}

/// The all-zero coefficient vector of length `n`.
pub open spec fn zero_seq(n: int) -> Seq<Torus> {
    Seq::new(n as nat, |i: int| (Torus { v: 0 }))
}

/// One blind-rotation step: CMux under the gadget sample `g` between the
/// accumulator `(pa, pb)` and its rotation by `X^e`, coefficient by
/// coefficient.
pub open spec fn br_step(g: crate::trlwe::TrgswSample, pa: Seq<Torus>, pb: Seq<Torus>, e: int) -> (
    Seq<Torus>,
    Seq<Torus>,
) {
    let da = crate::trlwe::seq_diff(rot_seq(pa, e), pa);
    let db = crate::trlwe::seq_diff(rot_seq(pb, e), pb);
    (
        Seq::new(
            pa.len(),
            |t: int|
                (Torus {
                    v: t_of(
                        crate::trlwe::ext_fold_coeff(g, da, db, 2 * g.l, t, true) + pa[t].v,
                    ) as u64,
                }),
        ),
        Seq::new(
            pb.len(),
            |t: int|
                (Torus {
                    v: t_of(
                        crate::trlwe::ext_fold_coeff(g, da, db, 2 * g.l, t, false) + pb[t].v,
                    ) as u64,
                }),
        ),
    )
}

/// The accumulator after the first `i` blind-rotation steps, each rotating by
/// the switched mask coordinate and selecting through the bootstrapping key.
pub open spec fn br_fold(
    bk: Seq<crate::trlwe::TrgswSample>,
    a: Seq<Torus>,
    two_n: int,
    pa: Seq<Torus>,
    pb: Seq<Torus>,
    i: int,
) -> (Seq<Torus>, Seq<Torus>)
    decreases i,
{
    if i <= 0 {
        (pa, pb)
    } else {
        let prev = br_fold(bk, a, two_n, pa, pb, i - 1);
        br_step(bk[i - 1], prev.0, prev.1, switched(a[i - 1].v as int, two_n))
    }
}

/// The bootstrap's value contract: `r` extracts the constant coefficient of
/// the blind rotation of the test table `lut` by the switched coordinates of
/// the input `(ia, ib)`, under the CMux chain of `bk`.
pub open spec fn pbs_output(
    r: TlweSample,
    ia: Seq<Torus>,
    ib: int,
    lut: Seq<Torus>,
    bk: BootstrappingKey,
) -> bool {
    let two_n = 2 * bk.degree as int;
    let rot0 = (two_n - switched(ib, two_n)) % two_n;
    let fin = br_fold(
        bk.bk@,
        ia,
        two_n,
        zero_seq(bk.degree as int),
        rot_seq(lut, rot0),
        bk.n as int,
    );
    &&& r.params == bk.params.tlwe_params
    &&& r.a@.len() == bk.degree
    &&& r.b@ == fin.1[0].v
    &&& r.a@[0] == fin.0[0]
    &&& forall|t: int| 1 <= t < bk.degree ==> #[trigger] r.a@[t].v == t_of(-fin.0[bk.degree - t].v)
}

/// The mask of the NAND pre-combination: `-a - b`, coefficient-wise.
pub open spec fn neg_sum_mask(a: Seq<Torus>, b: Seq<Torus>) -> Seq<Torus> {
    Seq::new(a.len(), |i: int| (Torus { v: t_of(-a[i].v - b[i].v) as u64 }))
}

/// The mask of the additive pre-combinations: `a + b`, coefficient-wise.
pub open spec fn sum_mask(a: Seq<Torus>, b: Seq<Torus>) -> Seq<Torus> {
    Seq::new(a.len(), |i: int| (Torus { v: t_of(a[i].v + b[i].v) as u64 }))
}

/// The mask of the XOR pre-combination: `2 * (a + b)`, coefficient-wise.
pub open spec fn xor_mask(a: Seq<Torus>, b: Seq<Torus>) -> Seq<Torus> {
    Seq::new(a.len(), |i: int| (Torus { v: t_of(2 * (a[i].v + b[i].v)) as u64 }))
}

/// The negated mask of a sample: `-x`, coefficient-wise.
pub open spec fn neg_mask(x: Seq<Torus>) -> Seq<Torus> {
    Seq::new(x.len(), |i: int| (Torus { v: t_of(-1 * x[i].v) as u64 }))
}

/// The constant test table of length `n` with every entry at `mu`.
pub open spec fn const_table(n: int, mu: u64) -> Seq<Torus> {
    Seq::new(n as nat, |i: int| (Torus { v: mu }))
}

/// Gate functions: a programmable bootstrap plus one affine
/// pre-combination per gate.
pub struct TfheGates;

impl TfheGates {
    /// Programmable bootstrapping: map the input's phase to `Z/(2N)`, blind
    /// rotate the test polynomial by it through the CMux chain of the
    /// bootstrapping key, and extract the constant coefficient.  The output
    /// is a fresh sample of the test-table entry at the phase, with noise
    /// independent of the input noise.
    #[verifier::rlimit(60)]
    pub fn programmable_bootstrap(
        input: &TlweSample,
        lut: &Vec<Torus>,
        bk: &BootstrappingKey,
    ) -> (r: TlweSample)
        requires
            input.wf(),
            bk.wf(),
            input.params.n == bk.n,
            lut@.len() == bk.degree,
        ensures
            r.wf(),
            r.params == bk.params.tlwe_params,
            pbs_output(r, input.a@, input.b@, lut@, *bk),
    {
        let big_n = bk.degree;
        let two_n: u64 = 2 * (big_n as u64);
        let mut testv_coeffs: Vec<Torus> = Vec::new();
        let mut i: usize = 0;
        while i < big_n
            invariant
                i == testv_coeffs@.len() <= big_n,
                big_n == lut@.len(),
                forall|j: int| 0 <= j < i ==> #[trigger] testv_coeffs@[j] == lut@[j],
            decreases big_n - i,
        {
            testv_coeffs.push(lut[i]);
            i = i + 1;
        }
        let testv = TorusPoly { coeffs: testv_coeffs };
        proof {
            assert(testv.coeffs@ =~= lut@);
        }
        // rotate by minus the switched body
        let bt = mod_switch(&input.b, two_n);
        let rot0: u64 = (two_n - bt) % two_n;
        proof {
            vstd::arithmetic::div_mod::lemma_mod_bound(two_n - bt, two_n as int);
        }
        let rotated = testv.monomial_mul(rot0 as usize);
        let mut acc = TrlweSample::trivial(&rotated, bk.params.tlwe_params.stddev);
        let ghost init_a = zero_seq(bk.degree as int);
        let ghost init_b = rot_seq(lut@, rot0 as int);
        proof {
            assert forall|t: int| 0 <= t < big_n implies #[trigger] rotated.coeffs@[t] == init_b[t] by {
                let rc = crate::poly::rot_coeff(lut@, rot0 as int, t);
                lemma_rot_coeff_reduced(lut@, rot0 as int, t);
                assert(rc as u64 == rc);
                assert(rotated.coeffs@[t].v == rc);
            }
            assert(acc.b.coeffs@ =~= init_b);
            assert forall|t: int| 0 <= t < big_n implies #[trigger] acc.a.coeffs@[t] == init_a[t] by {
                assert(acc.a.coeffs@[t].v == 0);
            }
            assert(acc.a.coeffs@ =~= init_a);
        }
        let n = bk.n;
        let mut j: usize = 0;
        while j < n
            invariant
                j <= n,
                input.wf(),
                bk.wf(),
                input.params.n == bk.n,
                n == bk.n,
                big_n == bk.degree,
                two_n == 2 * big_n,
                2 <= two_n <= 0x2000_0000,
                init_a == zero_seq(bk.degree as int),
                init_b == rot_seq(lut@, ((two_n as int) - switched(input.b@, two_n as int)) % (
                two_n as int)),
                acc.wf(),
                acc.n == big_n,
                acc.stddev == bk.params.tlwe_params.stddev,
                acc.a.coeffs@ == br_fold(
                    bk.bk@,
                    input.a@,
                    two_n as int,
                    init_a,
                    init_b,
                    j as int,
                ).0,
                acc.b.coeffs@ == br_fold(
                    bk.bk@,
                    input.a@,
                    two_n as int,
                    init_a,
                    init_b,
                    j as int,
                ).1,
            decreases n - j,
        {
            let at = mod_switch(index_torus(&input.a, j), two_n);
            let turned = acc.rotate(at as usize);
            let g = bk_at(&bk.bk, j);
            let newacc = g.cmux(&acc, &turned);
            proof {
                let ghost e = at as int;
                assert forall|t: int| 0 <= t < big_n implies #[trigger] turned.a.coeffs@[t]
                    == rot_seq(acc.a.coeffs@, e)[t] by {
                    lemma_rot_coeff_reduced(acc.a.coeffs@, e, t);
                    let rc = crate::poly::rot_coeff(acc.a.coeffs@, e, t);
                    assert(rc as u64 == rc);
                    assert(turned.a.coeffs@[t].v == rc);
                    assert(rot_seq(acc.a.coeffs@, e)[t] == (Torus { v: rc as u64 }));
                }
                assert(turned.a.coeffs@ =~= rot_seq(acc.a.coeffs@, e));
                assert forall|t: int| 0 <= t < big_n implies #[trigger] turned.b.coeffs@[t]
                    == rot_seq(acc.b.coeffs@, e)[t] by {
                    lemma_rot_coeff_reduced(acc.b.coeffs@, e, t);
                    let rc = crate::poly::rot_coeff(acc.b.coeffs@, e, t);
                    assert(rc as u64 == rc);
                    assert(turned.b.coeffs@[t].v == rc);
                    assert(rot_seq(acc.b.coeffs@, e)[t] == (Torus { v: rc as u64 }));
                }
                assert(turned.b.coeffs@ =~= rot_seq(acc.b.coeffs@, e));
                let stepped = br_step(bk.bk@[j as int], acc.a.coeffs@, acc.b.coeffs@, e);
                assert forall|t: int| 0 <= t < big_n implies #[trigger] newacc.a.coeffs@[t]
                    == stepped.0[t] by {
                    let da = crate::trlwe::seq_diff(rot_seq(acc.a.coeffs@, e), acc.a.coeffs@);
                    let db = crate::trlwe::seq_diff(rot_seq(acc.b.coeffs@, e), acc.b.coeffs@);
                    let fv = t_of(
                        crate::trlwe::ext_fold_coeff(
                            bk.bk@[j as int],
                            da,
                            db,
                            2 * bk.bk@[j as int].l,
                            t,
                            true,
                        ) + acc.a.coeffs@[t].v,
                    );
                    vstd::arithmetic::div_mod::lemma_mod_bound(
                        crate::trlwe::ext_fold_coeff(
                            bk.bk@[j as int],
                            da,
                            db,
                            2 * bk.bk@[j as int].l,
                            t,
                            true,
                        ) + acc.a.coeffs@[t].v,
                        t_mod(),
                    );
                    assert(fv as u64 == fv);
                    assert(newacc.a.coeffs@[t].v == fv);
                }
                assert(newacc.a.coeffs@ =~= stepped.0);
                assert forall|t: int| 0 <= t < big_n implies #[trigger] newacc.b.coeffs@[t]
                    == stepped.1[t] by {
                    let da = crate::trlwe::seq_diff(rot_seq(acc.a.coeffs@, e), acc.a.coeffs@);
                    let db = crate::trlwe::seq_diff(rot_seq(acc.b.coeffs@, e), acc.b.coeffs@);
                    let fv = t_of(
                        crate::trlwe::ext_fold_coeff(
                            bk.bk@[j as int],
                            da,
                            db,
                            2 * bk.bk@[j as int].l,
                            t,
                            false,
                        ) + acc.b.coeffs@[t].v,
                    );
                    vstd::arithmetic::div_mod::lemma_mod_bound(
                        crate::trlwe::ext_fold_coeff(
                            bk.bk@[j as int],
                            da,
                            db,
                            2 * bk.bk@[j as int].l,
                            t,
                            false,
                        ) + acc.b.coeffs@[t].v,
                        t_mod(),
                    );
                    assert(fv as u64 == fv);
                    assert(newacc.b.coeffs@[t].v == fv);
                }
                assert(newacc.b.coeffs@ =~= stepped.1);
                assert(e == switched(input.a@[j as int].v as int, two_n as int));
            }
            acc = newacc;
            j = j + 1;
        }
        TlweSample::extract_from_trlwe(&acc)
    }

    /// The sign test table: every entry is `1/8`, so the bootstrap returns
    /// `1/8` for phases in the lower half turn and `-1/8` for the upper one.
    fn sign_table(big_n: usize) -> (r: Vec<Torus>)
        ensures
            r@.len() == big_n,
            r@ == const_table(big_n as int, MU_TRUE),
    {
        let mut lut: Vec<Torus> = Vec::new();
        while lut.len() < big_n
            invariant
                lut@.len() <= big_n,
                forall|i: int| 0 <= i < lut@.len() ==> #[trigger] lut@[i].v == MU_TRUE,
            decreases big_n - lut.len(),
        {
            lut.push(Torus::new(MU_TRUE));
        }
        proof {
            assert forall|i: int| 0 <= i < big_n implies #[trigger] lut@[i] == const_table(
                big_n as int,
                MU_TRUE,
            )[i] by {
                assert(lut@[i].v == MU_TRUE);
                assert(const_table(big_n as int, MU_TRUE)[i] == (Torus { v: MU_TRUE }));
            }
            assert(lut@ =~= const_table(big_n as int, MU_TRUE));
        }
        lut
    }

    /// NAND: bootstrap `(0, 1/8) - a - b` with the sign table.  The result is
    /// exactly the bootstrap of that pre-combination.
    pub fn nand(a: &TlweSample, b: &TlweSample, ck: &TfheCloudKey) -> (r: TlweSample)
        requires
            a.wf(),
            b.wf(),
            ck.wf(),
            a.params == ck.gate_params(),
            b.params == ck.gate_params(),
        ensures
            r.wf(),
            r.params == ck.gate_params(),
            pbs_output(
                r,
                neg_sum_mask(a.a@, b.a@),
                t_of(MU_TRUE - a.b@ - b.b@),
                const_table(ck.bootstrapping_key.degree as int, MU_TRUE),
                ck.bootstrapping_key,
            ),
    {
        let bias = TlweSample::trivial(&Torus::new(MU_TRUE), a.params);
        let step = bias.sub(a);
        let pre = step.sub(b);
        proof {
            assert forall|i: int| 0 <= i < a.params.n implies #[trigger] pre.a@[i] == neg_sum_mask(
                a.a@,
                b.a@,
            )[i] by {
                let w = t_of(-a.a@[i].v - b.a@[i].v);
                assert(step.a@[i].v == t_of(0 - a.a@[i].v));
                crate::torus::lemma_t_of_sub(-a.a@[i].v, b.a@[i].v as int);
                vstd::arithmetic::div_mod::lemma_small_mod(b.a@[i].v as nat, t_mod() as nat);
                vstd::arithmetic::div_mod::lemma_mod_bound(-a.a@[i].v - b.a@[i].v, t_mod());
                assert(w as u64 == w);
                assert(pre.a@[i].v == w);
                assert(neg_sum_mask(a.a@, b.a@)[i] == (Torus { v: w as u64 }));
            }
            assert(pre.a@ =~= neg_sum_mask(a.a@, b.a@));
            crate::torus::lemma_t_of_sub(MU_TRUE - a.b@, b.b@);
            vstd::arithmetic::div_mod::lemma_small_mod(b.b.v as nat, t_mod() as nat);
            assert(pre.b@ == t_of(MU_TRUE - a.b@ - b.b@));
        }
        let lut = Self::sign_table(ck.bootstrapping_key.degree);
        Self::programmable_bootstrap(&pre, &lut, &ck.bootstrapping_key)
    }

    /// AND: bootstrap `(0, -1/8) + a + b` with the sign table.  The result is
    /// exactly the bootstrap of that pre-combination.
    pub fn and(a: &TlweSample, b: &TlweSample, ck: &TfheCloudKey) -> (r: TlweSample)
        requires
            a.wf(),
            b.wf(),
            ck.wf(),
            a.params == ck.gate_params(),
            b.params == ck.gate_params(),
        ensures
            r.wf(),
            r.params == ck.gate_params(),
            pbs_output(
                r,
                sum_mask(a.a@, b.a@),
                t_of(MU_FALSE + a.b@ + b.b@),
                const_table(ck.bootstrapping_key.degree as int, MU_TRUE),
                ck.bootstrapping_key,
            ),
    {
        let bias = TlweSample::trivial(&Torus::new(MU_FALSE), a.params);
        let step = bias.add(a);
        let pre = step.add(b);
        proof {
            lemma_additive_pre(a, b, step, pre, MU_FALSE);
        }
        let lut = Self::sign_table(ck.bootstrapping_key.degree);
        Self::programmable_bootstrap(&pre, &lut, &ck.bootstrapping_key)
    }

    /// OR: bootstrap `(0, 1/8) + a + b` with the sign table.  The result is
    /// exactly the bootstrap of that pre-combination.
    pub fn or(a: &TlweSample, b: &TlweSample, ck: &TfheCloudKey) -> (r: TlweSample)
        requires
            a.wf(),
            b.wf(),
            ck.wf(),
            a.params == ck.gate_params(),
            b.params == ck.gate_params(),
        ensures
            r.wf(),
            r.params == ck.gate_params(),
            pbs_output(
                r,
                sum_mask(a.a@, b.a@),
                t_of(MU_TRUE + a.b@ + b.b@),
                const_table(ck.bootstrapping_key.degree as int, MU_TRUE),
                ck.bootstrapping_key,
            ),
    {
        let bias = TlweSample::trivial(&Torus::new(MU_TRUE), a.params);
        let step = bias.add(a);
        let pre = step.add(b);
        proof {
            lemma_additive_pre(a, b, step, pre, MU_TRUE);
        }
        let lut = Self::sign_table(ck.bootstrapping_key.degree);
        Self::programmable_bootstrap(&pre, &lut, &ck.bootstrapping_key)
    }

    /// XOR: bootstrap `2 * (a + b) + (0, 1/4)` with the sign table.  The
    /// result is exactly the bootstrap of that pre-combination.
    pub fn xor(a: &TlweSample, b: &TlweSample, ck: &TfheCloudKey) -> (r: TlweSample)
        requires
            a.wf(),
            b.wf(),
            ck.wf(),
            a.params == ck.gate_params(),
            b.params == ck.gate_params(),
        ensures
            r.wf(),
            r.params == ck.gate_params(),
            pbs_output(
                r,
                xor_mask(a.a@, b.a@),
                t_of(2 * (a.b@ + b.b@) + MU_QUARTER),
                const_table(ck.bootstrapping_key.degree as int, MU_TRUE),
                ck.bootstrapping_key,
            ),
    {
        let bias = TlweSample::trivial(&Torus::new(MU_QUARTER), a.params);
        let sum = a.add(b);
        let doubled = sum.scalar_mul(2);
        let pre = doubled.add(&bias);
        proof {
            assert forall|i: int| 0 <= i < a.params.n implies #[trigger] pre.a@[i] == xor_mask(
                a.a@,
                b.a@,
            )[i] by {
                let w = t_of(2 * (a.a@[i].v + b.a@[i].v));
                crate::torus::lemma_t_of_mul(2, a.a@[i].v + b.a@[i].v);
                vstd::arithmetic::div_mod::lemma_mod_bound(
                    2 * (a.a@[i].v + b.a@[i].v),
                    t_mod(),
                );
                assert(doubled.a@[i].v == t_of(2 * t_of(a.a@[i].v + b.a@[i].v)));
                assert(doubled.a@[i].v == w);
                vstd::arithmetic::div_mod::lemma_small_mod(w as nat, t_mod() as nat);
                assert(pre.a@[i].v == t_of(w + 0));
                assert(w as u64 == w);
                assert(xor_mask(a.a@, b.a@)[i] == (Torus { v: w as u64 }));
            }
            assert(pre.a@ =~= xor_mask(a.a@, b.a@));
            crate::torus::lemma_t_of_mul(2, a.b@ + b.b@);
            crate::torus::lemma_t_of_add(2 * (a.b@ + b.b@), MU_QUARTER as int);
            vstd::arithmetic::div_mod::lemma_mod_bound(2 * (a.b@ + b.b@), t_mod());
            vstd::arithmetic::div_mod::lemma_mod_twice(2 * (a.b@ + b.b@), t_mod());
            vstd::arithmetic::div_mod::lemma_small_mod(MU_QUARTER as nat, t_mod() as nat);
            assert(pre.b@ == t_of(2 * (a.b@ + b.b@) + MU_QUARTER));
        }
        let lut = Self::sign_table(ck.bootstrapping_key.degree);
        Self::programmable_bootstrap(&pre, &lut, &ck.bootstrapping_key)
    }

    /// NOT: plain negation.  The encodings `1/8` and `-1/8` are opposite
    /// points, so no bootstrap is needed and the phase is negated exactly.
    pub fn not(a: &TlweSample, ck: &TfheCloudKey) -> (r: TlweSample)
        requires
            a.wf(),
            ck.wf(),
            a.params == ck.gate_params(),
        ensures
            r.wf(),
            r.params == ck.gate_params(),
            r.a@.len() == a.a@.len(),
            forall|i: int| 0 <= i < a.a@.len() ==> #[trigger] r.a@[i].v == t_of(-1 * a.a@[i].v),
            r.b@ == t_of(-1 * a.b@),
            forall|s: Seq<i64>|
                s.len() == a.params.n && crate::lwe::key_bounded(s) ==> #[trigger] r.phase(s)
                    == crate::torus::t_of(-1 * a.phase(s)),
    {
        a.scalar_mul(-1)
    }

    /// MUX: `(s AND a) OR (NOT s AND b)`.  The two AND outputs exist with
    /// their exact bootstrap contracts, and the result is the OR bootstrap of
    /// them.
    pub fn mux(s: &TlweSample, a: &TlweSample, b: &TlweSample, ck: &TfheCloudKey) -> (r:
        TlweSample)
        requires
            s.wf(),
            a.wf(),
            b.wf(),
            ck.wf(),
            s.params == ck.gate_params(),
            a.params == ck.gate_params(),
            b.params == ck.gate_params(),
        ensures
            r.wf(),
            r.params == ck.gate_params(),
            exists|u: TlweSample, v: TlweSample|
                {
                    &&& #[trigger] pbs_output(
                        u,
                        sum_mask(s.a@, a.a@),
                        t_of(MU_FALSE + s.b@ + a.b@),
                        const_table(ck.bootstrapping_key.degree as int, MU_TRUE),
                        ck.bootstrapping_key,
                    )
                    &&& #[trigger] pbs_output(
                        v,
                        sum_mask(neg_mask(s.a@), b.a@),
                        t_of(MU_FALSE + t_of(-1 * s.b@) + b.b@),
                        const_table(ck.bootstrapping_key.degree as int, MU_TRUE),
                        ck.bootstrapping_key,
                    )
                    &&& pbs_output(
                        r,
                        sum_mask(u.a@, v.a@),
                        t_of(MU_TRUE + u.b@ + v.b@),
                        const_table(ck.bootstrapping_key.degree as int, MU_TRUE),
                        ck.bootstrapping_key,
                    )
                },
    {
        let s_and_a = Self::and(s, a, ck);
        let not_s = Self::not(s, ck);
        let not_s_and_b = Self::and(&not_s, b, ck);
        let r = Self::or(&s_and_a, &not_s_and_b, ck);
        proof {
            assert forall|i: int| 0 <= i < s.params.n implies #[trigger] not_s.a@[i] == neg_mask(
                s.a@,
            )[i] by {
                let w = t_of(-1 * s.a@[i].v);
                vstd::arithmetic::div_mod::lemma_mod_bound(-1 * s.a@[i].v, t_mod());
                assert(w as u64 == w);
                assert(not_s.a@[i].v == w);
                assert(neg_mask(s.a@)[i] == (Torus { v: w as u64 }));
            }
            assert(not_s.a@ =~= neg_mask(s.a@));
            assert(not_s.b@ == t_of(-1 * s.b@));
        }
        r
    }
}

/// The additive pre-combination `(0, mu) + a + b` built in two steps has the
/// summed mask and body.
proof fn lemma_additive_pre(
    a: &TlweSample,
    b: &TlweSample,
    step: TlweSample,
    pre: TlweSample,
    mu: u64,
)
    requires
        a.wf(),
        b.wf(),
        a.params == b.params,
        step.a@.len() == a.a@.len(),
        pre.a@.len() == a.a@.len(),
        forall|i: int| 0 <= i < a.params.n ==> #[trigger] step.a@[i].v == t_of(0 + a.a@[i].v),
        forall|i: int|
            0 <= i < a.params.n ==> #[trigger] pre.a@[i].v == t_of(step.a@[i].v + b.a@[i].v),
        step.b@ == t_of(mu + a.b@),
        pre.b@ == t_of(step.b@ + b.b@),
    ensures
        pre.a@ == sum_mask(a.a@, b.a@),
        pre.b@ == t_of(mu + a.b@ + b.b@),
{
    assert forall|i: int| 0 <= i < a.params.n implies #[trigger] pre.a@[i] == sum_mask(
        a.a@,
        b.a@,
    )[i] by {
        let w = t_of(a.a@[i].v + b.a@[i].v);
        vstd::arithmetic::div_mod::lemma_small_mod(a.a@[i].v as nat, t_mod() as nat);
        assert(step.a@[i].v == a.a@[i].v);
        vstd::arithmetic::div_mod::lemma_mod_bound(a.a@[i].v + b.a@[i].v, t_mod());
        assert(w as u64 == w);
        assert(pre.a@[i].v == w);
        assert(sum_mask(a.a@, b.a@)[i] == (Torus { v: w as u64 }));
    }
    assert(pre.a@ =~= sum_mask(a.a@, b.a@));
    crate::torus::lemma_t_of_add(mu + a.b@, b.b@);
    vstd::arithmetic::div_mod::lemma_small_mod(b.b.v as nat, t_mod() as nat);
}

/// A rotated coefficient is a reduced numerator.
proof fn lemma_rot_coeff_reduced(p: Seq<Torus>, e: int, t: int)
    ensures
        0 <= crate::poly::rot_coeff(p, e, t) < t_mod(),
{
    let n = p.len() as int;
    let er: int = if e < n {
        e
    } else {
        e - n
    };
    let flip: int = if e < n {
        1
    } else {
        -1
    };
    if t >= er {
        vstd::arithmetic::div_mod::lemma_mod_bound(flip * p[t - er].v, t_mod());
    } else {
        vstd::arithmetic::div_mod::lemma_mod_bound(-flip * p[t - er + n].v, t_mod());
    }
}

/// Read one torus entry.
fn index_torus(a: &Vec<Torus>, i: usize) -> (r: &Torus)
    requires
        i < a@.len(),
    ensures
        r == a@[i as int],
{
    &a[i]
}

/// Read one bootstrapping-key entry.
fn bk_at(bk: &Vec<crate::trlwe::TrgswSample>, i: usize) -> (r: &crate::trlwe::TrgswSample)
    requires
        i < bk@.len(),
    ensures
        r == bk@[i as int],
{
    &bk[i]
}

/// Encoding of bools into gate-layer samples and back.
pub struct TfheEncoder;

impl TfheEncoder {
    /// Encrypt one bit as `1/8` or `-1/8`: the phase lands within `6 * sigma`
    /// of the encoding.
    pub fn encode_bool(value: bool, sk: &TfheSecretKey) -> (r: TlweSample)
        requires
            sk.wf(),
        ensures
            r.wf(),
            r.params == sk.params.tlwe_params,
            t_dist(
                r.phase(sk.tlwe_key.coeffs@),
                if value {
                    MU_TRUE as int
                } else {
                    MU_FALSE as int
                },
            ) <= 6 * sk.params.tlwe_params.stddev,
    {
        let message = if value {
            Torus::new(MU_TRUE)
        } else {
            Torus::new(MU_FALSE)
        };
        TlweSample::encrypt(&message, &sk.tlwe_key)
    }

    /// Decode one bit: true exactly when the phase lies in the lower open
    /// half turn `(0, 1/2)`.
    pub fn decode_bool(sample: &TlweSample, sk: &TfheSecretKey) -> (r: bool)
        requires
            sk.wf(),
            sample.wf(),
            sample.params.n == sk.params.tlwe_params.n,
        ensures
            r == (0 < sample.phase(sk.tlwe_key.coeffs@) < 0x8000_0000_0000_0000),
    {
        let p = sample.decrypt_phase(&sk.tlwe_key);
        let v = p.value();
        0 < v && v < 0x8000_0000_0000_0000
    }

    /// Encrypt a vector of bits.
    pub fn encode_bits(bits: &Vec<bool>, sk: &TfheSecretKey) -> (r: Vec<TlweSample>)
        requires
            sk.wf(),
        ensures
            r@.len() == bits@.len(),
            forall|i: int|
                0 <= i < r@.len() ==> (#[trigger] r@[i]).wf() && r@[i].params
                    == sk.params.tlwe_params,
            forall|i: int|
                0 <= i < r@.len() ==> t_dist(
                    (#[trigger] r@[i]).phase(sk.tlwe_key.coeffs@),
                    if bits@[i] {
                        MU_TRUE as int
                    } else {
                        MU_FALSE as int
                    },
                ) <= 6 * sk.params.tlwe_params.stddev,
    {
        let mut r: Vec<TlweSample> = Vec::new();
        let n = bits.len();
        let mut i: usize = 0;
        while i < n
            invariant
                i == r@.len() <= n,
                sk.wf(),
                n == bits@.len(),
                forall|j: int|
                    0 <= j < i ==> (#[trigger] r@[j]).wf() && r@[j].params
                        == sk.params.tlwe_params,
                forall|j: int|
                    0 <= j < i ==> t_dist(
                        (#[trigger] r@[j]).phase(sk.tlwe_key.coeffs@),
                        if bits@[j] {
                            MU_TRUE as int
                        } else {
                            MU_FALSE as int
                        },
                    ) <= 6 * sk.params.tlwe_params.stddev,
            decreases n - i,
        {
            r.push(Self::encode_bool(bits[i], sk));
            i = i + 1;
        }
        r
    }

    /// Decode a vector of bits.
    pub fn decode_bits(samples: &Vec<TlweSample>, sk: &TfheSecretKey) -> (r: Vec<bool>)
        requires
            sk.wf(),
            forall|i: int|
                0 <= i < samples@.len() ==> (#[trigger] samples@[i]).wf() && samples@[i].params.n
                    == sk.params.tlwe_params.n,
        ensures
            r@.len() == samples@.len(),
            forall|i: int|
                0 <= i < r@.len() ==> #[trigger] r@[i] == (0 < samples@[i].phase(
                    sk.tlwe_key.coeffs@,
                ) < 0x8000_0000_0000_0000),
    {
        let mut r: Vec<bool> = Vec::new();
        let n = samples.len();
        let mut i: usize = 0;
        while i < n
            invariant
                i == r@.len() <= n,
                sk.wf(),
                n == samples@.len(),
                forall|j: int|
                    0 <= j < samples@.len() ==> (#[trigger] samples@[j]).wf()
                        && samples@[j].params.n == sk.params.tlwe_params.n,
                forall|j: int|
                    0 <= j < i ==> #[trigger] r@[j] == (0 < samples@[j].phase(sk.tlwe_key.coeffs@)
                        < 0x8000_0000_0000_0000),
            decreases n - i,
        {
            let s = sample_at(samples, i);
            r.push(Self::decode_bool(s, sk));
            i = i + 1;
        }
        r
    }
}

/// Decoding is correct within the margin: a phase within less than an eighth
/// of a turn of a bit's encoding decodes to that bit.  Together with the
/// encoder's noise bound this gives the encode/decode round trip, for single
/// bits and element-wise for bit vectors, whenever `8 * 6 * sigma` stays
/// below a full turn.
pub proof fn lemma_encoded_bit_decodes(p: int, b: bool, bound: int)
    requires
        0 <= p < t_mod(),
        0 <= bound,
        8 * bound < t_mod(),
        t_dist(
            p,
            if b {
                MU_TRUE as int
            } else {
                MU_FALSE as int
            },
        ) <= bound,
    ensures
        (0 < p < 0x8000_0000_0000_0000) <==> b,
{
    let m = t_mod();
    let mu: int = if b {
        MU_TRUE as int
    } else {
        MU_FALSE as int
    };
    let d = crate::torus::t_of(p - mu);
    vstd::arithmetic::div_mod::lemma_mod_bound(p - mu, m);
    vstd::arithmetic::div_mod::lemma_small_mod(d as nat, m as nat);
    crate::lwe::lemma_mod_add_shift(p, mu, d, m);
    vstd::arithmetic::div_mod::lemma_small_mod(p as nat, m as nat);
    if 2 * d < m {
        // p == mu + d, a short way above the encoding
        vstd::arithmetic::div_mod::lemma_small_mod((mu + d) as nat, m as nat);
    } else {
        // p == mu + d - m, a short way below the encoding
        vstd::arithmetic::div_mod::lemma_mod_multiples_vanish(1, mu + d - m, m);
        vstd::arithmetic::div_mod::lemma_small_mod((mu + d - m) as nat, m as nat);
    }
}

/// Read one sample.
fn sample_at(samples: &Vec<TlweSample>, i: usize) -> (r: &TlweSample)
    requires
        i < samples@.len(),
    ensures
        r == samples@[i as int],
{
    &samples[i]
}

} // verus!
