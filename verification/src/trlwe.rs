//! TRLWE: the ring variant of TLWE over polynomials modulo `X^N + 1`.
//!
//! A sample is a pair of torus polynomials `(a, b)` with
//! `b = a * s + mu + e`.  The ring variant carries whole tables of torus
//! values at once, which is what blind rotation walks with CMux during
//! bootstrapping.

use vstd::prelude::*;
use vstd::arithmetic::div_mod::lemma_small_mod;
use crate::lwe::key_bounded;
use crate::noise::{gaussian_torus, random_bool, random_u64};
use crate::poly::{negacyclic_coeff, TorusPoly};
use crate::tgsw::decompose_core;
use crate::torus::{t_dist, t_mod, t_of, Torus};

verus! {

/// Coefficient `i` of the phase polynomial `b - a * s` of a ring sample
/// under the key polynomial `s`.
pub open spec fn ring_phase_coeff(c: TrlweSample, s: Seq<i64>, i: int) -> int {
    t_of(c.b.coeffs@[i].v - negacyclic_coeff(c.a.coeffs@, s, i, c.n as int))
}

/// The phase coefficient a ring gadget row carries under key `s`: the mask
/// rows hold `-m * h_j * s(X)`, the body rows `m * h_j` in the constant
/// coefficient.
pub open spec fn ring_gadget_mu(
    on_mask: bool,
    j: int,
    m: int,
    s: Seq<i64>,
    t: int,
    l: int,
    bg_bit: int,
) -> int {
    if on_mask {
        t_of(-s[t] * t_of(m * crate::tgsw::gadget_h(j, l, bg_bit)))
    } else if t == 0 {
        t_of(m * crate::tgsw::gadget_h(j, l, bg_bit))
    } else {
        0
    }
}

/// The level-`j` balanced digits of every coefficient of a polynomial, as an
/// integer polynomial aligned with it.
pub open spec fn digit_seq(p: Seq<Torus>, j: int, l: int, bg_bit: int) -> Seq<i64> {
    Seq::new(p.len(), |t: int| crate::tgsw::spec_digit(p[t].v as int, j, l, bg_bit) as i64)
}

/// The coefficient-wise difference of two torus coefficient vectors, modulo 1.
pub open spec fn seq_diff(x: Seq<Torus>, y: Seq<Torus>) -> Seq<Torus> {
    Seq::new(x.len(), |i: int| (Torus { v: t_of(x[i].v - y[i].v) as u64 }))
}

/// Coefficient `t` of the contribution of external-product step `s`: the
/// gadget row of component `s / l` at level `s % l`, multiplied by the digit
/// polynomial of that component of the input `(pa, pb)`.
pub open spec fn ext_step_coeff(
    g: TrgswSample,
    pa: Seq<Torus>,
    pb: Seq<Torus>,
    s: int,
    t: int,
    on_mask: bool,
) -> int {
    let l = g.l as int;
    let row = g.rows@[s / l]@[s % l];
    let rowp = if on_mask {
        row.a.coeffs@
    } else {
        row.b.coeffs@
    };
    let src = if s < l {
        pa
    } else {
        pb
    };
    negacyclic_coeff(rowp, digit_seq(src, s % l, l, g.bg_bit as int), t, g.n as int)
}

/// Coefficient `t` of one component of the external product after folding
/// the first `s` steps, reduced modulo 1.
pub open spec fn ext_fold_coeff(
    g: TrgswSample,
    pa: Seq<Torus>,
    pb: Seq<Torus>,
    s: int,
    t: int,
    on_mask: bool,
) -> int
    decreases s,
{
    if s <= 0 {
        0
    } else {
        t_of(ext_fold_coeff(g, pa, pb, s - 1, t, on_mask) + ext_step_coeff(g, pa, pb, s - 1, t, on_mask))
    }
}

/// Every fold value is a reduced numerator.
pub(crate) proof fn lemma_ext_fold_reduced(
    g: TrgswSample,
    pa: Seq<Torus>,
    pb: Seq<Torus>,
    s: int,
    t: int,
    on_mask: bool,
)
    ensures
        0 <= ext_fold_coeff(g, pa, pb, s, t, on_mask) < t_mod(),
{
    if s <= 0 {
    } else {
        vstd::arithmetic::div_mod::lemma_mod_bound(
            ext_fold_coeff(g, pa, pb, s - 1, t, on_mask) + ext_step_coeff(
                g,
                pa,
                pb,
                s - 1,
                t,
                on_mask,
            ),
            t_mod(),
        );
    }
}

/// A secret key for the ring variant: a binary polynomial of degree below `n`.
#[derive(Clone, Debug)]
pub struct TrlweSecretKey {
    pub coeffs: Vec<i64>,
    pub n: usize,
    pub stddev: u64,
}

impl TrlweSecretKey {
    /// Well-formed: `n` coefficients in {-1, 0, 1}, valid noise width.
    pub open spec fn wf(self) -> bool {
        &&& 0 < self.n < 0x1000_0000
        &&& 0 < self.stddev < 0x0800_0000_0000_0000
        &&& self.coeffs@.len() == self.n
        &&& key_bounded(self.coeffs@)
    }

    /// A fresh uniform binary key.
    pub fn generate_binary(n: usize, stddev: u64) -> (r: TrlweSecretKey)
        requires
            0 < n < 0x1000_0000,
            0 < stddev < 0x0800_0000_0000_0000,
        ensures
            r.wf(),
            r.n == n,
            r.stddev == stddev,
    {
        let mut coeffs: Vec<i64> = Vec::new();
        while coeffs.len() < n
            invariant
                coeffs@.len() <= n,
                forall|i: int|
                    0 <= i < coeffs@.len() ==> #[trigger] coeffs@[i] == 0 || coeffs@[i] == 1,
            decreases n - coeffs.len(),
        {
            let bit: i64 = if random_bool() {
                1
            } else {
                0
            };
            coeffs.push(bit);
        }
        TrlweSecretKey { coeffs, n, stddev }
    }

    /// A key with the given coefficients, shared with a plain TLWE key.
    pub fn from_coeffs(coeffs: Vec<i64>, stddev: u64) -> (r: TrlweSecretKey)
        requires
            0 < coeffs@.len() < 0x1000_0000,
            key_bounded(coeffs@),
            0 < stddev < 0x0800_0000_0000_0000,
        ensures
            r.wf(),
            r.n == coeffs@.len(),
            r.coeffs == coeffs,
            r.stddev == stddev,
    {
        let n = coeffs.len();
        TrlweSecretKey { coeffs, n, stddev }
    }
}

/// A TRLWE sample: the mask polynomial `a` and the body `b`.
#[derive(Clone, Debug)]
pub struct TrlweSample {
    pub a: TorusPoly,
    pub b: TorusPoly,
    pub n: usize,
    pub stddev: u64,
}

impl TrlweSample {
    /// Well-formed: both polynomials have `n` coefficients.
    pub open spec fn wf(self) -> bool {
        &&& 0 < self.n < 0x1000_0000
        &&& 0 < self.stddev < 0x0800_0000_0000_0000
        &&& self.a.coeffs@.len() == self.n
        &&& self.b.coeffs@.len() == self.n
    }

    /// A trivial (noiseless, keyless) sample of a polynomial message.
    pub fn trivial(message: &TorusPoly, stddev: u64) -> (r: TrlweSample)
        requires
            0 < message.coeffs@.len() < 0x1000_0000,
            0 < stddev < 0x0800_0000_0000_0000,
        ensures
            r.wf(),
            r.n == message.coeffs@.len(),
            r.stddev == stddev,
            r.b.coeffs@ == message.coeffs@,
            forall|i: int| 0 <= i < r.n ==> #[trigger] r.a.coeffs@[i].v == 0,
    {
        let n = message.coeffs.len();
        TrlweSample { a: TorusPoly::zeros(n), b: message.duplicate(), n, stddev }
    }

    /// Encrypt a polynomial message: uniform mask, Gaussian noise on every
    /// coefficient, body `a * s + mu + e`.  Every coefficient of the phase
    /// under the key lands within `6 * sigma` of the message coefficient.
    pub fn encrypt(message: &TorusPoly, sk: &TrlweSecretKey) -> (r: TrlweSample)
        requires
            sk.wf(),
            message.coeffs@.len() == sk.n,
        ensures
            r.wf(),
            r.n == sk.n,
            r.stddev == sk.stddev,
            forall|i: int|
                0 <= i < sk.n ==> t_dist(
                    ring_phase_coeff(r, sk.coeffs@, i),
                    message.coeffs@[i].v as int,
                ) <= 6 * sk.stddev,
    {
        let n = sk.n;
        let mut acoeffs: Vec<Torus> = Vec::new();
        while acoeffs.len() < n
            invariant
                acoeffs@.len() <= n,
            decreases n - acoeffs.len(),
        {
            acoeffs.push(Torus::new(random_u64()));
        }
        let a = TorusPoly { coeffs: acoeffs };
        let mask = a.mul_int(&sk.coeffs);
        let masked = mask.add(message);
        let mut b_coeffs: Vec<Torus> = Vec::new();
        let mut i: usize = 0;
        while i < n
            invariant
                i == b_coeffs@.len() <= n,
                n == masked.coeffs@.len(),
                n == mask.coeffs@.len(),
                n == message.coeffs@.len(),
                n == a.coeffs@.len(),
                sk.wf(),
                n == sk.n,
                forall|t: int|
                    0 <= t < n ==> #[trigger] mask.coeffs@[t].v == t_of(
                        negacyclic_coeff(a.coeffs@, sk.coeffs@, t, n as int),
                    ),
                forall|t: int|
                    0 <= t < n ==> #[trigger] masked.coeffs@[t].v == t_of(
                        mask.coeffs@[t].v + message.coeffs@[t].v,
                    ),
                forall|t: int|
                    0 <= t < i ==> t_dist(
                        t_of(
                            (#[trigger] b_coeffs@[t]).v - negacyclic_coeff(
                                a.coeffs@,
                                sk.coeffs@,
                                t,
                                n as int,
                            ),
                        ),
                        message.coeffs@[t].v as int,
                    ) <= 6 * sk.stddev,
            decreases n - i,
        {
            let e = gaussian_torus(sk.stddev);
            let bi = masked.coeffs[i].add(&Torus::of_int(e));
            proof {
                let ncc = negacyclic_coeff(a.coeffs@, sk.coeffs@, i as int, n as int);
                let mu = message.coeffs@[i as int].v as int;
                crate::torus::lemma_t_of_add(ncc, mu);
                lemma_small_mod(message.coeffs@[i as int].v as nat, t_mod() as nat);
                assert(masked.coeffs@[i as int].v == t_of(ncc + mu));
                crate::torus::lemma_t_of_add(ncc + mu, e as int);
                assert(bi@ == t_of(ncc + mu + e));
                crate::lwe::lemma_phase_of_masked(ncc, mu, e as int, t_mod());
                crate::lwe::lemma_zq_dist_of_noise(mu, e as int, t_mod());
                assert(t_dist(t_of(bi@ - ncc), mu) == crate::lwe::zq_dist(
                    t_of(bi@ - ncc),
                    mu,
                    t_mod(),
                ));
            }
            b_coeffs.push(bi);
            i = i + 1;
        }
        let r = TrlweSample { a, b: TorusPoly { coeffs: b_coeffs }, n, stddev: sk.stddev };
        r
    }

    /// The phase polynomial `b - a * s`, coefficient-exact.
    pub fn phase(&self, sk: &TrlweSecretKey) -> (r: TorusPoly)
        requires
            self.wf(),
            sk.wf(),
            sk.n == self.n,
        ensures
            r.coeffs@.len() == self.n,
            forall|i: int|
                0 <= i < self.n ==> #[trigger] r.coeffs@[i].v == ring_phase_coeff(
                    *self,
                    sk.coeffs@,
                    i,
                ),
    {
        let mask = self.a.mul_int(&sk.coeffs);
        let r = self.b.sub(&mask);
        proof {
            assert forall|i: int| 0 <= i < self.n implies #[trigger] r.coeffs@[i].v
                == ring_phase_coeff(*self, sk.coeffs@, i) by {
                let ncc = negacyclic_coeff(self.a.coeffs@, sk.coeffs@, i, self.n as int);
                crate::torus::lemma_t_of_sub(self.b.coeffs@[i].v as int, ncc);
                lemma_small_mod(self.b.coeffs@[i].v as nat, t_mod() as nat);
            }
        }
        r
    }

    /// Component-wise sum: every coefficient of both polynomials is the sum
    /// of the operands' coefficients, modulo 1.
    pub fn add(&self, other: &TrlweSample) -> (r: TrlweSample)
        requires
            self.wf(),
            other.wf(),
            other.n == self.n,
        ensures
            r.wf(),
            r.n == self.n,
            r.stddev == self.stddev,
            forall|i: int|
                0 <= i < self.n ==> #[trigger] r.a.coeffs@[i].v == crate::torus::t_of(
                    self.a.coeffs@[i].v + other.a.coeffs@[i].v,
                ),
            forall|i: int|
                0 <= i < self.n ==> #[trigger] r.b.coeffs@[i].v == crate::torus::t_of(
                    self.b.coeffs@[i].v + other.b.coeffs@[i].v,
                ),
    {
        TrlweSample {
            a: self.a.add(&other.a),
            b: self.b.add(&other.b),
            n: self.n,
            stddev: self.stddev,
        }
    }

    /// Component-wise difference: every coefficient is the difference of the
    /// operands' coefficients, modulo 1.
    pub fn sub(&self, other: &TrlweSample) -> (r: TrlweSample)
        requires
            self.wf(),
            other.wf(),
            other.n == self.n,
        ensures
            r.wf(),
            r.n == self.n,
            r.stddev == self.stddev,
            forall|i: int|
                0 <= i < self.n ==> #[trigger] r.a.coeffs@[i].v == crate::torus::t_of(
                    self.a.coeffs@[i].v - other.a.coeffs@[i].v,
                ),
            forall|i: int|
                0 <= i < self.n ==> #[trigger] r.b.coeffs@[i].v == crate::torus::t_of(
                    self.b.coeffs@[i].v - other.b.coeffs@[i].v,
                ),
    {
        TrlweSample {
            a: self.a.sub(&other.a),
            b: self.b.sub(&other.b),
            n: self.n,
            stddev: self.stddev,
        }
    }

    /// Multiply both components by the monomial `X^e`: coefficients rotate
    /// by `e` and negate on wrap-around, in both polynomials.
    pub fn rotate(&self, e: usize) -> (r: TrlweSample)
        requires
            self.wf(),
            e < 2 * self.n,
        ensures
            r.wf(),
            r.n == self.n,
            r.stddev == self.stddev,
            forall|i: int|
                0 <= i < self.n ==> #[trigger] r.a.coeffs@[i].v == crate::poly::rot_coeff(
                    self.a.coeffs@,
                    e as int,
                    i,
                ),
            forall|i: int|
                0 <= i < self.n ==> #[trigger] r.b.coeffs@[i].v == crate::poly::rot_coeff(
                    self.b.coeffs@,
                    e as int,
                    i,
                ),
    {
        TrlweSample {
            a: self.a.monomial_mul(e),
            b: self.b.monomial_mul(e),
            n: self.n,
            stddev: self.stddev,
        }
    }
}

/// A TGSW sample over the ring: `2 * l` TRLWE rows carrying a small integer
/// message against the gadget, one pair of rows per gadget level.
#[derive(Clone, Debug)]
pub struct TrgswSample {
    pub rows: Vec<Vec<TrlweSample>>,
    pub l: usize,
    pub bg_bit: u32,
    pub n: usize,
    pub stddev: u64,
}

impl TrgswSample {
    /// Well-formed: two component rows of `l` levels of well-formed samples.
    pub open spec fn wf(self) -> bool {
        &&& 0 < self.n < 0x1000_0000
        &&& 0 < self.stddev < 0x0800_0000_0000_0000
        &&& 1 <= self.l
        &&& 1 <= self.bg_bit
        &&& self.l * self.bg_bit <= 64
        &&& self.rows@.len() == 2
        &&& forall|i: int| 0 <= i < 2 ==> #[trigger] self.rows@[i]@.len() == self.l
        &&& forall|i: int, j: int|
            0 <= i < 2 && 0 <= j < self.l ==> (#[trigger] self.rows@[i]@[j]).wf()
                && self.rows@[i]@[j].n == self.n && self.rows@[i]@[j].stddev == self.stddev
    }

    /// Encrypt a small integer under a ring key: fresh encryptions of zero
    /// with the message added against the gadget entry, on the mask component
    /// for the first row and the body for the second.  Every phase
    /// coefficient of every row lands within `6 * sigma` of its gadget value.
    pub fn encrypt(message: i64, sk: &TrlweSecretKey, l: usize, bg_bit: u32) -> (r: TrgswSample)
        requires
            sk.wf(),
            1 <= l,
            1 <= bg_bit,
            l * bg_bit <= 64,
        ensures
            r.wf(),
            r.n == sk.n,
            r.l == l,
            r.bg_bit == bg_bit,
            r.stddev == sk.stddev,
            forall|i: int, j: int, t: int|
                0 <= i < 2 && 0 <= j < l && 0 <= t < sk.n ==> t_dist(
                    #[trigger] ring_phase_coeff(r.rows@[i]@[j], sk.coeffs@, t),
                    ring_gadget_mu(
                        i == 0,
                        j,
                        message as int,
                        sk.coeffs@,
                        t,
                        l as int,
                        bg_bit as int,
                    ),
                ) <= 6 * sk.stddev,
    {
        let n = sk.n;
        let zero = TorusPoly::zeros(n);
        let mut rows: Vec<Vec<TrlweSample>> = Vec::new();
        let mut i: usize = 0;
        while i < 2
            invariant
                i <= 2,
                sk.wf(),
                n == sk.n,
                1 <= l,
                1 <= bg_bit,
                l * bg_bit <= 64,
                zero.coeffs@.len() == n,
                forall|t: int| 0 <= t < n ==> #[trigger] zero.coeffs@[t].v == 0,
                rows@.len() == i,
                forall|ii: int| 0 <= ii < i ==> #[trigger] rows@[ii]@.len() == l,
                forall|ii: int, j: int|
                    0 <= ii < i && 0 <= j < l ==> (#[trigger] rows@[ii]@[j]).wf()
                        && rows@[ii]@[j].n == n && rows@[ii]@[j].stddev == sk.stddev,
                forall|ii: int, j: int, t: int|
                    0 <= ii < i && 0 <= j < l && 0 <= t < n ==> t_dist(
                        #[trigger] ring_phase_coeff(rows@[ii]@[j], sk.coeffs@, t),
                        ring_gadget_mu(
                            ii == 0,
                            j,
                            message as int,
                            sk.coeffs@,
                            t,
                            l as int,
                            bg_bit as int,
                        ),
                    ) <= 6 * sk.stddev,
            decreases 2 - i,
        {
            let mut row: Vec<TrlweSample> = Vec::new();
            let mut j: usize = 0;
            while j < l
                invariant
                    j <= l,
                    i < 2,
                    sk.wf(),
                    n == sk.n,
                    1 <= l,
                    1 <= bg_bit,
                    l * bg_bit <= 64,
                    zero.coeffs@.len() == n,
                    forall|t: int| 0 <= t < n ==> #[trigger] zero.coeffs@[t].v == 0,
                    row@.len() == j,
                    forall|jj: int|
                        0 <= jj < j ==> (#[trigger] row@[jj]).wf() && row@[jj].n == n
                            && row@[jj].stddev == sk.stddev,
                    forall|jj: int, t: int|
                        0 <= jj < j && 0 <= t < n ==> t_dist(
                            #[trigger] ring_phase_coeff(row@[jj], sk.coeffs@, t),
                            ring_gadget_mu(
                                i == 0,
                                jj,
                                message as int,
                                sk.coeffs@,
                                t,
                                l as int,
                                bg_bit as int,
                            ),
                        ) <= 6 * sk.stddev,
                decreases l - j,
            {
                let base = TrlweSample::encrypt(&zero, sk);
                let mh = crate::tgsw::gadget_torus(j, l, bg_bit).mul_scalar(message);
                let entry = add_const_at(&base, i == 0, &mh);
                proof {
                    assert forall|t: int| 0 <= t < n implies t_dist(
                        ring_phase_coeff(entry, sk.coeffs@, t),
                        ring_gadget_mu(
                            i == 0,
                            j as int,
                            message as int,
                            sk.coeffs@,
                            t,
                            l as int,
                            bg_bit as int,
                        ),
                    ) <= 6 * sk.stddev by {
                        let p0 = ring_phase_coeff(base, sk.coeffs@, t);
                        let mu = ring_gadget_mu(
                            i == 0,
                            j as int,
                            message as int,
                            sk.coeffs@,
                            t,
                            l as int,
                            bg_bit as int,
                        );
                        assert(t_dist(p0, 0) <= 6 * sk.stddev);
                        if i == 0 {
                            let eff = -sk.coeffs@[t] * mh@;
                            crate::tgsw::lemma_shifted_dist(p0, eff, 6 * sk.stddev as int);
                            assert(mu == t_of(eff));
                        } else if t == 0 {
                            crate::tgsw::lemma_shifted_dist(p0, mh@, 6 * sk.stddev as int);
                            vstd::arithmetic::div_mod::lemma_mod_bound(mh@, t_mod());
                            vstd::arithmetic::div_mod::lemma_mod_twice(
                                message * crate::tgsw::gadget_h(
                                    j as int,
                                    l as int,
                                    bg_bit as int,
                                ),
                                t_mod(),
                            );
                            assert(mu == t_of(mh@));
                        } else {
                            assert(mu == 0);
                        }
                    }
                }
                row.push(entry);
                j = j + 1;
            }
            rows.push(row);
            i = i + 1;
        }
        TrgswSample { rows, l, bg_bit, n, stddev: sk.stddev }
    }

    /// The external product with a TRLWE sample: decompose both component
    /// polynomials coefficient-wise and take the digit-polynomial products
    /// with the gadget rows.  Every coefficient of the result is exactly the
    /// fold of the digit-weighted row products.
    #[verifier::rlimit(60)]
    pub fn external_product(&self, c: &TrlweSample) -> (r: TrlweSample)
        requires
            self.wf(),
            c.wf(),
            c.n == self.n,
        ensures
            r.wf(),
            r.n == self.n,
            r.stddev == c.stddev,
            forall|t: int|
                0 <= t < self.n ==> #[trigger] r.a.coeffs@[t].v == ext_fold_coeff(
                    *self,
                    c.a.coeffs@,
                    c.b.coeffs@,
                    2 * self.l,
                    t,
                    true,
                ),
            forall|t: int|
                0 <= t < self.n ==> #[trigger] r.b.coeffs@[t].v == ext_fold_coeff(
                    *self,
                    c.a.coeffs@,
                    c.b.coeffs@,
                    2 * self.l,
                    t,
                    false,
                ),
    {
        let n = self.n;
        let zero = TorusPoly::zeros(n);
        let mut acc = TrlweSample::trivial(&zero, c.stddev);
        let mut comp: usize = 0;
        while comp < 2
            invariant
                comp <= 2,
                self.wf(),
                c.wf(),
                c.n == n,
                n == self.n,
                zero.coeffs@.len() == n,
                acc.wf(),
                acc.n == n,
                acc.stddev == c.stddev,
                forall|tt: int|
                    0 <= tt < n ==> #[trigger] acc.a.coeffs@[tt].v == ext_fold_coeff(
                        *self,
                        c.a.coeffs@,
                        c.b.coeffs@,
                        comp * self.l,
                        tt,
                        true,
                    ),
                forall|tt: int|
                    0 <= tt < n ==> #[trigger] acc.b.coeffs@[tt].v == ext_fold_coeff(
                        *self,
                        c.a.coeffs@,
                        c.b.coeffs@,
                        comp * self.l,
                        tt,
                        false,
                    ),
            decreases 2 - comp,
        {
            let p: &TorusPoly = if comp == 0 {
                &c.a
            } else {
                &c.b
            };
            let ghost src = p.coeffs@;
            // digits[t] holds the l digits of coefficient t
            let mut digits: Vec<Vec<i64>> = Vec::new();
            let mut t: usize = 0;
            while t < n
                invariant
                    t == digits@.len() <= n,
                    self.wf(),
                    n == self.n,
                    p.coeffs@.len() == n,
                    src == p.coeffs@,
                    forall|tt: int| 0 <= tt < t ==> (#[trigger] digits@[tt])@.len() == self.l,
                    forall|tt: int, jj: int|
                        0 <= tt < t && 0 <= jj < self.l ==> (#[trigger] digits@[tt]@[jj])
                            == crate::tgsw::spec_digit(
                            src[tt].v as int,
                            jj,
                            self.l as int,
                            self.bg_bit as int,
                        ),
                decreases n - t,
            {
                digits.push(decompose_core(&p.coeffs[t], self.l, self.bg_bit));
                t = t + 1;
            }
            let mut j: usize = 0;
            while j < self.l
                invariant
                    j <= self.l,
                    comp < 2,
                    self.wf(),
                    c.wf(),
                    c.n == n,
                    n == self.n,
                    src == (if comp == 0 {
                        c.a.coeffs@
                    } else {
                        c.b.coeffs@
                    }),
                    src.len() == n,
                    digits@.len() == n,
                    forall|tt: int| 0 <= tt < n ==> (#[trigger] digits@[tt])@.len() == self.l,
                    forall|tt: int, jj: int|
                        0 <= tt < n && 0 <= jj < self.l ==> (#[trigger] digits@[tt]@[jj])
                            == crate::tgsw::spec_digit(
                            src[tt].v as int,
                            jj,
                            self.l as int,
                            self.bg_bit as int,
                        ),
                    acc.wf(),
                    acc.n == n,
                    acc.stddev == c.stddev,
                    forall|tt: int|
                        0 <= tt < n ==> #[trigger] acc.a.coeffs@[tt].v == ext_fold_coeff(
                            *self,
                            c.a.coeffs@,
                            c.b.coeffs@,
                            comp * self.l + j,
                            tt,
                            true,
                        ),
                    forall|tt: int|
                        0 <= tt < n ==> #[trigger] acc.b.coeffs@[tt].v == ext_fold_coeff(
                            *self,
                            c.a.coeffs@,
                            c.b.coeffs@,
                            comp * self.l + j,
                            tt,
                            false,
                        ),
                decreases self.l - j,
            {
                // the digit polynomial of level j
                let mut dj: Vec<i64> = Vec::new();
                let mut t2: usize = 0;
                while t2 < n
                    invariant
                        t2 == dj@.len() <= n,
                        digits@.len() == n,
                        j < self.l,
                        self.wf(),
                        n == self.n,
                        src.len() == n,
                        forall|tt: int| 0 <= tt < n ==> (#[trigger] digits@[tt])@.len() == self.l,
                        forall|tt: int, jj: int|
                            0 <= tt < n && 0 <= jj < self.l ==> (#[trigger] digits@[tt]@[jj])
                                == crate::tgsw::spec_digit(
                                src[tt].v as int,
                                jj,
                                self.l as int,
                                self.bg_bit as int,
                            ),
                        forall|tt: int| 0 <= tt < t2 ==> #[trigger] dj@[tt] == digits@[tt]@[j as int],
                    decreases n - t2,
                {
                    let row_d = &digits[t2];
                    dj.push(row_d[j]);
                    t2 = t2 + 1;
                }
                proof {
                    assert forall|tt: int| 0 <= tt < n implies #[trigger] dj@[tt] == digit_seq(
                        src,
                        j as int,
                        self.l as int,
                        self.bg_bit as int,
                    )[tt] by {
                        let dv = crate::tgsw::spec_digit(
                            src[tt].v as int,
                            j as int,
                            self.l as int,
                            self.bg_bit as int,
                        );
                        assert(dj@[tt] == dv);
                        assert(dv as i64 == dv);
                    }
                    assert(dj@ =~= digit_seq(src, j as int, self.l as int, self.bg_bit as int));
                }
                let grow = row_at(&self.rows, comp, j);
                let pa = grow.a.mul_int(&dj);
                let pb = grow.b.mul_int(&dj);
                let term = TrlweSample { a: pa, b: pb, n, stddev: acc.stddev };
                let newacc = acc.add(&term);
                proof {
                    let ghost s = comp * self.l + j;
                    vstd::arithmetic::div_mod::lemma_fundamental_div_mod_converse(
                        s as int,
                        self.l as int,
                        comp as int,
                        j as int,
                    );
                    assert(s / (self.l as int) == comp && s % (self.l as int) == j);
                    assert((s < self.l) == (comp == 0)) by (nonlinear_arith)
                        requires
                            s == comp * self.l + j && 0 <= j < self.l && 0 <= comp < 2 && self.l
                                >= 1,
                    ;
                    assert forall|tt: int| 0 <= tt < n implies #[trigger] newacc.a.coeffs@[tt].v
                        == ext_fold_coeff(*self, c.a.coeffs@, c.b.coeffs@, s + 1, tt, true)
                        && newacc.b.coeffs@[tt].v == ext_fold_coeff(
                        *self,
                        c.a.coeffs@,
                        c.b.coeffs@,
                        s + 1,
                        tt,
                        false,
                    ) by {
                        let fa = ext_fold_coeff(*self, c.a.coeffs@, c.b.coeffs@, s as int, tt, true);
                        let fb = ext_fold_coeff(
                            *self,
                            c.a.coeffs@,
                            c.b.coeffs@,
                            s as int,
                            tt,
                            false,
                        );
                        let sa = ext_step_coeff(*self, c.a.coeffs@, c.b.coeffs@, s as int, tt, true);
                        let sb = ext_step_coeff(
                            *self,
                            c.a.coeffs@,
                            c.b.coeffs@,
                            s as int,
                            tt,
                            false,
                        );
                        assert(pa.coeffs@[tt].v == t_of(sa));
                        assert(pb.coeffs@[tt].v == t_of(sb));
                        lemma_ext_fold_reduced(*self, c.a.coeffs@, c.b.coeffs@, s as int, tt, true);
                        lemma_ext_fold_reduced(
                            *self,
                            c.a.coeffs@,
                            c.b.coeffs@,
                            s as int,
                            tt,
                            false,
                        );
                        crate::torus::lemma_t_of_add(fa, sa);
                        crate::torus::lemma_t_of_add(fb, sb);
                        lemma_small_mod(fa as nat, t_mod() as nat);
                        lemma_small_mod(fb as nat, t_mod() as nat);
                    }
                }
                acc = newacc;
                j = j + 1;
            }
            proof {
                assert((comp + 1) * self.l == comp * self.l + self.l) by (nonlinear_arith);
            }
            comp = comp + 1;
        }
        acc
    }

    /// CMux: returns `c0 + self (x) (c1 - c0)` exactly, coefficient by
    /// coefficient; it carries `c0` when this sample encrypts 0 and `c1` when
    /// it encrypts 1, up to product noise.
    pub fn cmux(&self, c0: &TrlweSample, c1: &TrlweSample) -> (r: TrlweSample)
        requires
            self.wf(),
            c0.wf(),
            c1.wf(),
            c0.n == self.n,
            c1.n == self.n,
            c0.stddev == c1.stddev,
        ensures
            r.wf(),
            r.n == self.n,
            r.stddev == c0.stddev,
            forall|t: int|
                0 <= t < self.n ==> #[trigger] r.a.coeffs@[t].v == t_of(
                    ext_fold_coeff(
                        *self,
                        seq_diff(c1.a.coeffs@, c0.a.coeffs@),
                        seq_diff(c1.b.coeffs@, c0.b.coeffs@),
                        2 * self.l,
                        t,
                        true,
                    ) + c0.a.coeffs@[t].v,
                ),
            forall|t: int|
                0 <= t < self.n ==> #[trigger] r.b.coeffs@[t].v == t_of(
                    ext_fold_coeff(
                        *self,
                        seq_diff(c1.a.coeffs@, c0.a.coeffs@),
                        seq_diff(c1.b.coeffs@, c0.b.coeffs@),
                        2 * self.l,
                        t,
                        false,
                    ) + c0.b.coeffs@[t].v,
                ),
    {
        let diff = c1.sub(c0);
        let prod = self.external_product(&diff);
        let r = prod.add(c0);
        proof {
            assert forall|t: int| 0 <= t < self.n implies #[trigger] diff.a.coeffs@[t] == seq_diff(
                c1.a.coeffs@,
                c0.a.coeffs@,
            )[t] by {
                let da = t_of(c1.a.coeffs@[t].v - c0.a.coeffs@[t].v);
                vstd::arithmetic::div_mod::lemma_mod_bound(
                    c1.a.coeffs@[t].v - c0.a.coeffs@[t].v,
                    t_mod(),
                );
                assert(da as u64 == da);
                assert(seq_diff(c1.a.coeffs@, c0.a.coeffs@)[t] == (Torus { v: da as u64 }));
                assert(diff.a.coeffs@[t].v == da);
            }
            assert forall|t: int| 0 <= t < self.n implies #[trigger] diff.b.coeffs@[t] == seq_diff(
                c1.b.coeffs@,
                c0.b.coeffs@,
            )[t] by {
                let db = t_of(c1.b.coeffs@[t].v - c0.b.coeffs@[t].v);
                vstd::arithmetic::div_mod::lemma_mod_bound(
                    c1.b.coeffs@[t].v - c0.b.coeffs@[t].v,
                    t_mod(),
                );
                assert(db as u64 == db);
                assert(seq_diff(c1.b.coeffs@, c0.b.coeffs@)[t] == (Torus { v: db as u64 }));
                assert(diff.b.coeffs@[t].v == db);
            }
            assert(diff.a.coeffs@ =~= seq_diff(c1.a.coeffs@, c0.a.coeffs@));
            assert(diff.b.coeffs@ =~= seq_diff(c1.b.coeffs@, c0.b.coeffs@));
        }
        r
    }
}

/// Read one gadget row.
fn row_at(rows: &Vec<Vec<TrlweSample>>, i: usize, j: usize) -> (r: &TrlweSample)
    requires
        i < rows@.len(),
        j < rows@[i as int]@.len(),
    ensures
        r == rows@[i as int]@[j as int],
{
    &rows[i][j]
}

/// Add a torus value to the constant coefficient of one component: on the
/// mask the phase of coefficient `t` shifts by `-s[t] * mh`; on the body only
/// the constant phase coefficient shifts, by `mh`.
#[verifier::rlimit(50)]
fn add_const_at(c: &TrlweSample, on_mask: bool, mh: &Torus) -> (r: TrlweSample)
    requires
        c.wf(),
    ensures
        r.wf(),
        r.n == c.n,
        r.stddev == c.stddev,
        forall|s: Seq<i64>, t: int|
            s.len() == c.n && 0 <= t < c.n ==> #[trigger] ring_phase_coeff(r, s, t) == (if on_mask {
                crate::torus::t_of(ring_phase_coeff(*c, s, t) + -s[t] * mh@)
            } else if t == 0 {
                crate::torus::t_of(ring_phase_coeff(*c, s, t) + mh@)
            } else {
                ring_phase_coeff(*c, s, t)
            }),
{
    if on_mask {
        let mut a = c.a.duplicate();
        let c0 = index_poly(&a, 0).add(mh);
        a.coeffs.set(0, c0);
        let r = TrlweSample { a, b: c.b.duplicate(), n: c.n, stddev: c.stddev };
        proof {
            assert forall|s: Seq<i64>, t: int|
                s.len() == c.n && 0 <= t < c.n implies #[trigger] ring_phase_coeff(r, s, t)
                == crate::torus::t_of(ring_phase_coeff(*c, s, t) + -s[t] * mh@) by {
                crate::poly::lemma_ncc_const_update(
                    c.a.coeffs@,
                    r.a.coeffs@,
                    s,
                    t,
                    c.n as int,
                    mh@,
                );
                crate::tgsw::lemma_phase_after_dot_shift(
                    c.b.coeffs@[t].v as int,
                    crate::poly::negacyclic_coeff(c.a.coeffs@, s, t, c.n as int),
                    crate::poly::negacyclic_coeff(r.a.coeffs@, s, t, c.n as int),
                    (s[t] as int) * mh@,
                );
                assert(-s[t] * mh@ == -((s[t] as int) * mh@)) by (nonlinear_arith);
            }
        }
        r
    } else {
        let mut b = c.b.duplicate();
        let c0 = index_poly(&b, 0).add(mh);
        b.coeffs.set(0, c0);
        let r = TrlweSample { a: c.a.duplicate(), b, n: c.n, stddev: c.stddev };
        proof {
            assert(r.a.coeffs@ =~= c.a.coeffs@);
            assert forall|s: Seq<i64>, t: int|
                s.len() == c.n && 0 <= t < c.n implies #[trigger] ring_phase_coeff(r, s, t) == (
            if t == 0 {
                crate::torus::t_of(ring_phase_coeff(*c, s, t) + mh@)
            } else {
                ring_phase_coeff(*c, s, t)
            }) by {
                if t == 0 {
                    let ncc = crate::poly::negacyclic_coeff(c.a.coeffs@, s, 0, c.n as int);
                    let b0 = c.b.coeffs@[0].v as int;
                    crate::torus::lemma_t_of_add(b0, mh@);
                    lemma_small_mod(c.b.coeffs@[0].v as nat, t_mod() as nat);
                    crate::torus::lemma_t_of_sub(b0 + mh@, ncc);
                    crate::torus::lemma_t_of_sub(b0, ncc);
                    vstd::arithmetic::div_mod::lemma_mod_bound(mh@, t_mod());
                    lemma_small_mod(mh.v as nat, t_mod() as nat);
                    // (b0 + mh) - ncc == (b0 - ncc) + mh, both reduced alike
                    crate::torus::lemma_t_of_add(b0 - ncc, mh@);
                    crate::torus::lemma_t_of_idem(b0 - ncc);
                }
            }
        }
        r
    }
}

/// Read one coefficient.
fn index_poly(p: &TorusPoly, i: usize) -> (r: Torus)
    requires
        i < p.coeffs@.len(),
    ensures
        r == p.coeffs@[i as int],
{
    p.coeffs[i]
}

} // verus!
