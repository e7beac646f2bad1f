//! TLWE: LWE over the real torus.
//!
//! A sample is `(a, b)` with torus entries and `b = sum a_i s_i + mu + e`
//! modulo 1.  The phase `b - sum a_i s_i` recovers `mu + e` exactly; the
//! noise module bounds `|e|` by six standard deviations, so correctness and
//! linearity are stated and proved without any probabilistic reasoning.

use vstd::prelude::*;
use vstd::arithmetic::div_mod::{lemma_mod_bound, lemma_small_mod};
use crate::lwe::{
    key_bounded, key_binary, lemma_dot_of_scaled_mod, lemma_dot_of_sum_mod, lemma_phase_add,
    lemma_phase_of_masked, lemma_phase_scale, lemma_zq_dist_of_noise, lwe_dot, zq_dist,
};
use crate::noise::{gaussian_torus, random_below, random_bool};
use crate::torus::{t_dist, t_mod, t_of, Torus};

verus! {

/// The numerators of a torus vector.
pub open spec fn tvals(a: Seq<Torus>) -> Seq<u64> {
    a.map_values(|t: Torus| t.v)
}

/// The inner product of a torus vector and an integer key, as an integer
/// numerator (not yet reduced).
pub open spec fn t_dot(a: Seq<Torus>, s: Seq<i64>) -> int {
    lwe_dot(tvals(a), s)
}

/// TLWE parameters: dimension and the Gaussian width of the noise as a torus
/// numerator (units of `2^-64`).
#[derive(Clone, Copy, PartialEq, Eq, Structural, Debug)]
pub struct TlweParams {
    pub n: usize,
    pub stddev: u64,
}

impl TlweParams {
    /// Validity: a positive dimension that fits in memory, and a positive,
    /// small noise width.
    pub open spec fn wf(self) -> bool {
        &&& 0 < self.n < 0x1000_0000
        &&& 0 < self.stddev < 0x0800_0000_0000_0000
    }
}

impl Default for TlweParams {
    /// The recommended parameter set: n = 630, sigma = 2e-9.
    fn default() -> (r: TlweParams)
        ensures
            r.n == 630 && r.stddev == 36893488147,
            r.wf(),
    {
        TlweParams { n: 630, stddev: 36893488147 }
    }
}

/// A TLWE secret key: a short vector of -1/0/1 coefficients.
#[derive(Clone, Debug)]
pub struct TlweSecretKey {
    pub coeffs: Vec<i64>,
    pub params: TlweParams,
}

impl TlweSecretKey {
    /// Well-formed: the length matches the dimension and coefficients are small.
    pub open spec fn wf(self) -> bool {
        &&& self.params.wf()
        &&& self.coeffs@.len() == self.params.n
        &&& key_bounded(self.coeffs@)
    }

    /// A fresh uniform key with coefficients in {0, 1}.
    pub fn generate_binary(params: TlweParams) -> (r: TlweSecretKey)
        requires
            params.wf(),
        ensures
            r.wf(),
            r.params == params,
            key_binary(r.coeffs@),
    {
        let mut coeffs: Vec<i64> = Vec::new();
        while coeffs.len() < params.n
            invariant
                coeffs@.len() <= params.n,
                forall|i: int|
                    0 <= i < coeffs@.len() ==> #[trigger] coeffs@[i] == 0 || coeffs@[i] == 1,
            decreases params.n - coeffs.len(),
        {
            let bit: i64 = if random_bool() {
                1
            } else {
                0
            };
            coeffs.push(bit);
        }
        TlweSecretKey { coeffs, params }
    }

    /// A fresh uniform key with coefficients in {-1, 0, 1}.
    pub fn generate_ternary(params: TlweParams) -> (r: TlweSecretKey)
        requires
            params.wf(),
        ensures
            r.wf(),
            r.params == params,
    {
        let mut coeffs: Vec<i64> = Vec::new();
        while coeffs.len() < params.n
            invariant
                coeffs@.len() <= params.n,
                forall|i: int| 0 <= i < coeffs@.len() ==> -1 <= #[trigger] coeffs@[i] <= 1,
            decreases params.n - coeffs.len(),
        {
            let t = random_below(3);
            let c: i64 = if t == 0 {
                -1
            } else if t == 1 {
                0
            } else {
                1
            };
            coeffs.push(c);
        }
        TlweSecretKey { coeffs, params }
    }
}

/// A TLWE sample: a torus mask `a` and the masked message `b`.
#[derive(Clone, Debug)]
pub struct TlweSample {
    pub a: Vec<Torus>,
    pub b: Torus,
    pub params: TlweParams,
}

impl TlweSample {
    /// Well-formed: the mask has the dimension of the parameters.
    pub open spec fn wf(self) -> bool {
        &&& self.params.wf()
        &&& self.a@.len() == self.params.n
    }

    /// The phase under a key: `b - sum a_i s_i`, reduced to `[0, 1)`.
    /// For a valid encryption of `mu` this is `mu + e` modulo 1.
    pub open spec fn phase(self, s: Seq<i64>) -> int {
        t_of(self.b@ - t_dot(self.a@, s))
    }

    /// Encrypt a torus message: a uniform torus mask and a Gaussian torus
    /// error.  The phase under the key lands within `6 * sigma` of the
    /// message, measured around the torus.
    pub fn encrypt(message: &Torus, sk: &TlweSecretKey) -> (r: TlweSample)
        requires
            sk.wf(),
        ensures
            r.wf(),
            r.params == sk.params,
            t_dist(r.phase(sk.coeffs@), message@) <= 6 * sk.params.stddev,
    {
        let mut a: Vec<Torus> = Vec::new();
        while a.len() < sk.params.n
            invariant
                a@.len() <= sk.params.n,
            decreases sk.params.n - a.len(),
        {
            let x = crate::noise::random_u64();
            a.push(Torus::new(x));
        }
        let d = dot_torus(&a, &sk.coeffs);
        let e = gaussian_torus(sk.params.stddev);
        let et = Torus::of_int(e);
        let b = d.add(message).add(&et);
        proof {
            let dot = t_dot(a@, sk.coeffs@);
            crate::torus::lemma_t_of_add(dot, message@);
            crate::torus::lemma_t_of_add(dot + message@, e as int);
            assert(b@ == t_of(dot + message@ + e));
            let r0 = TlweSample { a: a, b: b, params: sk.params };
            lemma_phase_of_masked(dot, message@, e as int, t_mod());
            assert(r0.phase(sk.coeffs@) == t_of(message@ + e));
            lemma_zq_dist_of_noise(message@, e as int, t_mod());
            assert(t_dist(r0.phase(sk.coeffs@), message@) == zq_dist(
                r0.phase(sk.coeffs@),
                message@,
                t_mod(),
            ));
        }
        TlweSample { a, b, params: sk.params }
    }

    /// The phase of the sample under the key, as a torus point.
    pub fn decrypt_phase(&self, sk: &TlweSecretKey) -> (r: Torus)
        requires
            sk.wf(),
            self.wf(),
            self.params.n == sk.params.n,
        ensures
            r@ == self.phase(sk.coeffs@),
    {
        let d = dot_torus(&self.a, &sk.coeffs);
        let r = self.b.sub(&d);
        proof {
            crate::torus::lemma_t_of_sub(self.b@, t_dot(self.a@, sk.coeffs@));
        }
        r
    }

    /// Decode one bit with the plain-TLWE encoding: true exactly when the
    /// phase lies in the open middle interval (1/4, 3/4).
    pub fn decrypt_binary(&self, sk: &TlweSecretKey) -> (r: bool)
        requires
            sk.wf(),
            self.wf(),
            self.params.n == sk.params.n,
        ensures
            r == (0x4000_0000_0000_0000 < self.phase(sk.coeffs@) < 0xC000_0000_0000_0000),
    {
        let p = self.decrypt_phase(sk);
        let v = p.value();
        0x4000_0000_0000_0000 < v && v < 0xC000_0000_0000_0000
    }

    /// Component-wise sum: under any key the phase is the sum of the phases,
    /// modulo 1.
    pub fn add(&self, other: &TlweSample) -> (r: TlweSample)
        requires
            self.wf(),
            other.wf(),
            self.params.n == other.params.n,
        ensures
            r.wf(),
            r.params == self.params,
            r.a@.len() == self.a@.len(),
            forall|j: int|
                0 <= j < self.a@.len() ==> #[trigger] r.a@[j].v == t_of(
                    self.a@[j].v + other.a@[j].v,
                ),
            r.b@ == t_of(self.b@ + other.b@),
            forall|s: Seq<i64>|
                s.len() == self.params.n && key_bounded(s) ==> #[trigger] r.phase(s) == t_of(
                    self.phase(s) + other.phase(s),
                ),
    {
        let n = self.a.len();
        let mut a: Vec<Torus> = Vec::new();
        let mut i: usize = 0;
        while i < n
            invariant
                i == a@.len() <= n,
                n == self.a@.len() == other.a@.len(),
                forall|j: int|
                    0 <= j < i ==> #[trigger] a@[j].v == t_of(self.a@[j].v + other.a@[j].v),
            decreases n - i,
        {
            let x = self.a[i].add(&other.a[i]);
            a.push(x);
            i = i + 1;
        }
        let b = self.b.add(&other.b);
        let r = TlweSample { a, b, params: self.params };
        proof {
            assert forall|s: Seq<i64>| s.len() == self.params.n && key_bounded(s) implies #[trigger] r.phase(
                s,
            ) == t_of(self.phase(s) + other.phase(s)) by {
                lemma_tvals_pointwise_sum(self.a@, other.a@, r.a@, s);
                lemma_phase_add(
                    self.b@,
                    other.b@,
                    t_dot(self.a@, s),
                    t_dot(other.a@, s),
                    t_dot(r.a@, s),
                    t_mod(),
                );
            }
        }
        r
    }

    /// Component-wise difference: under any key the phase is the difference
    /// of the phases, modulo 1.
    pub fn sub(&self, other: &TlweSample) -> (r: TlweSample)
        requires
            self.wf(),
            other.wf(),
            self.params.n == other.params.n,
        ensures
            r.wf(),
            r.params == self.params,
            r.a@.len() == self.a@.len(),
            forall|j: int|
                0 <= j < self.a@.len() ==> #[trigger] r.a@[j].v == t_of(
                    self.a@[j].v - other.a@[j].v,
                ),
            r.b@ == t_of(self.b@ - other.b@),
            forall|s: Seq<i64>|
                s.len() == self.params.n && key_bounded(s) ==> #[trigger] r.phase(s) == t_of(
                    self.phase(s) - other.phase(s),
                ),
    {
        let neg = other.scalar_mul(-1);
        let r = self.add(&neg);
        proof {
            assert forall|j: int| 0 <= j < self.a@.len() implies #[trigger] r.a@[j].v == t_of(
                self.a@[j].v - other.a@[j].v,
            ) by {
                lemma_wrap_diff(self.a@[j].v as int, other.a@[j].v as int);
            }
            lemma_wrap_diff(self.b@, other.b@);
            assert forall|s: Seq<i64>| s.len() == self.params.n && key_bounded(s) implies #[trigger] r.phase(
                s,
            ) == t_of(self.phase(s) - other.phase(s)) by {
                assert(neg.phase(s) == t_of(-1 * other.phase(s)));
                assert(-1 * other.phase(s) == -other.phase(s)) by (nonlinear_arith);
                crate::torus::lemma_t_of_add(self.phase(s), -other.phase(s));
                lemma_mod_bound(self.phase(s) - other.phase(s), t_mod());
                lemma_mod_bound(other.phase(s), t_mod());
                crate::torus::lemma_t_of_idem(self.phase(s));
                assert(t_of(self.phase(s)) == self.phase(s)) by {
                    lemma_mod_bound(self.b@ - t_dot(self.a@, s), t_mod());
                    lemma_small_mod(self.phase(s) as nat, t_mod() as nat);
                }
                assert(t_of(-other.phase(s)) == t_of(t_of(-other.phase(s))));
                crate::torus::lemma_t_of_add(self.phase(s), t_of(-other.phase(s)));
            }
        }
        r
    }

    /// Scaling by a signed integer, component-wise: under any key the phase
    /// is scaled the same way, modulo 1.
    pub fn scalar_mul(&self, scalar: i64) -> (r: TlweSample)
        requires
            self.wf(),
        ensures
            r.wf(),
            r.params == self.params,
            r.a@.len() == self.a@.len(),
            forall|j: int|
                0 <= j < self.a@.len() ==> #[trigger] r.a@[j].v == t_of(scalar * self.a@[j].v),
            r.b@ == t_of(scalar * self.b@),
            forall|s: Seq<i64>|
                s.len() == self.params.n && key_bounded(s) ==> #[trigger] r.phase(s) == t_of(
                    scalar * self.phase(s),
                ),
    {
        let n = self.a.len();
        let mut a: Vec<Torus> = Vec::new();
        let mut i: usize = 0;
        while i < n
            invariant
                i == a@.len() <= n,
                n == self.a@.len(),
                forall|j: int| 0 <= j < i ==> #[trigger] a@[j].v == t_of(scalar * self.a@[j].v),
            decreases n - i,
        {
            let x = self.a[i].mul_scalar(scalar);
            a.push(x);
            i = i + 1;
        }
        let b = self.b.mul_scalar(scalar);
        let r = TlweSample { a, b, params: self.params };
        proof {
            assert forall|s: Seq<i64>| s.len() == self.params.n && key_bounded(s) implies #[trigger] r.phase(
                s,
            ) == t_of(scalar * self.phase(s)) by {
                lemma_tvals_pointwise_scaled(self.a@, r.a@, s, scalar as int);
                lemma_phase_scale_signed(
                    self.b@,
                    t_dot(self.a@, s),
                    t_dot(r.a@, s),
                    scalar as int,
                );
            }
        }
        r
    }

    /// An element-wise copy with a known contract.
    pub fn clone_sample(&self) -> (r: TlweSample)
        ensures
            r.a@ == self.a@,
            r.b == self.b,
            r.params == self.params,
    {
        let n = self.a.len();
        let mut a: Vec<Torus> = Vec::new();
        let mut i: usize = 0;
        while i < n
            invariant
                i == a@.len() <= n,
                n == self.a@.len(),
                forall|j: int| 0 <= j < i ==> #[trigger] a@[j] == self.a@[j],
            decreases n - i,
        {
            a.push(self.a[i]);
            i = i + 1;
        }
        proof {
            assert(a@ =~= self.a@);
        }
        TlweSample { a, b: self.b, params: self.params }
    }

    /// Extract the constant coefficient of a ring sample as a plain TLWE
    /// sample of dimension `N` under the same key coefficients: the mask is
    /// `a_0, -a_(N-1), ..., -a_1` and the body is `b_0`.
    pub fn extract_from_trlwe(c: &crate::trlwe::TrlweSample) -> (r: TlweSample)
        requires
            c.wf(),
        ensures
            r.wf(),
            r.params.n == c.n,
            r.params.stddev == c.stddev,
            r.b@ == c.b.coeffs@[0].v,
            r.a@[0] == c.a.coeffs@[0],
            forall|j: int|
                1 <= j < c.n ==> #[trigger] r.a@[j].v == t_of(-c.a.coeffs@[c.n - j].v),
    {
        let n = c.n;
        let mut a: Vec<Torus> = Vec::new();
        a.push(c.a.coeffs[0]);
        let mut j: usize = 1;
        while j < n
            invariant
                1 <= j == a@.len() <= n,
                c.wf(),
                n == c.n,
                a@[0] == c.a.coeffs@[0],
                forall|i: int| 1 <= i < j ==> #[trigger] a@[i].v == t_of(-c.a.coeffs@[n - i].v),
            decreases n - j,
        {
            a.push(c.a.coeffs[n - j].neg());
            j = j + 1;
        }
        let params = TlweParams { n, stddev: c.stddev };
        TlweSample { a, b: c.b.coeffs[0], params }
    }

    /// A trivial (noiseless, keyless) sample: zero mask and `b = mu`.  Its
    /// phase is the message under every key of the right dimension.
    pub fn trivial(message: &Torus, params: TlweParams) -> (r: TlweSample)
        requires
            params.wf(),
        ensures
            r.wf(),
            r.params == params,
            r.b == message,
            forall|j: int| 0 <= j < r.a@.len() ==> #[trigger] r.a@[j].v == 0,
            forall|s: Seq<i64>| s.len() == params.n ==> #[trigger] r.phase(s) == message@,
    {
        let mut a: Vec<Torus> = Vec::new();
        while a.len() < params.n
            invariant
                a@.len() <= params.n,
                forall|j: int| 0 <= j < a@.len() ==> #[trigger] a@[j].v == 0,
            decreases params.n - a.len(),
        {
            a.push(Torus::new(0));
        }
        let r = TlweSample { a, b: *message, params };
        proof {
            assert forall|s: Seq<i64>| s.len() == params.n implies #[trigger] r.phase(s)
                == message@ by {
                lemma_dot_of_zero_mask(r.a@, s);
                lemma_small_mod(message.v as nat, t_mod() as nat);
            }
        }
        r
    }
}

/// A key-switch key: for each input-key coordinate and each decomposition
/// level, a TLWE encryption under the output key of a scaled copy of that
/// coordinate.  Declared for dimension translation; the Boolean pipeline here
/// works with matched dimensions and never consumes it.
#[derive(Clone, Debug)]
pub struct TlweKeySwitchKey {
    pub samples: Vec<Vec<TlweSample>>,
    pub n: usize,
    pub t: usize,
    pub base_bit: u32,
}

impl TlweKeySwitchKey {
    /// Well-formed: one row of `t` samples per input-key coordinate.
    pub open spec fn wf(self) -> bool {
        &&& self.samples@.len() == self.n
        &&& forall|i: int| 0 <= i < self.n ==> #[trigger] self.samples@[i]@.len() == self.t
    }

    /// Build the key-switch key: entry `(i, j)` encrypts
    /// `key_in[i] / 2^(j * base_bit)` under the output key, so its phase
    /// lands within `6 * sigma` of that scaled coordinate.
    pub fn generate(
        key_in: &TlweSecretKey,
        key_out: &TlweSecretKey,
        t: usize,
        base_bit: u32,
    ) -> (r: TlweKeySwitchKey)
        requires
            key_in.wf(),
            key_out.wf(),
            1 <= base_bit,
            1 <= t < 0x1000,
            t * base_bit <= 64,
        ensures
            r.wf(),
            r.n == key_in.params.n,
            r.t == t,
            r.base_bit == base_bit,
            forall|i: int, j: int|
                0 <= i < r.n && 0 <= j < r.t ==> t_dist(
                    (#[trigger] r.samples@[i]@[j]).phase(key_out.coeffs@),
                    ksk_entry_mu(key_in.coeffs@[i] as int, j, base_bit as int),
                ) <= 6 * key_out.params.stddev,
    {
        let n = key_in.params.n;
        let mut samples: Vec<Vec<TlweSample>> = Vec::new();
        let mut i: usize = 0;
        while i < n
            invariant
                i == samples@.len() <= n,
                key_in.wf(),
                key_out.wf(),
                n == key_in.params.n,
                1 <= base_bit,
                1 <= t < 0x1000,
                t * base_bit <= 64,
                forall|ii: int| 0 <= ii < i ==> #[trigger] samples@[ii]@.len() == t,
                forall|ii: int, j: int|
                    0 <= ii < i && 0 <= j < t ==> t_dist(
                        (#[trigger] samples@[ii]@[j]).phase(key_out.coeffs@),
                        ksk_entry_mu(key_in.coeffs@[ii] as int, j, base_bit as int),
                    ) <= 6 * key_out.params.stddev,
            decreases n - i,
        {
            let ci = key_in.coeffs[i];
            let mut row: Vec<TlweSample> = Vec::new();
            let mut j: usize = 0;
            while j < t
                invariant
                    j == row@.len() <= t,
                    key_in.wf(),
                    key_out.wf(),
                    1 <= base_bit,
                    t < 0x1000,
                    t * base_bit <= 64,
                    ci == key_in.coeffs@[i as int],
                    -1 <= ci <= 1,
                    i < n,
                    n == key_in.params.n,
                    forall|jj: int|
                        0 <= jj < j ==> t_dist(
                            (#[trigger] row@[jj]).phase(key_out.coeffs@),
                            ksk_entry_mu(ci as int, jj, base_bit as int),
                        ) <= 6 * key_out.params.stddev,
                decreases t - j,
            {
                // key_in[i] / 2^(j * base_bit) as a torus point; for j == 0
                // the value is an integer, which is 0 on the torus.
                let message: Torus = if j == 0 {
                    proof {
                        lemma_ksk_entry_zero(ci as int, base_bit as int);
                    }
                    Torus::new(0)
                } else {
                    proof {
                        assert(1 <= j * base_bit <= 64) by (nonlinear_arith)
                            requires
                                1 <= j < t && 1 <= base_bit && t * base_bit <= 64,
                        ;
                    }
                    let p = crate::torus::pow2_u128(64 - (j as u32) * base_bit);
                    proof {
                        vstd::arithmetic::power2::lemma_pow2_strictly_increases(
                            (64 - j * base_bit) as nat,
                            64,
                        );
                        vstd::arithmetic::power2::lemma2_to64();
                    }
                    Torus::new(p as u64).mul_scalar(ci)
                };
                proof {
                    assert(message@ == ksk_entry_mu(ci as int, j as int, base_bit as int));
                }
                row.push(TlweSample::encrypt(&message, key_out));
                j = j + 1;
            }
            samples.push(row);
            i = i + 1;
        }
        TlweKeySwitchKey { samples, n, t, base_bit }
    }
}

/// The torus message of key-switch entry `(i, j)`: the key coordinate `c`
/// scaled down to `c / 2^(j * base_bit)`, reduced modulo 1.
pub open spec fn ksk_entry_mu(c: int, j: int, base_bit: int) -> int {
    t_of(c * vstd::arithmetic::power2::pow2((64 - j * base_bit) as nat) as int)
}

/// At level 0 the entry's message is a whole integer, which is 0 on the torus.
proof fn lemma_ksk_entry_zero(c: int, base_bit: int)
    ensures
        ksk_entry_mu(c, 0, base_bit) == 0,
{
    vstd::arithmetic::power2::lemma2_to64();
    assert(c * vstd::arithmetic::power2::pow2(64) as int == t_mod() * c) by (nonlinear_arith)
        requires
            vstd::arithmetic::power2::pow2(64) as int == t_mod(),
    ;
    vstd::arithmetic::div_mod::lemma_mod_multiples_vanish(c, 0, t_mod());
    lemma_small_mod(0, t_mod() as nat);
}

/// `x + (-1 * y mod 1)` reduces to `x - y` modulo 1.
proof fn lemma_wrap_diff(x: int, y: int)
    requires
        0 <= x < t_mod(),
        0 <= y < t_mod(),
    ensures
        t_of(x + t_of(-1 * y)) == t_of(x - y),
{
    assert(-1 * y == -y) by (nonlinear_arith);
    crate::torus::lemma_t_of_add(x, -y);
    lemma_small_mod(x as nat, t_mod() as nat);
    crate::torus::lemma_t_of_idem(-y);
}

/// A zero mask has zero inner product with every key.
proof fn lemma_dot_of_zero_mask(a: Seq<Torus>, s: Seq<i64>)
    requires
        a.len() == s.len(),
        forall|j: int| 0 <= j < a.len() ==> #[trigger] a[j].v == 0,
    ensures
        t_dot(a, s) == 0,
    decreases a.len(),
{
    if a.len() == 0 {
    } else {
        lemma_dot_of_zero_mask(a.drop_last(), s.drop_last());
        assert(tvals(a).drop_last() =~= tvals(a.drop_last()));
        assert(tvals(a).last() == 0);
        assert(0 * (s[a.len() - 1] as int) == 0) by (nonlinear_arith);
    }
}

/// Torus numerators of a pointwise torus sum satisfy the mod-q sum relation.
proof fn lemma_tvals_pointwise_sum(a1: Seq<Torus>, a2: Seq<Torus>, asum: Seq<Torus>, s: Seq<i64>)
    requires
        a1.len() == a2.len() == asum.len() == s.len(),
        key_bounded(s),
        forall|j: int| 0 <= j < asum.len() ==> #[trigger] asum[j].v == t_of(a1[j].v + a2[j].v),
    ensures
        t_dot(asum, s) % t_mod() == (t_dot(a1, s) + t_dot(a2, s)) % t_mod(),
{
    assert(forall|j: int|
        0 <= j < asum.len() ==> #[trigger] tvals(asum)[j] == (tvals(a1)[j] + tvals(a2)[j]) % t_mod());
    lemma_dot_of_sum_mod(tvals(a1), tvals(a2), tvals(asum), s, t_mod());
}

/// Torus numerators of a pointwise scaling satisfy the mod-q scaling relation
/// with the scalar reduced modulo 1.
proof fn lemma_tvals_pointwise_scaled(a: Seq<Torus>, ka: Seq<Torus>, s: Seq<i64>, c: int)
    requires
        a.len() == ka.len() == s.len(),
        key_bounded(s),
        forall|j: int| 0 <= j < ka.len() ==> #[trigger] ka[j].v == t_of(c * a[j].v),
    ensures
        t_dot(ka, s) % t_mod() == (t_of(c) * t_dot(a, s)) % t_mod(),
{
    let cm = t_of(c);
    lemma_mod_bound(c, t_mod());
    assert(forall|j: int| 0 <= j < ka.len() ==> #[trigger] tvals(ka)[j] == (cm * tvals(a)[j])
        % t_mod()) by {
        assert forall|j: int| 0 <= j < ka.len() implies #[trigger] tvals(ka)[j] == (cm
            * tvals(a)[j]) % t_mod() by {
            vstd::arithmetic::div_mod::lemma_mul_mod_noop_left(c, a[j].v as int, t_mod());
        }
    }
    lemma_dot_of_scaled_mod(tvals(a), tvals(ka), s, cm, t_mod());
}

/// Phases scale by a signed integer: reduce the scalar modulo 1 first.
proof fn lemma_phase_scale_signed(b: int, d: int, dk: int, c: int)
    requires
        0 <= b < t_mod(),
        dk % t_mod() == (t_of(c) * d) % t_mod(),
    ensures
        t_of(t_of(c * b) - dk) == t_of(c * t_of(b - d)),
{
    let m = t_mod();
    let cm = t_of(c);
    vstd::arithmetic::div_mod::lemma_mul_mod_noop_left(c, b, m);
    assert(t_of(c * b) == t_of(cm * b));
    lemma_phase_scale(b, d, dk, cm, m);
    assert(t_of(t_of(cm * b) - dk) == t_of(cm * t_of(b - d)));
    vstd::arithmetic::div_mod::lemma_mul_mod_noop_left(cm, t_of(b - d), m);
    vstd::arithmetic::div_mod::lemma_mul_mod_noop_left(c, t_of(b - d), m);
    vstd::arithmetic::div_mod::lemma_mod_twice(c, m);
}

/// The inner product of a torus mask and a key, reduced to the torus.
pub fn dot_torus(a: &Vec<Torus>, s: &Vec<i64>) -> (r: Torus)
    requires
        a@.len() == s@.len(),
    ensures
        r@ == t_of(t_dot(a@, s@)),
{
    let mut acc = Torus::new(0);
    let mut i: usize = 0;
    proof {
        assert(tvals(a@.take(0)) =~= Seq::<u64>::empty());
        lemma_small_mod(0, t_mod() as nat);
    }
    while i < a.len()
        invariant
            0 <= i <= a@.len(),
            a@.len() == s@.len(),
            acc@ == t_of(t_dot(a@.take(i as int), s@.take(i as int))),
        decreases a@.len() - i,
    {
        proof {
            assert(tvals(a@.take(i + 1)).drop_last() =~= tvals(a@.take(i as int)));
            assert(s@.take(i + 1).drop_last() =~= s@.take(i as int));
            assert(tvals(a@.take(i + 1)).last() == a@[i as int].v);
        }
        let ghost dot_prev = t_dot(a@.take(i as int), s@.take(i as int));
        let term = a[i].mul_scalar(s[i]);
        let newacc = acc.add(&term);
        proof {
            assert(t_dot(a@.take(i + 1), s@.take(i + 1)) == dot_prev + (a@[i as int].v as int) * (
            s@[i as int] as int));
            assert((s@[i as int] as int) * (a@[i as int].v as int) == (a@[i as int].v as int) * (
            s@[i as int] as int)) by (nonlinear_arith);
            crate::torus::lemma_t_of_add(dot_prev, (s@[i as int] as int) * (a@[i as int].v as int));
        }
        acc = newacc;
        i = i + 1;
    }
    proof {
        assert(a@.take(a@.len() as int) =~= a@);
        assert(s@.take(s@.len() as int) =~= s@);
    }
    acc
}

/// Linearity: scaling two samples by integer weights and adding them scales
/// and adds their phases, modulo 1.  The hypotheses are exactly what
/// `scalar_mul` and `add` ensure of their results.
pub proof fn lemma_tlwe_linear_combination(
    p1: int,
    p2: int,
    w1: int,
    w2: int,
    r1: int,
    r2: int,
    rsum: int,
)
    requires
        r1 == t_of(w1 * p1),
        r2 == t_of(w2 * p2),
        rsum == t_of(r1 + r2),
    ensures
        rsum == t_of(w1 * p1 + w2 * p2),
{
    crate::torus::lemma_t_of_add(w1 * p1, w2 * p2);
}

/// Round trip on the torus: a phase within a bound below a quarter turn of
/// the encoded bit decodes to that bit.  With `mu = 0` the sample decodes to
/// false, with `mu = 1/2` to true, whenever `6 * sigma` stays below 1/4.
pub proof fn lemma_tlwe_binary_round_trip(c: TlweSample, s: Seq<i64>, mu: int, bound: int)
    requires
        c.params.wf(),
        0 <= bound,
        4 * bound < t_mod(),
        mu == 0 || mu == t_mod() / 2,
        t_dist(c.phase(s), mu) <= bound,
    ensures
        (0x4000_0000_0000_0000 < c.phase(s) < 0xC000_0000_0000_0000) <==> mu == t_mod() / 2,
{
    let m = t_mod();
    let p = c.phase(s);
    lemma_mod_bound(c.b@ - t_dot(c.a@, s), m);
    let d = (p - mu) % m;
    lemma_mod_bound(p - mu, m);
    if p >= mu {
        lemma_small_mod((p - mu) as nat, m as nat);
    } else {
        vstd::arithmetic::div_mod::lemma_mod_multiples_vanish(1, p - mu, m);
        lemma_small_mod((p - mu + m) as nat, m as nat);
    }
}

} // verus!
