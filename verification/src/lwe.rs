//! LWE over the integers modulo `q`.
//!
//! A ciphertext is a pair `(a, b)` with `b = <a, s> + m + e (mod q)`.  The
//! phase `b - <a, s> (mod q)` recovers `m + e`, so decryption is exact up to
//! the sampled noise, whose magnitude the noise module bounds by `6 * sigma`.

use vstd::prelude::*;
use vstd::arithmetic::div_mod::{
    lemma_add_mod_noop, lemma_mod_bound, lemma_mod_multiples_vanish, lemma_mod_self_0,
    lemma_mul_mod_noop_left, lemma_small_mod, lemma_sub_mod_noop,
};
use crate::noise::{clt_bound, gaussian_noise, random_below, random_bool};

verus! {

/// Every coefficient of a secret key is -1, 0 or 1.
pub open spec fn key_bounded(s: Seq<i64>) -> bool {
    forall|i: int| 0 <= i < s.len() ==> -1 <= #[trigger] s[i] <= 1
}

/// Every coefficient is 0 or 1.
pub open spec fn key_binary(s: Seq<i64>) -> bool {
    forall|i: int| 0 <= i < s.len() ==> #[trigger] s[i] == 0 || s[i] == 1
}

/// The inner product of a mask and a key, as a mathematical integer.
pub open spec fn lwe_dot(a: Seq<u64>, s: Seq<i64>) -> int
    decreases a.len(),
{
    if a.len() == 0 {
        0
    } else {
        lwe_dot(a.drop_last(), s.drop_last()) + (a.last() as int) * (s[a.len() - 1] as int)
    }
}

/// LWE parameters: dimension, modulus, and the Gaussian width of the noise
/// in 32.32 fixed point (so `stddev == 3 * 2^32` means a deviation of 3).
#[derive(Clone, Copy, PartialEq, Eq, Structural, Debug)]
pub struct LweParams {
    pub n: usize,
    pub q: u64,
    pub stddev: u64,
}

impl LweParams {
    /// Validity: a positive dimension, a modulus of at least 2, and a
    /// positive noise width small enough for exact sampling.
    pub open spec fn wf(self) -> bool {
        &&& self.n > 0
        &&& self.q >= 2
        &&& self.q < 0x8000_0000_0000_0000
        &&& 0 < self.stddev < 0x0800_0000_0000_0000
    }
}

impl Default for LweParams {
    /// The recommended parameter set: n = 630, q = 2^32, sigma = 3.2.
    fn default() -> (r: LweParams)
        ensures
            r.n == 630 && r.q == 0x1_0000_0000 && r.stddev == 13743895347,
            r.wf(),
    {
        LweParams { n: 630, q: 0x1_0000_0000, stddev: 13743895347 }
    }
}

/// An LWE secret key: a short vector of -1/0/1 coefficients.
#[derive(Clone, Debug)]
pub struct LweSecretKey {
    pub coeffs: Vec<i64>,
    pub params: LweParams,
}

impl LweSecretKey {
    /// Well-formed: the length matches the dimension and coefficients are small.
    pub open spec fn wf(self) -> bool {
        &&& self.params.wf()
        &&& self.coeffs@.len() == self.params.n
        &&& key_bounded(self.coeffs@)
    }

    /// A fresh uniform key with coefficients in {0, 1}.
    pub fn generate_binary(params: LweParams) -> (r: LweSecretKey)
        requires
            params.wf(),
        ensures
            r.wf(),
            r.params == params,
            key_binary(r.coeffs@),
    {
        let mut coeffs: Vec<i64> = Vec::new();
        while coeffs.len() < params.n
            invariant
                coeffs@.len() <= params.n,
                forall|i: int|
                    0 <= i < coeffs@.len() ==> #[trigger] coeffs@[i] == 0 || coeffs@[i] == 1,
            decreases params.n - coeffs.len(),
        {
            let bit: i64 = if random_bool() {
                1
            } else {
                0
            };
            coeffs.push(bit);
        }
        LweSecretKey { coeffs, params }
    }

    /// A fresh uniform key with coefficients in {-1, 0, 1}.
    pub fn generate_ternary(params: LweParams) -> (r: LweSecretKey)
        requires
            params.wf(),
        ensures
            r.wf(),
            r.params == params,
    {
        let mut coeffs: Vec<i64> = Vec::new();
        while coeffs.len() < params.n
            invariant
                coeffs@.len() <= params.n,
                forall|i: int| 0 <= i < coeffs@.len() ==> -1 <= #[trigger] coeffs@[i] <= 1,
            decreases params.n - coeffs.len(),
        {
            let t = random_below(3);
            let c: i64 = if t == 0 {
                -1
            } else if t == 1 {
                0
            } else {
                1
            };
            coeffs.push(c);
        }
        LweSecretKey { coeffs, params }
    }
}

/// An LWE ciphertext: the mask `a` and the masked message `b`, all modulo `q`.
#[derive(Clone, Debug)]
pub struct LweCiphertext {
    pub a: Vec<u64>,
    pub b: u64,
    pub params: LweParams,
}

impl LweCiphertext {
    /// Well-formed: the mask has the right length and everything is reduced.
    pub open spec fn wf(self) -> bool {
        &&& self.params.wf()
        &&& self.a@.len() == self.params.n
        &&& self.b < self.params.q
        &&& forall|i: int| 0 <= i < self.a@.len() ==> #[trigger] self.a@[i] < self.params.q
    }

    /// The phase of the ciphertext under a key: `b - <a, s>` modulo `q`.
    /// For a valid encryption of `m` this is `m + e` modulo `q`.
    pub open spec fn phase(self, s: Seq<i64>) -> int {
        (self.b - lwe_dot(self.a@, s)) % (self.params.q as int)
    }

    /// Encrypt an integer message: draw a uniform mask and a Gaussian error,
    /// and mask the message with the key's inner product.  The phase under
    /// the key lands within the sampler's hard bound of the message.
    pub fn encrypt(message: u64, sk: &LweSecretKey) -> (r: LweCiphertext)
        requires
            sk.wf(),
            message < sk.params.q,
        ensures
            r.wf(),
            r.params == sk.params,
            zq_dist(r.phase(sk.coeffs@), message as int, sk.params.q as int) <= clt_bound(
                sk.params.stddev as int,
                96,
            ),
    {
        let q = sk.params.q;
        let mut a: Vec<u64> = Vec::new();
        while a.len() < sk.params.n
            invariant
                a@.len() <= sk.params.n,
                q == sk.params.q,
                sk.params.q >= 2,
                forall|i: int| 0 <= i < a@.len() ==> #[trigger] a@[i] < q,
            decreases sk.params.n - a.len(),
        {
            let x = random_below(q);
            a.push(x);
        }
        let d = dot_mod(&a, &sk.coeffs, q);
        let e = gaussian_noise(sk.params.stddev);
        let md = add_mod(d, message % q, q);
        let b = add_signed_mod(md, e, q);
        proof {
            let qi = sk.params.q as int;
            lemma_small_mod(message as nat, q as nat);
            lemma_add_mod_noop(lwe_dot(a@, sk.coeffs@), message as int, qi);
            lemma_small_mod((message % q) as nat, q as nat);
            assert(md == (lwe_dot(a@, sk.coeffs@) + message) % qi);
            lemma_add_mod_noop_pair(lwe_dot(a@, sk.coeffs@) + message, e as int, qi);
            assert(b == (lwe_dot(a@, sk.coeffs@) + message + e) % qi);
            let r0 = LweCiphertext { a: a, b: b, params: sk.params };
            lemma_sub_mod_noop(r0.b as int, lwe_dot(a@, sk.coeffs@), qi);
            lemma_mod_multiples_vanish(
                0,
                lwe_dot(a@, sk.coeffs@) % qi - lwe_dot(a@, sk.coeffs@),
                qi,
            );
            assert(r0.phase(sk.coeffs@) == (message + e) % qi) by {
                lemma_phase_of_masked(
                    lwe_dot(a@, sk.coeffs@),
                    message as int,
                    e as int,
                    qi,
                );
            }
            let bnd = clt_bound(sk.params.stddev as int, 96);
            if 2 * bnd < qi {
                lemma_zq_dist_of_noise(message as int, e as int, qi);
            } else {
                lemma_zq_dist_half(r0.phase(sk.coeffs@), message as int, qi);
            }
        }
        LweCiphertext { a, b, params: sk.params }
    }

    /// Decrypt: the phase of the ciphertext, which is the message plus noise.
    pub fn decrypt(&self, sk: &LweSecretKey) -> (r: u64)
        requires
            sk.wf(),
            self.wf(),
            self.params == sk.params,
        ensures
            r == self.phase(sk.coeffs@),
    {
        let d = dot_mod(&self.a, &sk.coeffs, self.params.q);
        let q = self.params.q;
        let r = if self.b >= d {
            self.b - d
        } else {
            q - d + self.b
        };
        proof {
            let qi = q as int;
            let dot = lwe_dot(self.a@, sk.coeffs@);
            lemma_sub_mod_noop(self.b as int, dot, qi);
            lemma_small_mod(self.b as nat, q as nat);
            if self.b >= d {
                lemma_small_mod((self.b - d) as nat, q as nat);
            } else {
                lemma_mod_multiples_vanish(1, self.b - (dot % qi), qi);
                lemma_small_mod((q - d + self.b) as nat, q as nat);
            }
        }
        r
    }

    /// Component-wise sum: the phase under any key is the sum of the phases,
    /// modulo `q`.
    pub fn add(&self, other: &LweCiphertext) -> (r: LweCiphertext)
        requires
            self.wf(),
            other.wf(),
            self.params == other.params,
        ensures
            r.wf(),
            r.params == self.params,
            forall|s: Seq<i64>|
                s.len() == self.params.n && key_bounded(s) ==> #[trigger] r.phase(s) == (
                self.phase(s) + other.phase(s)) % (self.params.q as int),
    {
        let q = self.params.q;
        let n = self.a.len();
        let mut a: Vec<u64> = Vec::new();
        let mut i: usize = 0;
        while i < n
            invariant
                i == a@.len() <= n,
                n == self.a@.len() == other.a@.len(),
                self.wf(),
                other.wf(),
                q == self.params.q,
                self.params == other.params,
                forall|j: int| 0 <= j < i ==> #[trigger] a@[j] < q,
                forall|j: int|
                    0 <= j < i ==> #[trigger] a@[j] == (self.a@[j] + other.a@[j]) % (q as int),
            decreases n - i,
        {
            let x = add_mod(self.a[i], other.a[i], q);
            a.push(x);
            i = i + 1;
        }
        let b = add_mod(self.b, other.b, q);
        let r = LweCiphertext { a, b, params: self.params };
        proof {
            assert forall|s: Seq<i64>| s.len() == self.params.n && key_bounded(s) implies #[trigger] r.phase(
                s,
            ) == (self.phase(s) + other.phase(s)) % (self.params.q as int) by {
                lemma_dot_of_sum_mod(self.a@, other.a@, r.a@, s, self.params.q as int);
                lemma_phase_add(
                    self.b as int,
                    other.b as int,
                    lwe_dot(self.a@, s),
                    lwe_dot(other.a@, s),
                    lwe_dot(r.a@, s),
                    self.params.q as int,
                );
            }
        }
        r
    }

    /// Scaling by a nonnegative integer, component-wise modulo `q`: the phase
    /// under any key is scaled the same way.
    pub fn scalar_mul(&self, scalar: u64) -> (r: LweCiphertext)
        requires
            self.wf(),
        ensures
            r.wf(),
            r.params == self.params,
            forall|s: Seq<i64>|
                s.len() == self.params.n && key_bounded(s) ==> #[trigger] r.phase(s) == (
                scalar * self.phase(s)) % (self.params.q as int),
    {
        let q = self.params.q;
        let n = self.a.len();
        let mut a: Vec<u64> = Vec::new();
        let mut i: usize = 0;
        while i < n
            invariant
                i == a@.len() <= n,
                n == self.a@.len(),
                self.wf(),
                q == self.params.q,
                forall|j: int| 0 <= j < i ==> #[trigger] a@[j] < q,
                forall|j: int|
                    0 <= j < i ==> #[trigger] a@[j] == (scalar * self.a@[j]) % (q as int),
            decreases n - i,
        {
            let x = mul_mod(scalar, self.a[i], q);
            a.push(x);
            i = i + 1;
        }
        let b = mul_mod(scalar, self.b, q);
        let r = LweCiphertext { a, b, params: self.params };
        proof {
            assert forall|s: Seq<i64>| s.len() == self.params.n && key_bounded(s) implies #[trigger] r.phase(
                s,
            ) == (scalar * self.phase(s)) % (self.params.q as int) by {
                lemma_dot_of_scaled_mod(self.a@, r.a@, s, scalar as int, self.params.q as int);
                lemma_phase_scale(
                    self.b as int,
                    lwe_dot(self.a@, s),
                    lwe_dot(r.a@, s),
                    scalar as int,
                    self.params.q as int,
                );
            }
        }
        r
    }
}

/// Distance between two residues on the cycle of integers modulo `q`,
/// measured the short way around.
pub open spec fn zq_dist(x: int, y: int, q: int) -> int {
    let d = (x - y) % q;
    if 2 * d < q {
        d
    } else {
        q - d
    }
}

/// `(x + y) % q` on reduced operands.
fn add_mod(x: u64, y: u64, q: u64) -> (r: u64)
    requires
        q >= 1,
        x < q,
        y < q,
    ensures
        r == (x + y) % (q as int),
        r < q,
{
    let s: u128 = x as u128 + y as u128;
    let m = s % (q as u128);
    proof {
        lemma_mod_bound(s as int, q as int);
    }
    m as u64
}

/// `(x * y) % q` with a reduced second operand.
fn mul_mod(x: u64, y: u64, q: u64) -> (r: u64)
    requires
        q >= 1,
        y < q,
    ensures
        r == (x * y) % (q as int),
        r < q,
{
    proof {
        vstd::arithmetic::mul::lemma_mul_upper_bound(
            x as int,
            0xffff_ffff_ffff_ffff,
            y as int,
            0xffff_ffff_ffff_ffff,
        );
    }
    let p: u128 = x as u128 * y as u128;
    let m = p % (q as u128);
    proof {
        lemma_mod_bound(p as int, q as int);
    }
    m as u64
}

/// `(x + e) % q` for a signed `e` and reduced `x`.
fn add_signed_mod(x: u64, e: i64, q: u64) -> (r: u64)
    requires
        q >= 1,
        q < 0x8000_0000_0000_0000,
        x < q,
    ensures
        r == (x + e) % (q as int),
        r < q,
{
    let qi = q as u128;
    if e >= 0 {
        let em: u128 = (e as u128) % qi;
        proof {
            lemma_mod_bound(e as int, q as int);
            lemma_add_mod_noop(x as int, e as int, q as int);
            lemma_small_mod(x as nat, q as nat);
        }
        let s: u128 = x as u128 + em;
        proof {
            lemma_mod_bound(s as int, q as int);
        }
        (s % qi) as u64
    } else {
        let mag: u128 = (-(e as i128)) as u128;
        let mm: u128 = mag % qi;
        proof {
            lemma_mod_bound(mag as int, q as int);
        }
        let s: u128 = x as u128 + qi - mm;
        let r = (s % qi) as u64;
        proof {
            lemma_mod_bound(s as int, q as int);
            lemma_neg_residue(x as int, e as int, q as int);
        }
        r
    }
}

/// Adding `q - ((-e) % q)` to `x` is adding `e`, modulo `q`.
proof fn lemma_neg_residue(x: int, e: int, q: int)
    requires
        q >= 1,
        0 <= x < q,
        e < 0,
    ensures
        (x + q - ((-e) % q)) % q == (x + e) % q,
{
    let m = (-e) % q;
    lemma_mod_bound(-e, q);
    let k = (-e) / q;
    vstd::arithmetic::div_mod::lemma_fundamental_div_mod(-e, q);
    assert(-e == q * k + m);
    assert(x + q - m == x + e + q * (k + 1)) by {
        vstd::arithmetic::mul::lemma_mul_is_distributive_add(q, k, 1);
    }
    lemma_mod_multiples_vanish(k + 1, x + e, q);
}

/// The inner product of a mask and a key, reduced modulo `q`.
fn dot_mod(a: &Vec<u64>, s: &Vec<i64>, q: u64) -> (d: u64)
    requires
        a@.len() == s@.len(),
        key_bounded(s@),
        q >= 2,
        forall|i: int| 0 <= i < a@.len() ==> #[trigger] a@[i] < q,
    ensures
        d == lwe_dot(a@, s@) % (q as int),
        d < q,
{
    let mut acc: u64 = 0;
    let mut i: usize = 0;
    proof {
        assert(a@.take(0) =~= Seq::<u64>::empty());
        lemma_mod_self_0(q as int);
        lemma_small_mod(0, q as nat);
    }
    while i < a.len()
        invariant
            0 <= i <= a@.len(),
            a@.len() == s@.len(),
            key_bounded(s@),
            q >= 2,
            forall|j: int| 0 <= j < a@.len() ==> #[trigger] a@[j] < q,
            acc < q,
            acc == lwe_dot(a@.take(i as int), s@.take(i as int)) % (q as int),
        decreases a@.len() - i,
    {
        let ghost qi = q as int;
        proof {
            assert(a@.take(i + 1).drop_last() =~= a@.take(i as int));
            assert(s@.take(i + 1).drop_last() =~= s@.take(i as int));
            assert(a@.take(i + 1).last() == a@[i as int]);
        }
        let ghost dot_prev = lwe_dot(a@.take(i as int), s@.take(i as int));
        let si = s[i];
        let ai = a[i];
        proof {
            assert(lwe_dot(a@.take(i + 1), s@.take(i + 1)) == dot_prev + (ai as int) * (
            si as int));
        }
        if si == 1 {
            let newacc = add_mod(acc, ai, q);
            proof {
                assert((ai as int) * 1 == ai as int) by (nonlinear_arith);
                lemma_add_mod_noop(dot_prev, ai as int, qi);
                lemma_small_mod(ai as nat, q as nat);
            }
            acc = newacc;
        } else if si == -1 {
            let t: u64 = if ai == 0 {
                0
            } else {
                q - ai
            };
            let newacc = add_mod(acc, t, q);
            proof {
                if ai == 0 {
                    lemma_mod_self_0(qi);
                    lemma_small_mod(0, q as nat);
                } else {
                    lemma_small_mod((q - ai) as nat, q as nat);
                }
                assert((ai as int) * -1 == -(ai as int)) by (nonlinear_arith);
                assert(t == (qi - ai) % qi);
                lemma_add_mod_noop(dot_prev, qi - ai, qi);
                lemma_mod_multiples_vanish(1, dot_prev - ai, qi);
            }
            acc = newacc;
        } else {
            proof {
                assert(si == 0);
                assert((ai as int) * 0 == 0) by (nonlinear_arith);
            }
        }
        i = i + 1;
    }
    proof {
        assert(a@.take(a@.len() as int) =~= a@);
        assert(s@.take(s@.len() as int) =~= s@);
    }
    acc
}

/// The phase of `(a, (dot + m + e) % q)` is `(m + e) % q`.
pub(crate) proof fn lemma_phase_of_masked(dot: int, m: int, e: int, q: int)
    requires
        q >= 1,
    ensures
        ((dot + m + e) % q - dot) % q == (m + e) % q,
{
    lemma_sub_mod_noop((dot + m + e) % q, dot, q);
    vstd::arithmetic::div_mod::lemma_mod_twice(dot + m + e, q);
    lemma_sub_mod_noop(dot + m + e, dot, q);
}

/// The short-way distance on the residue cycle never exceeds half of `q`.
pub proof fn lemma_zq_dist_half(x: int, y: int, q: int)
    requires
        q >= 1,
    ensures
        0 <= 2 * zq_dist(x, y, q) <= q,
{
    lemma_mod_bound(x - y, q);
}

/// A phase of `(m + e) % q` is within `|e|` of `m` on the residue cycle.
pub(crate) proof fn lemma_zq_dist_of_noise(m: int, e: int, q: int)
    requires
        q >= 2,
        -q < e < q,
        0 <= m < q,
    ensures
        zq_dist((m + e) % q, m, q) <= if e >= 0 {
            e
        } else {
            -e
        },
{
    let d = ((m + e) % q - m) % q;
    lemma_sub_mod_noop((m + e) % q, m, q);
    vstd::arithmetic::div_mod::lemma_mod_twice(m + e, q);
    lemma_sub_mod_noop(m + e, m, q);
    assert(d == e % q);
    if e >= 0 {
        lemma_small_mod(e as nat, q as nat);
    } else {
        lemma_mod_multiples_vanish(1, e, q);
        lemma_small_mod((e + q) as nat, q as nat);
    }
}

/// The mod-q dot product distributes over a component-wise mod-q sum.
pub(crate) proof fn lemma_dot_of_sum_mod(a1: Seq<u64>, a2: Seq<u64>, asum: Seq<u64>, s: Seq<i64>, q: int)
    requires
        q >= 1,
        a1.len() == a2.len() == asum.len() == s.len(),
        key_bounded(s),
        forall|j: int| 0 <= j < asum.len() ==> #[trigger] asum[j] == (a1[j] + a2[j]) % q,
    ensures
        lwe_dot(asum, s) % q == (lwe_dot(a1, s) + lwe_dot(a2, s)) % q,
    decreases a1.len(),
{
    if a1.len() == 0 {
    } else {
        let n = a1.len() - 1;
        lemma_dot_of_sum_mod(a1.drop_last(), a2.drop_last(), asum.drop_last(), s.drop_last(), q);
        let d1 = lwe_dot(a1.drop_last(), s.drop_last());
        let d2 = lwe_dot(a2.drop_last(), s.drop_last());
        let ds = lwe_dot(asum.drop_last(), s.drop_last());
        let sn = s[n as int] as int;
        let x1 = a1.last() as int;
        let x2 = a2.last() as int;
        let xs = asum.last() as int;
        assert(xs == (x1 + x2) % q);
        // xs differs from x1 + x2 by a multiple of q; multiplied by sn in
        // {-1,0,1} it still differs by a multiple of q.
        let k = (x1 + x2) / q;
        vstd::arithmetic::div_mod::lemma_fundamental_div_mod(x1 + x2, q);
        assert(xs == x1 + x2 - q * k);
        assert(xs * sn == (x1 + x2) * sn - (q * k) * sn) by {
            vstd::arithmetic::mul::lemma_mul_is_distributive_sub_other_way(
                sn,
                x1 + x2,
                q * k,
            );
        }
        assert((q * k) * sn == q * (k * sn)) by {
            vstd::arithmetic::mul::lemma_mul_is_associative(q, k, sn);
        }
        assert(lwe_dot(asum, s) == ds + xs * sn);
        assert(lwe_dot(a1, s) == d1 + x1 * sn);
        assert(lwe_dot(a2, s) == d2 + x2 * sn);
        assert((x1 + x2) * sn == x1 * sn + x2 * sn) by {
            vstd::arithmetic::mul::lemma_mul_is_distributive_add_other_way(sn, x1, x2);
        }
        // ds == (d1 + d2) % q, so ds == d1 + d2 - q * j for some j.
        vstd::arithmetic::div_mod::lemma_fundamental_div_mod(d1 + d2, q);
        vstd::arithmetic::div_mod::lemma_fundamental_div_mod(ds, q);
        assert(ds % q == (d1 + d2) % q);
        let jj = ds / q - (d1 + d2) / q;
        assert(ds - (d1 + d2) == q * jj) by {
            vstd::arithmetic::mul::lemma_mul_is_distributive_sub(q, ds / q, (d1 + d2) / q);
        }
        assert(lwe_dot(asum, s) == lwe_dot(a1, s) + lwe_dot(a2, s) + q * jj - q * (k * sn));
        assert(q * jj - q * (k * sn) == q * (jj - k * sn)) by {
            vstd::arithmetic::mul::lemma_mul_is_distributive_sub(q, jj, k * sn);
        }
        lemma_mod_multiples_vanish(jj - k * sn, lwe_dot(a1, s) + lwe_dot(a2, s), q);
    }
}

/// The mod-q dot product commutes with component-wise mod-q scaling.
pub(crate) proof fn lemma_dot_of_scaled_mod(a: Seq<u64>, ka: Seq<u64>, s: Seq<i64>, c: int, q: int)
    requires
        q >= 1,
        0 <= c,
        a.len() == ka.len() == s.len(),
        key_bounded(s),
        forall|j: int| 0 <= j < ka.len() ==> #[trigger] ka[j] == (c * a[j]) % q,
    ensures
        lwe_dot(ka, s) % q == (c * lwe_dot(a, s)) % q,
    decreases a.len(),
{
    if a.len() == 0 {
        assert(c * 0 == 0) by (nonlinear_arith);
    } else {
        let n = a.len() - 1;
        lemma_dot_of_scaled_mod(a.drop_last(), ka.drop_last(), s.drop_last(), c, q);
        let d = lwe_dot(a.drop_last(), s.drop_last());
        let dk = lwe_dot(ka.drop_last(), s.drop_last());
        let sn = s[n as int] as int;
        let x = a.last() as int;
        let xk = ka.last() as int;
        let k = (c * x) / q;
        vstd::arithmetic::div_mod::lemma_fundamental_div_mod(c * x, q);
        assert(xk == c * x - q * k);
        assert(xk * sn == (c * x) * sn - (q * k) * sn) by {
            vstd::arithmetic::mul::lemma_mul_is_distributive_sub_other_way(sn, c * x, q * k);
        }
        assert((q * k) * sn == q * (k * sn)) by {
            vstd::arithmetic::mul::lemma_mul_is_associative(q, k, sn);
        }
        vstd::arithmetic::div_mod::lemma_fundamental_div_mod(dk, q);
        vstd::arithmetic::div_mod::lemma_fundamental_div_mod(c * d, q);
        let jj = dk / q - (c * d) / q;
        assert(dk - c * d == q * jj) by {
            vstd::arithmetic::mul::lemma_mul_is_distributive_sub(q, dk / q, (c * d) / q);
        }
        assert(lwe_dot(ka, s) == dk + xk * sn);
        assert(lwe_dot(a, s) == d + x * sn);
        assert((c * x) * sn == c * (x * sn)) by {
            vstd::arithmetic::mul::lemma_mul_is_associative(c, x, sn);
        }
        assert(c * lwe_dot(a, s) == c * d + c * (x * sn)) by {
            vstd::arithmetic::mul::lemma_mul_is_distributive_add(c, d, x * sn);
        }
        assert(lwe_dot(ka, s) == c * lwe_dot(a, s) + q * jj - q * (k * sn));
        assert(q * jj - q * (k * sn) == q * (jj - k * sn)) by {
            vstd::arithmetic::mul::lemma_mul_is_distributive_sub(q, jj, k * sn);
        }
        lemma_mod_multiples_vanish(jj - k * sn, c * lwe_dot(a, s), q);
    }
}

/// Phases add: from component facts to `(p1 + p2) % q`.
pub(crate) proof fn lemma_phase_add(b1: int, b2: int, d1: int, d2: int, ds: int, q: int)
    requires
        q >= 1,
        ds % q == (d1 + d2) % q,
    ensures
        ((b1 + b2) % q - ds) % q == ((b1 - d1) % q + (b2 - d2) % q) % q,
{
    lemma_sub_mod_noop((b1 + b2) % q, ds, q);
    vstd::arithmetic::div_mod::lemma_mod_twice(b1 + b2, q);
    lemma_sub_mod_noop(b1 + b2, ds, q);
    lemma_sub_mod_noop(b1 + b2, d1 + d2, q);
    assert((b1 + b2 - ds) % q == ((b1 + b2) % q - ds % q) % q);
    assert((b1 + b2 - (d1 + d2)) % q == ((b1 + b2) % q - (d1 + d2) % q) % q);
    lemma_add_mod_noop(b1 - d1, b2 - d2, q);
}

/// Phases scale: from component facts to `(c * p) % q`.
pub(crate) proof fn lemma_phase_scale(b: int, d: int, dk: int, c: int, q: int)
    requires
        q >= 1,
        dk % q == (c * d) % q,
    ensures
        ((c * b) % q - dk) % q == (c * ((b - d) % q)) % q,
{
    lemma_sub_mod_noop((c * b) % q, dk, q);
    vstd::arithmetic::div_mod::lemma_mod_twice(c * b, q);
    lemma_sub_mod_noop(c * b, dk, q);
    lemma_sub_mod_noop(c * b, c * d, q);
    assert(c * b - c * d == c * (b - d)) by {
        vstd::arithmetic::mul::lemma_mul_is_distributive_sub(c, b, d);
    }
    lemma_mul_mod_noop_left(b - d, c, q);
    assert((c * ((b - d) % q)) % q == (((b - d) % q) * c) % q) by {
        vstd::arithmetic::mul::lemma_mul_is_commutative(c, (b - d) % q);
    }
    assert(((b - d) % q * c) % q == ((b - d) * c) % q);
    assert((b - d) * c == c * (b - d)) by {
        vstd::arithmetic::mul::lemma_mul_is_commutative(c, b - d);
    }
}

/// If the total noise stays under half the decision margin, a decrypted sum
/// of two ciphertexts lands within that margin of the sum of the messages:
/// homomorphic addition is correct up to the accumulated noise.
pub proof fn lemma_lwe_add_correct(
    c1: LweCiphertext,
    c2: LweCiphertext,
    csum: LweCiphertext,
    s: Seq<i64>,
    m1: int,
    m2: int,
    bound: int,
)
    requires
        c1.params.wf(),
        c1.params == c2.params,
        c2.params == csum.params,
        s.len() == c1.params.n,
        key_bounded(s),
        0 <= m1 < c1.params.q,
        0 <= m2 < c1.params.q,
        0 <= bound,
        4 * bound < c1.params.q,
        csum.phase(s) == (c1.phase(s) + c2.phase(s)) % (c1.params.q as int),
        zq_dist(c1.phase(s), m1, c1.params.q as int) <= bound,
        zq_dist(c2.phase(s), m2, c1.params.q as int) <= bound,
    ensures
        zq_dist(csum.phase(s), (m1 + m2) % (c1.params.q as int), c1.params.q as int) <= 2 * bound,
{
    let q = c1.params.q as int;
    let p1 = c1.phase(s);
    let p2 = c2.phase(s);
    lemma_mod_bound(c1.b - lwe_dot(c1.a@, s), q);
    lemma_mod_bound(c2.b - lwe_dot(c2.a@, s), q);
    lemma_zq_dist_shift(p1, m1, q, bound);
    lemma_zq_dist_shift(p2, m2, q, bound);
    let e1 = choose|e1: int| -bound <= e1 <= bound && p1 % q == #[trigger] ((m1 + e1) % q);
    let e2 = choose|e2: int| -bound <= e2 <= bound && p2 % q == #[trigger] ((m2 + e2) % q);
    lemma_add_mod_noop(p1, p2, q);
    lemma_small_mod(p1 as nat, q as nat);
    lemma_small_mod(p2 as nat, q as nat);
    lemma_add_mod_noop(m1 + e1, m2 + e2, q);
    assert(csum.phase(s) == (m1 + m2 + (e1 + e2)) % q);
    lemma_mod_bound(m1 + m2, q);
    lemma_add_mod_noop((m1 + m2), e1 + e2, q);
    vstd::arithmetic::div_mod::lemma_mod_twice(m1 + m2, q);
    assert(csum.phase(s) == ((m1 + m2) % q + (e1 + e2)) % q) by {
        lemma_add_mod_noop_pair(m1 + m2, e1 + e2, q);
    }
    lemma_zq_dist_of_noise((m1 + m2) % q, e1 + e2, q);
    if e1 + e2 >= 0 {
    } else {
    }
}

/// Two residues at cycle distance zero are equal.
pub proof fn lemma_zq_dist_zero(x: int, y: int, q: int)
    requires
        q >= 1,
        0 <= x < q,
        0 <= y < q,
        zq_dist(x, y, q) == 0,
    ensures
        x == y,
{
    let d = (x - y) % q;
    lemma_mod_bound(x - y, q);
    if x >= y {
        lemma_small_mod((x - y) as nat, q as nat);
    } else {
        lemma_mod_multiples_vanish(1, x - y, q);
        lemma_small_mod((x - y + q) as nat, q as nat);
    }
}

/// Round trip: when the noise bound of the parameters vanishes (a standard
/// deviation below 1/12 of an integer step), decryption returns the message
/// exactly.
pub proof fn lemma_lwe_round_trip_exact(c: LweCiphertext, s: Seq<i64>, m: int)
    requires
        c.params.wf(),
        0 <= m < c.params.q,
        clt_bound(c.params.stddev as int, 96) == 0,
        zq_dist(c.phase(s), m, c.params.q as int) <= clt_bound(c.params.stddev as int, 96),
    ensures
        c.phase(s) == m,
{
    let q = c.params.q as int;
    lemma_mod_bound(c.b - lwe_dot(c.a@, s), q);
    lemma_zq_dist_half(c.phase(s), m, q);
    lemma_zq_dist_zero(c.phase(s), m, q);
}

/// `(x + y) % q == (x % q + y) % q`.
pub(crate) proof fn lemma_add_mod_noop_pair(x: int, y: int, q: int)
    requires
        q >= 1,
    ensures
        (x + y) % q == (x % q + y) % q,
{
    lemma_add_mod_noop(x, y, q);
    lemma_add_mod_noop(x % q, y, q);
    vstd::arithmetic::div_mod::lemma_mod_twice(x, q);
}

/// A residue within `bound` of `m` on the cycle is `m + e` for some signed
/// `e` with `|e| <= bound`.
proof fn lemma_zq_dist_shift(p: int, m: int, q: int, bound: int)
    requires
        q >= 2,
        0 <= p < q,
        0 <= m < q,
        0 <= bound,
        2 * bound < q,
        zq_dist(p, m, q) <= bound,
    ensures
        exists|e: int| -bound <= e <= bound && p % q == #[trigger] ((m + e) % q),
{
    let d = (p - m) % q;
    lemma_mod_bound(p - m, q);
    lemma_small_mod(d as nat, q as nat);
    lemma_mod_add_shift(p, m, d, q);
    if 2 * d < q {
        assert(-bound <= d <= bound && p % q == (m + d) % q);
    } else {
        let e = d - q;
        assert(p % q == (m + e) % q) by {
            lemma_mod_multiples_vanish(1, m + e, q);
        }
        assert(-bound <= e <= bound && p % q == (m + e) % q);
    }
}

/// If `(p - m) % q == d` then `p % q == (m + d) % q`.
pub(crate) proof fn lemma_mod_add_shift(p: int, m: int, d: int, q: int)
    requires
        q >= 1,
        (p - m) % q == d % q,
    ensures
        p % q == (m + d) % q,
{
    vstd::arithmetic::div_mod::lemma_fundamental_div_mod(p - m, q);
    vstd::arithmetic::div_mod::lemma_fundamental_div_mod(d, q);
    let k = (p - m) / q - d / q;
    assert((p - m) - d == q * k) by {
        vstd::arithmetic::mul::lemma_mul_is_distributive_sub(q, (p - m) / q, d / q);
    }
    assert(p == (m + d) + q * k);
    lemma_mod_multiples_vanish(k, m + d, q);
}

} // verus!
