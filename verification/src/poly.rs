//! Torus polynomials modulo `X^N + 1`.
//!
//! The negacyclic ring underlying the ring variant of TLWE: multiplying by
//! the monomial `X^e` rotates the coefficients and negates those that wrap
//! around.  Products with small integer polynomials are schoolbook.

use vstd::prelude::*;
use crate::torus::{t_of, Torus};

verus! {

/// Coefficient `t` of the negacyclic product `d(X) * p(X)`, summed over the
/// first `jc` digit terms: each `d[j]` contributes against `p[t - j]`, with a
/// negation when the source index wraps below zero (since `X^N == -1`).
pub open spec fn negacyclic_coeff(p: Seq<Torus>, d: Seq<i64>, t: int, jc: int) -> int
    decreases jc,
{
    let n = p.len() as int;
    if jc <= 0 {
        0
    } else {
        negacyclic_coeff(p, d, t, jc - 1) + (if t - (jc - 1) >= 0 {
            (d[jc - 1] as int) * p[t - (jc - 1)].v
        } else {
            -(d[jc - 1] as int) * p[t - (jc - 1) + n].v
        })
    }
}

/// Adding `delta` (modulo 1) to the constant coefficient of `p` shifts
/// coefficient `t` of the product `s(X) * p(X)` by `s[t] * delta`, modulo 1,
/// once the sum has passed digit `t`; before that it is unchanged.
pub(crate) proof fn lemma_ncc_const_update(
    p: Seq<Torus>,
    p2: Seq<Torus>,
    s: Seq<i64>,
    t: int,
    jc: int,
    delta: int,
)
    requires
        p.len() == p2.len() == s.len(),
        0 <= t < p.len(),
        0 <= jc <= p.len(),
        p2[0].v == t_of(p[0].v + delta),
        forall|u: int| 1 <= u < p.len() ==> #[trigger] p2[u] == p[u],
    ensures
        negacyclic_coeff(p2, s, t, jc) % crate::torus::t_mod() == (negacyclic_coeff(p, s, t, jc)
            + (if jc > t {
            (s[t] as int) * delta
        } else {
            0
        })) % crate::torus::t_mod(),
    decreases jc,
{
    let m = crate::torus::t_mod();
    if jc == 0 {
    } else {
        lemma_ncc_const_update(p, p2, s, t, jc - 1, delta);
        let n1 = negacyclic_coeff(p, s, t, jc - 1);
        let n2 = negacyclic_coeff(p2, s, t, jc - 1);
        let prior: int = if jc - 1 > t {
            (s[t] as int) * delta
        } else {
            0
        };
        // the congruence carried by the recursive call, as an explicit multiple
        vstd::arithmetic::div_mod::lemma_fundamental_div_mod(n2, m);
        vstd::arithmetic::div_mod::lemma_fundamental_div_mod(n1 + prior, m);
        let kk = n2 / m - (n1 + prior) / m;
        assert(n2 - (n1 + prior) == m * kk) by {
            vstd::arithmetic::mul::lemma_mul_is_distributive_sub(m, n2 / m, (n1 + prior) / m);
        }
        if jc - 1 == t {
            // this digit reads the constant coefficient
            let st = s[t] as int;
            let x1 = p[0].v as int;
            let x2 = p2[0].v as int;
            vstd::arithmetic::div_mod::lemma_fundamental_div_mod(x1 + delta, m);
            let k = (x1 + delta) / m;
            assert(x2 == x1 + delta - m * k);
            assert(st * x2 == st * x1 + st * delta - st * (m * k)) by {
                vstd::arithmetic::mul::lemma_mul_is_distributive_add(st, x1, delta);
                vstd::arithmetic::mul::lemma_mul_is_distributive_sub(st, x1 + delta, m * k);
            }
            assert(st * (m * k) == m * (st * k)) by (nonlinear_arith);
            assert(negacyclic_coeff(p2, s, t, jc) == n2 + st * x2);
            assert(negacyclic_coeff(p, s, t, jc) == n1 + st * x1);
            assert(negacyclic_coeff(p2, s, t, jc) == negacyclic_coeff(p, s, t, jc) + st * delta
                + m * (kk - st * k)) by {
                vstd::arithmetic::mul::lemma_mul_is_distributive_sub(m, kk, st * k);
            }
            vstd::arithmetic::div_mod::lemma_mod_multiples_vanish(
                kk - st * k,
                negacyclic_coeff(p, s, t, jc) + st * delta,
                m,
            );
        } else {
            // this digit reads an untouched coefficient
            let u: int = if t - (jc - 1) >= 0 {
                t - (jc - 1)
            } else {
                t - (jc - 1) + p.len()
            };
            assert(u != 0);
            assert(p2[u] == p[u]);
            let term: int = if t - (jc - 1) >= 0 {
                (s[jc - 1] as int) * p[u].v
            } else {
                -(s[jc - 1] as int) * p[u].v
            };
            assert(negacyclic_coeff(p2, s, t, jc) == n2 + term);
            assert(negacyclic_coeff(p, s, t, jc) == n1 + term);
            vstd::arithmetic::div_mod::lemma_mod_multiples_vanish(
                kk,
                negacyclic_coeff(p, s, t, jc) + prior,
                m,
            );
            if jc > t {
                assert(jc - 1 > t || jc - 1 == t);
                assert(prior == (s[t] as int) * delta);
            }
        }
    }
}

/// A polynomial of degree below its coefficient count, with torus
/// coefficients.
#[derive(Clone, Debug)]
pub struct TorusPoly {
    pub coeffs: Vec<Torus>,
}

/// The coefficient of `X^e * p` at index `i` in the negacyclic ring, for
/// `0 <= e < 2 * len`.
pub open spec fn rot_coeff(p: Seq<Torus>, e: int, i: int) -> int {
    let n = p.len() as int;
    let er = if e < n {
        e
    } else {
        e - n
    };
    let flip: int = if e < n {
        1
    } else {
        -1
    };
    if i >= er {
        t_of(flip * p[i - er].v)
    } else {
        t_of(-flip * p[i - er + n].v)
    }
}

impl TorusPoly {
    /// The all-zero polynomial with `n` coefficients.
    pub fn zeros(n: usize) -> (r: TorusPoly)
        ensures
            r.coeffs@.len() == n,
            forall|i: int| 0 <= i < n ==> #[trigger] r.coeffs@[i].v == 0,
    {
        let mut coeffs: Vec<Torus> = Vec::new();
        while coeffs.len() < n
            invariant
                coeffs@.len() <= n,
                forall|i: int| 0 <= i < coeffs@.len() ==> #[trigger] coeffs@[i].v == 0,
            decreases n - coeffs.len(),
        {
            coeffs.push(Torus::new(0));
        }
        TorusPoly { coeffs }
    }

    /// An element-wise copy with a known contract.
    pub fn duplicate(&self) -> (r: TorusPoly)
        ensures
            r.coeffs@ == self.coeffs@,
    {
        let n = self.coeffs.len();
        let mut coeffs: Vec<Torus> = Vec::new();
        let mut i: usize = 0;
        while i < n
            invariant
                i == coeffs@.len() <= n,
                n == self.coeffs@.len(),
                forall|j: int| 0 <= j < i ==> #[trigger] coeffs@[j] == self.coeffs@[j],
            decreases n - i,
        {
            coeffs.push(self.coeffs[i]);
            i = i + 1;
        }
        proof {
            assert(coeffs@ =~= self.coeffs@);
        }
        TorusPoly { coeffs }
    }

    /// Coefficient-wise sum modulo 1.
    pub fn add(&self, other: &TorusPoly) -> (r: TorusPoly)
        requires
            self.coeffs@.len() == other.coeffs@.len(),
        ensures
            r.coeffs@.len() == self.coeffs@.len(),
            forall|i: int|
                0 <= i < self.coeffs@.len() ==> #[trigger] r.coeffs@[i].v == t_of(
                    self.coeffs@[i].v + other.coeffs@[i].v,
                ),
    {
        let n = self.coeffs.len();
        let mut coeffs: Vec<Torus> = Vec::new();
        let mut i: usize = 0;
        while i < n
            invariant
                i == coeffs@.len() <= n,
                n == self.coeffs@.len() == other.coeffs@.len(),
                forall|j: int|
                    0 <= j < i ==> #[trigger] coeffs@[j].v == t_of(
                        self.coeffs@[j].v + other.coeffs@[j].v,
                    ),
            decreases n - i,
        {
            coeffs.push(self.coeffs[i].add(&other.coeffs[i]));
            i = i + 1;
        }
        TorusPoly { coeffs }
    }

    /// Coefficient-wise difference modulo 1.
    pub fn sub(&self, other: &TorusPoly) -> (r: TorusPoly)
        requires
            self.coeffs@.len() == other.coeffs@.len(),
        ensures
            r.coeffs@.len() == self.coeffs@.len(),
            forall|i: int|
                0 <= i < self.coeffs@.len() ==> #[trigger] r.coeffs@[i].v == t_of(
                    self.coeffs@[i].v - other.coeffs@[i].v,
                ),
    {
        let n = self.coeffs.len();
        let mut coeffs: Vec<Torus> = Vec::new();
        let mut i: usize = 0;
        while i < n
            invariant
                i == coeffs@.len() <= n,
                n == self.coeffs@.len() == other.coeffs@.len(),
                forall|j: int|
                    0 <= j < i ==> #[trigger] coeffs@[j].v == t_of(
                        self.coeffs@[j].v - other.coeffs@[j].v,
                    ),
            decreases n - i,
        {
            coeffs.push(self.coeffs[i].sub(&other.coeffs[i]));
            i = i + 1;
        }
        TorusPoly { coeffs }
    }

    /// Multiplication by the monomial `X^e` in the negacyclic ring:
    /// coefficients rotate by `e` and negate on wrap-around.
    pub fn monomial_mul(&self, e: usize) -> (r: TorusPoly)
        requires
            1 <= self.coeffs@.len() < 0x1000_0000,
            e < 2 * self.coeffs@.len(),
        ensures
            r.coeffs@.len() == self.coeffs@.len(),
            forall|i: int|
                0 <= i < self.coeffs@.len() ==> #[trigger] r.coeffs@[i].v == rot_coeff(
                    self.coeffs@,
                    e as int,
                    i,
                ),
    {
        let n = self.coeffs.len();
        let (er, flip) = if e < n {
            (e, false)
        } else {
            (e - n, true)
        };
        let mut coeffs: Vec<Torus> = Vec::new();
        let mut i: usize = 0;
        while i < n
            invariant
                i == coeffs@.len() <= n,
                n == self.coeffs@.len(),
                er == (if e < n {
                    e as int
                } else {
                    e - n
                }),
                flip == (e >= n),
                er < n < 0x1000_0000,
                forall|j: int|
                    0 <= j < i ==> #[trigger] coeffs@[j].v == rot_coeff(self.coeffs@, e as int, j),
            decreases n - i,
        {
            let c: Torus = if i >= er {
                let base = self.coeffs[i - er];
                if flip {
                    base.neg()
                } else {
                    base
                }
            } else {
                let base = self.coeffs[i + n - er];
                if flip {
                    base
                } else {
                    base.neg()
                }
            };
            proof {
                if i >= er {
                    if !flip {
                        assert(1 * self.coeffs@[i - er].v == self.coeffs@[i - er].v as int) by (nonlinear_arith);
                        vstd::arithmetic::div_mod::lemma_small_mod(
                            self.coeffs@[i as int - er].v as nat,
                            crate::torus::t_mod() as nat,
                        );
                    } else {
                        assert(-1 * self.coeffs@[i - er].v == -(self.coeffs@[i - er].v as int)) by (nonlinear_arith);
                    }
                } else {
                    if !flip {
                        assert(-1 * self.coeffs@[i + n - er].v == -(
                        self.coeffs@[i + n - er].v as int)) by (nonlinear_arith);
                    } else {
                        assert(1 * self.coeffs@[i + n - er].v == self.coeffs@[i + n
                            - er].v as int) by (nonlinear_arith);
                        vstd::arithmetic::div_mod::lemma_small_mod(
                            self.coeffs@[i + n - er].v as nat,
                            crate::torus::t_mod() as nat,
                        );
                    }
                }
            }
            coeffs.push(c);
            i = i + 1;
        }
        TorusPoly { coeffs }
    }

    /// Schoolbook negacyclic product with an integer polynomial: coefficient
    /// `t` of the result is `sum_j d[j] * self[t - j]`, negated where the
    /// source index wraps, reduced modulo 1.
    pub fn mul_int(&self, d: &Vec<i64>) -> (r: TorusPoly)
        requires
            1 <= self.coeffs@.len() < 0x1000_0000,
            d@.len() == self.coeffs@.len(),
        ensures
            r.coeffs@.len() == self.coeffs@.len(),
            forall|t: int|
                0 <= t < self.coeffs@.len() ==> #[trigger] r.coeffs@[t].v == t_of(
                    negacyclic_coeff(self.coeffs@, d@, t, self.coeffs@.len() as int),
                ),
    {
        let n = self.coeffs.len();
        let mut acc = TorusPoly::zeros(n);
        proof {
            assert forall|t: int| 0 <= t < n implies #[trigger] acc.coeffs@[t].v == t_of(
                negacyclic_coeff(self.coeffs@, d@, t, 0),
            ) by {
                vstd::arithmetic::div_mod::lemma_small_mod(0, crate::torus::t_mod() as nat);
            }
        }
        let mut j: usize = 0;
        while j < n
            invariant
                j <= n,
                1 <= n < 0x1000_0000,
                n == self.coeffs@.len() == d@.len(),
                acc.coeffs@.len() == n,
                forall|t: int|
                    0 <= t < n ==> #[trigger] acc.coeffs@[t].v == t_of(
                        negacyclic_coeff(self.coeffs@, d@, t, j as int),
                    ),
            decreases n - j,
        {
            let dj = d[j];
            let mut i: usize = 0;
            while i < n
                invariant
                    i <= n,
                    j < n,
                    1 <= n < 0x1000_0000,
                    n == self.coeffs@.len() == d@.len(),
                    dj == d@[j as int],
                    acc.coeffs@.len() == n,
                    forall|t: int|
                        0 <= t < n ==> #[trigger] acc.coeffs@[t].v == t_of(
                            negacyclic_coeff(
                                self.coeffs@,
                                d@,
                                t,
                                if (if t >= j {
                                    t - j
                                } else {
                                    t - j + n
                                }) < i {
                                    j as int + 1
                                } else {
                                    j as int
                                },
                            ),
                        ),
                decreases n - i,
            {
                let term = self.coeffs[i].mul_scalar(dj);
                let ghost accprev = acc.coeffs@;
                let t: usize = i + j;
                if t < n {
                    let c = acc.coeffs[t].add(&term);
                    proof {
                        lemma_mul_int_step(self.coeffs@, d@, t as int, i as int, j as int);
                        crate::torus::lemma_t_of_add(
                            negacyclic_coeff(self.coeffs@, d@, t as int, j as int),
                            (dj as int) * self.coeffs@[i as int].v,
                        );
                    }
                    acc.coeffs.set(t, c);
                } else {
                    let c = acc.coeffs[t - n].sub(&term);
                    proof {
                        lemma_mul_int_step(self.coeffs@, d@, t - n, i as int, j as int);
                        crate::torus::lemma_t_of_sub(
                            negacyclic_coeff(self.coeffs@, d@, t - n, j as int),
                            (dj as int) * self.coeffs@[i as int].v,
                        );
                        assert(-(dj as int) * self.coeffs@[i as int].v == -((dj as int)
                            * self.coeffs@[i as int].v)) by (nonlinear_arith);
                    }
                    acc.coeffs.set(t - n, c);
                }
                proof {
                    assert forall|tt: int| 0 <= tt < n implies #[trigger] acc.coeffs@[tt].v
                        == t_of(
                        negacyclic_coeff(
                            self.coeffs@,
                            d@,
                            tt,
                            if (if tt >= j {
                                tt - j
                            } else {
                                tt - j + n
                            }) < i + 1 {
                                j as int + 1
                            } else {
                                j as int
                            },
                        ),
                    ) by {
                        let t0: int = if i + j < n {
                            i + j
                        } else {
                            i + j - n
                        };
                        if tt != t0 {
                            assert(acc.coeffs@[tt] == accprev[tt]);
                        }
                    }
                }
                i = i + 1;
            }
            j = j + 1;
        }
        acc
    }
}

/// Unfolding the product sum at digit `j`, which contributes against the
/// source coefficient at index `i`.
proof fn lemma_mul_int_step(p: Seq<Torus>, d: Seq<i64>, t: int, i: int, j: int)
    requires
        p.len() == d.len(),
        0 <= j < p.len(),
        0 <= i < p.len(),
        0 <= t < p.len(),
        i + j < p.len() ==> t == i + j,
        i + j >= p.len() ==> t == i + j - p.len(),
    ensures
        negacyclic_coeff(p, d, t, j + 1) == negacyclic_coeff(p, d, t, j) + (if t >= j {
            (d[j] as int) * p[i].v
        } else {
            -(d[j] as int) * p[i].v
        }),
        t >= j <==> i + j < p.len(),
{
}

} // verus!
