//! Arithmetic on the real torus, the reals modulo 1.
//!
//! A torus element is stored as a 64-bit fixed-point fraction: the word `v`
//! stands for the real number `v / 2^64`, which always lies in `[0, 1)`.
//! All operations reduce modulo 1 exactly, with no rounding.

use vstd::prelude::*;
use vstd::arithmetic::div_mod::{
    lemma_add_mod_noop, lemma_mod_bound, lemma_mod_multiples_vanish, lemma_mod_twice,
    lemma_mul_mod_noop_left, lemma_mul_mod_noop_right, lemma_small_mod, lemma_sub_mod_noop,
};

verus! {

/// The number of representable torus points: `v` stands for `v / 2^64`.
pub const T_M: u128 = 0x1_0000_0000_0000_0000;

/// The modulus of the fixed-point representation, as a mathematical integer.
pub open spec fn t_mod() -> int {
    0x1_0000_0000_0000_0000
}

/// The canonical representative in `[0, 2^64)` of the torus point `x / 2^64`,
/// for any integer numerator `x`.
pub open spec fn t_of(x: int) -> int {
    x % t_mod()
}

/// Distance between the torus points `x / 2^64` and `y / 2^64`, measured the
/// short way around the circle, in units of `2^-64`.
pub open spec fn t_dist(x: int, y: int) -> int {
    let d = t_of(x - y);
    if 2 * d < t_mod() {
        d
    } else {
        t_mod() - d
    }
}

/// An element of the real torus: the fraction `v / 2^64`.
#[derive(Clone, Copy, PartialEq, Eq, Structural, Debug)]
pub struct Torus {
    pub v: u64,
}

impl View for Torus {
    type V = int;

    open spec fn view(&self) -> int {
        self.v as int
    }
}

impl Torus {
    /// The torus point `v / 2^64`.
    pub fn new(v: u64) -> (r: Torus)
        ensures
            r.v == v,
    {
        Torus { v }
    }

    /// The fixed-point numerator of this point.
    pub fn value(&self) -> (r: u64)
        ensures
            r == self.v,
    {
        self.v
    }

    /// The torus point `x / 2^64` for a signed numerator, reduced to `[0, 1)`.
    pub fn of_int(x: i64) -> (r: Torus)
        ensures
            r@ == t_of(x as int),
    {
        if x >= 0 {
            proof {
                lemma_small_mod(x as nat, t_mod() as nat);
            }
            Torus { v: x as u64 }
        } else {
            let y: i128 = x as i128 + T_M as i128;
            proof {
                lemma_mod_multiples_vanish(1, x as int, t_mod());
                lemma_small_mod(y as nat, t_mod() as nat);
            }
            Torus { v: y as u64 }
        }
    }

    /// Addition modulo 1.
    pub fn add(&self, other: &Torus) -> (r: Torus)
        ensures
            r@ == t_of(self@ + other@),
    {
        let s: u128 = self.v as u128 + other.v as u128;
        let m: u128 = s % T_M;
        proof {
            lemma_mod_bound(s as int, t_mod());
        }
        Torus { v: m as u64 }
    }

    /// Subtraction modulo 1.
    pub fn sub(&self, other: &Torus) -> (r: Torus)
        ensures
            r@ == t_of(self@ - other@),
    {
        let s: u128 = self.v as u128 + T_M - other.v as u128;
        let m: u128 = s % T_M;
        proof {
            lemma_mod_bound(s as int, t_mod());
            lemma_mod_multiples_vanish(1, self@ - other@, t_mod());
        }
        Torus { v: m as u64 }
    }

    /// The opposite point, `-x` modulo 1.
    pub fn neg(&self) -> (r: Torus)
        ensures
            r@ == t_of(-self@),
    {
        let zero = Torus { v: 0 };
        zero.sub(self)
    }

    /// Multiplication by a signed integer, modulo 1.
    pub fn mul_scalar(&self, k: i64) -> (r: Torus)
        ensures
            r@ == t_of(k * self@),
    {
        let kt = Torus::of_int(k);
        proof {
            vstd::arithmetic::mul::lemma_mul_upper_bound(
                kt.v as int,
                0xffff_ffff_ffff_ffff,
                self.v as int,
                0xffff_ffff_ffff_ffff,
            );
        }
        let p: u128 = kt.v as u128 * self.v as u128;
        let m: u128 = p % T_M;
        proof {
            lemma_mod_bound(p as int, t_mod());
            lemma_mul_mod_noop_left(k as int, self@, t_mod());
        }
        Torus { v: m as u64 }
    }

    /// Round to the nearest multiple of `2^-precision` (ties away from zero),
    /// still reduced modulo 1.
    pub fn round(&self, precision: u32) -> (r: Torus)
        requires
            precision <= 64,
        ensures
            r@ == t_of(t_round(self@, (64 - precision) as nat)),
    {
        if precision == 64 {
            proof {
                vstd::arithmetic::power2::lemma2_to64();
                vstd::arithmetic::div_mod::lemma_div_basics(self@ + 0);
                lemma_small_mod(self.v as nat, t_mod() as nat);
            }
            Torus { v: self.v }
        } else {
            let p: u128 = pow2_u128(64 - precision);
            let q: u128 = (self.v as u128 + p / 2) / p;
            proof {
                vstd::arithmetic::div_mod::lemma_fundamental_div_mod(
                    self.v as u128 + p / 2,
                    p as int,
                );
                vstd::arithmetic::div_mod::lemma_mod_bound(self.v as u128 + p / 2, p as int);
            }
            let s: u128 = q * p;
            let m: u128 = s % T_M;
            proof {
                lemma_mod_bound(s as int, t_mod());
            }
            Torus { v: m as u64 }
        }
    }
}

/// The value rounded to the nearest multiple of `2^shift`, as a numerator.
pub open spec fn t_round(x: int, shift: nat) -> int {
    let p = vstd::arithmetic::power2::pow2(shift) as int;
    ((x + p / 2) / p) * p
}

/// `2^e` as a 128-bit word.
pub fn pow2_u128(e: u32) -> (r: u128)
    requires
        e <= 64,
    ensures
        r == vstd::arithmetic::power2::pow2(e as nat),
        r >= 1,
{
    let mut r: u128 = 1;
    let mut i: u32 = 0;
    proof {
        vstd::arithmetic::power2::lemma_pow2_pos(0);
        reveal(vstd::arithmetic::power::pow);
    }
    while i < e
        invariant
            i <= e <= 64,
            r == vstd::arithmetic::power2::pow2(i as nat),
        decreases e - i,
    {
        proof {
            vstd::arithmetic::power2::lemma_pow2_unfold((i + 1) as nat);
            vstd::arithmetic::power2::lemma2_to64();
            if i + 1 < 64 {
                vstd::arithmetic::power2::lemma_pow2_strictly_increases((i + 1) as nat, 64);
            }
            assert(2 * r == vstd::arithmetic::power2::pow2((i + 1) as nat));
            assert(vstd::arithmetic::power2::pow2((i + 1) as nat) <= vstd::arithmetic::power2::pow2(
                64,
            ));
        }
        r = r * 2;
        i = i + 1;
    }
    proof {
        vstd::arithmetic::power2::lemma_pow2_pos(e as nat);
    }
    r
}

/// Every reduced numerator lies in `[0, 2^64)`: the torus point is in `[0, 1)`.
pub proof fn lemma_t_of_range(x: int)
    ensures
        0 <= t_of(x) < t_mod(),
{
    lemma_mod_bound(x, t_mod());
}

/// Reducing a sum equals reducing the summands first and then their sum:
/// `of(x + y) == of(of(x) + of(y))`.
pub proof fn lemma_t_of_add(x: int, y: int)
    ensures
        t_of(x + y) == t_of(t_of(x) + t_of(y)),
{
    lemma_add_mod_noop(x, y, t_mod());
}

/// The same wrap law for differences.
pub proof fn lemma_t_of_sub(x: int, y: int)
    ensures
        t_of(x - y) == t_of(t_of(x) - t_of(y)),
{
    lemma_sub_mod_noop(x, y, t_mod());
}

/// The same wrap law for integer scaling.
pub proof fn lemma_t_of_mul(k: int, x: int)
    ensures
        t_of(k * x) == t_of(k * t_of(x)),
{
    lemma_mul_mod_noop_right(k, x, t_mod());
}

/// Reduction is idempotent.
pub proof fn lemma_t_of_idem(x: int)
    ensures
        t_of(t_of(x)) == t_of(x),
{
    lemma_mod_twice(x, t_mod());
}

/// Whole turns around the torus vanish.
pub proof fn lemma_t_of_vanish(k: int, x: int)
    ensures
        t_of(x + k * t_mod()) == t_of(x),
{
    lemma_mod_multiples_vanish(k, x, t_mod());
}

} // verus!
