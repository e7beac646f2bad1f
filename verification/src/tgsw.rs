//! TGSW: gadget-decomposed encryptions and the external product.
//!
//! A torus value is expanded into `l` signed balanced base-`Bg` digits; a
//! TGSW sample is a matrix of TLWE samples carrying the message against the
//! gadget `Bg^-(j+1)`.  Multiplying the digits of a TLWE sample into the
//! matrix (the external product) multiplies the phases, which is what CMux
//! builds on.

use vstd::prelude::*;
use vstd::arithmetic::div_mod::{
    lemma_fundamental_div_mod, lemma_fundamental_div_mod_converse, lemma_mod_bound,
    lemma_mod_multiples_vanish, lemma_small_mod,
};
use vstd::arithmetic::mul::{lemma_mul_inequality, lemma_mul_is_distributive_add_other_way};
use vstd::arithmetic::power::{lemma_pow_adds, lemma_pow_increases, pow};
use vstd::arithmetic::power2::{lemma2_to64, lemma_pow2, lemma_pow2_adds, lemma_pow2_pos, pow2};
use crate::lwe::key_bounded;
use crate::tlwe::{t_dot, TlweParams, TlweSample, TlweSecretKey};
use crate::torus::{pow2_u128, t_dist, t_mod, t_of, Torus};

verus! {

/// The gadget base `Bg = 2^bg_bit`.
pub open spec fn bg_of(bg_bit: int) -> int {
    pow2(bg_bit as nat) as int
}

/// The number of torus bits below the decomposition: `64 - l * bg_bit`.
pub open spec fn dec_shift(l: int, bg_bit: int) -> nat {
    (64 - l * bg_bit) as nat
}

/// The input rounded to the nearest multiple of `2^dec_shift`, as a count of
/// such multiples.
pub open spec fn dec_rounded(v: int, l: int, bg_bit: int) -> int {
    let p = pow2(dec_shift(l, bg_bit)) as int;
    (v + p / 2) / p
}

/// The balancing offset `(Bg/2) * (Bg^(l-1) + ... + Bg + 1)`.
pub open spec fn dec_offset(b: int, l: nat) -> int
    decreases l,
{
    if l == 0 {
        0
    } else {
        dec_offset(b, (l - 1) as nat) * b + b / 2
    }
}

/// The offset-shifted rounded value, reduced modulo `Bg^l`.
pub open spec fn dec_u(v: int, l: int, bg_bit: int) -> int {
    (dec_rounded(v, l, bg_bit) + dec_offset(bg_of(bg_bit), l as nat)) % pow2(
        (l * bg_bit) as nat,
    ) as int
}

/// Digit `j` of the decomposition (most significant first, weight
/// `Bg^-(j+1)`), a signed value in `[-Bg/2, Bg/2)`.
pub open spec fn spec_digit(v: int, j: int, l: int, bg_bit: int) -> int {
    let b = bg_of(bg_bit);
    (dec_u(v, l, bg_bit) / pow(b, (l - 1 - j) as nat)) % b - b / 2
}

/// The integer recomposed from balanced digits, most significant first:
/// `sum d_j * Bg^(l-1-j)`.
pub open spec fn recompose(d: Seq<i64>, b: int) -> int
    decreases d.len(),
{
    if d.len() == 0 {
        0
    } else {
        recompose(d.drop_last(), b) * b + d.last()
    }
}

/// Gadget decomposition of a torus value into `l` signed balanced base-`Bg`
/// digits.  Each digit equals its closed form, and recomposing the digits
/// lands within half a step `2^dec_shift / 2` of the input, around the torus.
pub(crate) fn decompose_core(value: &Torus, l: usize, bg_bit: u32) -> (d: Vec<i64>)
    requires
        1 <= l,
        1 <= bg_bit,
        l * bg_bit <= 64,
    ensures
        d@.len() == l,
        forall|j: int|
            0 <= j < l ==> #[trigger] d@[j] == spec_digit(value@, j, l as int, bg_bit as int),
        forall|j: int|
            0 <= j < l ==> -bg_of(bg_bit as int) / 2 <= #[trigger] d@[j] < bg_of(bg_bit as int)
                / 2,
        t_dist(
            recompose(d@, bg_of(bg_bit as int)) * pow2(dec_shift(l as int, bg_bit as int)) as int,
            value@,
        ) <= pow2(dec_shift(l as int, bg_bit as int)) as int / 2,
{
    proof {
        assert(l <= 64 && bg_bit <= 64) by (nonlinear_arith)
            requires
                1 <= l && 1 <= bg_bit && l * bg_bit <= 64,
        ;
    }
    let total: u32 = (l as u32) * bg_bit;
    let shift: u32 = 64 - total;
    let bgl: u128 = pow2_u128(total);
    let bgw: u128 = pow2_u128(bg_bit);
    let ghost bgi = bg_of(bg_bit as int);
    proof {
        lemma_pow2_pos(bg_bit as nat);
        lemma_pow2_pos(total as nat);
        lemma2_to64();
        vstd::arithmetic::power2::lemma2_to64_rest();
        if total < 64 {
            vstd::arithmetic::power2::lemma_pow2_strictly_increases(total as nat, 64);
        }
        if bg_bit < 64 {
            vstd::arithmetic::power2::lemma_pow2_strictly_increases(bg_bit as nat, 64);
        }
        assert(bgl <= 0x1_0000_0000_0000_0000);
        assert(bgw <= 0x1_0000_0000_0000_0000);
    }
    // Round the value to `total` bits.
    let ps: u128 = pow2_u128(shift);
    let vr: u128 = (value.v as u128 + ps / 2) / ps;
    proof {
        vstd::arithmetic::div_mod::lemma_div_nonincreasing(
            (value.v as u128 + ps / 2) as int,
            ps as int,
        );
        assert(vr == dec_rounded(value@, l as int, bg_bit as int));
    }
    // The balancing offset, kept below `Bg^j` throughout.
    let mut off: u128 = 0;
    let mut pw: u128 = 1;
    let mut j: usize = 0;
    proof {
        vstd::arithmetic::power::lemma_pow0(bgi);
    }
    while j < l
        invariant
            j <= l,
            1 <= l,
            1 <= bg_bit,
            l * bg_bit <= 64,
            bgw == pow2(bg_bit as nat),
            bgl == pow2((l * bg_bit) as nat),
            bgi == bg_of(bg_bit as int),
            pw == pow(bgi, j as nat),
            off == dec_offset(bgi, j as nat),
            0 <= off < pw,
            pw <= bgl,
            bgl <= 0x1_0000_0000_0000_0000,
            bgw >= 2,
        decreases l - j,
    {
        proof {
            lemma_pow_bgl_step(bgi, j as nat, l as nat, bg_bit as nat);
            lemma_mul_inequality(off as int + 1, pw as int, bgi);
            lemma_mul_is_distributive_add_other_way(bgi, off as int, 1);
            assert((off as int + 1) * bgi == off as int * bgi + bgi);
            assert(off as int * bgi + bgi <= pw as int * bgi);
            assert(pw as int * bgi == pow(bgi, (j + 1) as nat));
        }
        off = off * bgw + bgw / 2;
        pw = pw * bgw;
        j = j + 1;
    }
    let u0: u128 = (vr + off) % bgl;
    proof {
        lemma_mod_bound((vr + off) as int, bgl as int);
        assert(u0 == dec_u(value@, l as int, bg_bit as int));
    }
    // Extract digits, most significant first.
    let mut d: Vec<i64> = Vec::new();
    let mut rem: u128 = u0;
    let mut p: u128 = bgl;
    let mut i: usize = 0;
    let half: u128 = bgw / 2;
    proof {
        lemma_pow_pow2(bgi, l as nat, bg_bit as nat);
        assert((recompose(d@, bgi) + dec_offset(bgi, 0)) * bgl == 0) by (nonlinear_arith)
            requires
                recompose(d@, bgi) == 0 && dec_offset(bgi, 0) == 0,
        ;
    }
    while i < l
        invariant
            i <= l,
            1 <= l,
            1 <= bg_bit,
            l * bg_bit <= 64,
            bgw == pow2(bg_bit as nat),
            bgl == pow2((l * bg_bit) as nat),
            bgw <= 0x1_0000_0000_0000_0000,
            bgw >= 2,
            half == bgw / 2,
            bgi == bg_of(bg_bit as int),
            u0 == dec_u(value@, l as int, bg_bit as int),
            u0 < bgl,
            p == pow(bgi, (l - i) as nat),
            p >= 1,
            rem < p,
            d@.len() == i,
            (recompose(d@, bgi) + dec_offset(bgi, i as nat)) * p + rem == u0,
            forall|jj: int|
                0 <= jj < i ==> #[trigger] d@[jj] == spec_digit(
                    value@,
                    jj,
                    l as int,
                    bg_bit as int,
                ),
            forall|jj: int| 0 <= jj < i ==> -bgi / 2 <= #[trigger] d@[jj] < bgi / 2,
        decreases l - i,
    {
        proof {
            lemma_pow_unfold_down(bgi, (l - i) as nat);
        }
        let pnew: u128 = p / bgw;
        proof {
            vstd::arithmetic::div_mod::lemma_div_multiples_vanish(
                pow(bgi, (l - i - 1) as nat),
                bgi,
            );
            vstd::arithmetic::power::lemma_pow_positive(bgi, (l - i - 1) as nat);
            assert(pnew == pow(bgi, (l - i - 1) as nat));
        }
        let u: u128 = rem / pnew;
        let rnew: u128 = rem % pnew;
        proof {
            lemma_mod_bound(rem as int, pnew as int);
            vstd::arithmetic::div_mod::lemma_multiply_divide_lt(rem as int, pnew as int, bgi);
            assert(u < bgi);
            lemma_fundamental_div_mod(rem as int, pnew as int);
        }
        proof {
            vstd::arithmetic::power2::lemma_pow2_unfold(bg_bit as nat);
            assert(bgi == 2 * pow2((bg_bit - 1) as nat));
            assert(u < bgi && half == bgi / 2 && bgi <= 0x1_0000_0000_0000_0000);
            assert(bgi - half == half);
            assert(-(half as int) <= u - half < half + 1);
        }
        let dig: i64 = ((u as i128) - (half as i128)) as i64;
        let ghost dprev = d@;
        d.push(dig);
        proof {
            let rprev = recompose(dprev, bgi);
            let oprev = dec_offset(bgi, i as nat);
            assert(d@.drop_last() =~= dprev);
            assert(recompose(d@, bgi) == rprev * bgi + dig);
            // (R' + O') * pnew + rnew == u0
            assert((rprev * bgi + dig + (oprev * bgi + half)) == (rprev + oprev) * bgi + u) by {
                lemma_mul_is_distributive_add_other_way(bgi, rprev, oprev);
            }
            assert(((rprev + oprev) * bgi + u) * pnew == (rprev + oprev) * (bgi * pnew) + u
                * pnew) by (nonlinear_arith);
            assert(bgi * pnew == p) by {
                lemma_pow_unfold_down(bgi, (l - i) as nat);
                vstd::arithmetic::mul::lemma_mul_is_commutative(bgi, pnew as int);
            }
            assert((recompose(d@, bgi) + dec_offset(bgi, (i + 1) as nat)) * pnew + rnew == u0);
            // closed form of the digit
            assert(u0 == ((rprev + oprev) * bgi + u) * pnew + rnew) by (nonlinear_arith)
                requires
                    u0 == (rprev + oprev) * p + rem,
                    rem == pnew * (rem as int / pnew as int) + rem as int % pnew as int,
                    u == rem as int / pnew as int,
                    rnew == rem as int % pnew as int,
                    p == bgi * pnew,
            ;
            lemma_fundamental_div_mod_converse(
                u0 as int,
                pnew as int,
                (rprev + oprev) * bgi + u,
                rnew as int,
            );
            assert(u0 as int / pnew as int == (rprev + oprev) * bgi + u);
            lemma_mod_multiples_vanish(rprev + oprev, u as int, bgi);
            vstd::arithmetic::mul::lemma_mul_is_commutative(rprev + oprev, bgi);
            lemma_small_mod(u as nat, bgi as nat);
            assert((u0 as int / pnew as int) % bgi == u);
            assert(pnew == pow(bgi, (l - 1 - i) as nat));
            assert(d@[i as int] == spec_digit(value@, i as int, l as int, bg_bit as int));
        }
        rem = rnew;
        p = pnew;
        i = i + 1;
    }
    proof {
        assert(p == pow(bgi, 0));
        assert(rem == 0);
        assert((recompose(d@, bgi) + dec_offset(bgi, l as nat)) * 1 == u0) by {
            vstd::arithmetic::mul::lemma_mul_basics(recompose(d@, bgi) + dec_offset(
                bgi,
                l as nat,
            ));
        }
        lemma_decompose_distance(value@, l as int, bg_bit as int, recompose(d@, bgi));
    }
    d
}

/// One unfolding step: `pow(b, k) == b * pow(b, k - 1)` for `k >= 1`.
proof fn lemma_pow_unfold_down(b: int, k: nat)
    requires
        k >= 1,
        b >= 1,
    ensures
        pow(b, k) == b * pow(b, (k - 1) as nat),
        pow(b, (k - 1) as nat) >= 1,
        pow(b, k) == pow(b, (k - 1) as nat) * b,
{
    lemma_pow_adds(b, (k - 1) as nat, 1);
    vstd::arithmetic::power::lemma_pow1(b);
    vstd::arithmetic::power::lemma_pow_positive(b, (k - 1) as nat);
    vstd::arithmetic::mul::lemma_mul_is_commutative(b, pow(b, (k - 1) as nat));
}

/// `pow(Bg, l) == 2^(l * bg_bit)`.
proof fn lemma_pow_pow2(b: int, l: nat, bg_bit: nat)
    requires
        b == pow2(bg_bit) as int,
    ensures
        pow(b, l) == pow2(l * bg_bit) as int,
{
    lemma_pow2(bg_bit);
    vstd::arithmetic::power::lemma_pow_multiplies(2, bg_bit, l);
    lemma_pow2((l * bg_bit) as nat);
    assert(bg_bit * l == l * bg_bit) by (nonlinear_arith);
}

/// Growth step for the offset loop: `pow(Bg, j + 1) <= pow(Bg, l)` and the
/// power stays a power of two.
proof fn lemma_pow_bgl_step(b: int, j: nat, l: nat, bg_bit: nat)
    requires
        b == pow2(bg_bit) as int,
        bg_bit >= 1,
        j < l,
    ensures
        pow(b, j + 1) == pow(b, j) * b,
        pow(b, j + 1) <= pow2(l * bg_bit) as int,
        b >= 2,
        pow(b, j) >= 1,
{
    lemma_pow2_pos(bg_bit);
    lemma_pow2(bg_bit);
    vstd::arithmetic::power::lemma_pow_positive(b, j);
    lemma_pow_adds(b, j, 1);
    vstd::arithmetic::power::lemma_pow1(b);
    lemma_pow_pow2(b, l, bg_bit);
    lemma_pow_increases(b as nat, j + 1, l);
    vstd::arithmetic::power2::lemma_pow2_strictly_increases(0, bg_bit);
    lemma2_to64();
}

/// Recomposition lands within half a rounding step of the input, around the
/// torus: the decomposition round-trip error is below `Bg^-l / 2`.
proof fn lemma_decompose_distance(v: int, l: int, bg_bit: int, rec: int)
    requires
        1 <= l,
        1 <= bg_bit,
        l * bg_bit <= 64,
        0 <= v < t_mod(),
        rec + dec_offset(bg_of(bg_bit), l as nat) == dec_u(v, l, bg_bit),
    ensures
        t_dist(rec * pow2(dec_shift(l, bg_bit)) as int, v) <= pow2(dec_shift(l, bg_bit)) as int
            / 2,
{
    let shift = dec_shift(l, bg_bit);
    let ps = pow2(shift) as int;
    let total = (l * bg_bit) as nat;
    let pt = pow2(total) as int;
    lemma_pow2_pos(shift);
    lemma_pow2_pos(total);
    lemma2_to64();
    vstd::arithmetic::power2::lemma2_to64_rest();
    assert(l * bg_bit >= 1) by (nonlinear_arith)
        requires
            l >= 1 && bg_bit >= 1,
    ;
    if shift < 63 {
        vstd::arithmetic::power2::lemma_pow2_strictly_increases(shift, 63);
    }
    assert(ps <= 0x8000_0000_0000_0000);
    let vr = dec_rounded(v, l, bg_bit);
    let off = dec_offset(bg_of(bg_bit), l as nat);
    // dec_u == vr + off - k * Bg^l
    lemma_fundamental_div_mod(vr + off, pt);
    let k = (vr + off) / pt;
    assert(rec == vr - pt * k);
    // vr * ps == v + ps/2 - rho
    lemma_fundamental_div_mod(v + ps / 2, ps);
    let rho = (v + ps / 2) % ps;
    lemma_mod_bound(v + ps / 2, ps);
    let e = ps / 2 - rho;
    assert(vr * ps == v + e) by {
        vstd::arithmetic::mul::lemma_mul_is_commutative(ps, vr);
    }
    // rec * ps == v + e - k * 2^64
    assert(rec * ps == vr * ps - (pt * k) * ps) by {
        vstd::arithmetic::mul::lemma_mul_is_distributive_sub_other_way(ps, vr, pt * k);
    }
    assert((pt * k) * ps == k * (pt * ps)) by (nonlinear_arith);
    assert(pt * ps == t_mod()) by {
        lemma_pow2_adds(total, shift);
        lemma2_to64();
    }
    assert(rec * ps == v + e - k * t_mod());
    // wrap-invariance and the noise bound
    lemma_t_dist_noise(v, e);
    assert(t_of(rec * ps - v) == t_of(v + e - v)) by {
        assert((-k) * t_mod() == -(k * t_mod())) by (nonlinear_arith);
        assert(rec * ps - v == (v + e - v) + (-k) * t_mod());
        lemma_mod_multiples_vanish(-k, v + e - v, t_mod());
    }
}

/// TGSW parameters: the number of gadget levels, the bits of the base, and
/// the TLWE parameters of the underlying samples.
#[derive(Clone, Copy, PartialEq, Eq, Structural, Debug)]
pub struct TgswParams {
    pub l: usize,
    pub bg_bit: u32,
    pub tlwe_params: TlweParams,
}

impl TgswParams {
    /// Validity: at least one level, and the decomposition fits in 64 bits.
    pub open spec fn wf(self) -> bool {
        &&& 1 <= self.l
        &&& 1 <= self.bg_bit
        &&& self.l * self.bg_bit <= 64
        &&& self.tlwe_params.wf()
    }
}

impl Default for TgswParams {
    /// The recommended gadget: three levels in base `2^10`.
    fn default() -> (r: TgswParams)
        ensures
            r.l == 3 && r.bg_bit == 10,
            r.tlwe_params.n == 630 && r.tlwe_params.stddev == 36893488147,
            r.wf(),
    {
        TgswParams { l: 3, bg_bit: 10, tlwe_params: Default::default() }
    }
}

/// The gadget entry of level `j`: the torus numerator of `Bg^-(j+1)`.
pub open spec fn gadget_h(j: int, l: int, bg_bit: int) -> int {
    pow2((64 - (j + 1) * bg_bit) as nat) as int
}

/// The phase a gadget row carries under key `s`: the message against the
/// gadget entry, negated through the key coefficient on the mask rows.
pub open spec fn gadget_row_mu(i: int, j: int, m: int, s: Seq<i64>, n: int, l: int, bg_bit: int) -> int {
    if i < n {
        t_of(-s[i] * t_of(m * gadget_h(j, l, bg_bit)))
    } else {
        t_of(m * gadget_h(j, l, bg_bit))
    }
}

/// The coordinates of a TLWE sample as one sequence: the mask entries, then
/// the body.
pub open spec fn sample_coords(c: TlweSample) -> Seq<int> {
    Seq::new(c.a@.len() + 1, |i: int| if i < c.a@.len() { c.a@[i].v as int } else { c.b@ })
}

/// The coordinates of the difference `c1 - c0`, reduced modulo 1.
pub open spec fn diff_coords(c1: TlweSample, c0: TlweSample) -> Seq<int> {
    Seq::new(
        c0.a@.len() + 1,
        |i: int|
            if i < c0.a@.len() {
                t_of(c1.a@[i].v - c0.a@[i].v)
            } else {
                t_of(c1.b@ - c0.b@)
            },
    )
}

/// The rows of a TGSW sample as sequences.
pub open spec fn rows_view(g: TgswSample) -> Seq<Seq<TlweSample>> {
    g.samples@.map_values(|r: Vec<TlweSample>| r@)
}

/// The digit-weighted sum of the phases of one gadget row against the digits
/// of a coordinate, over the first `jc` levels.
pub open spec fn level_combo(
    row: Seq<TlweSample>,
    v: int,
    l: int,
    bg_bit: int,
    s: Seq<i64>,
    jc: int,
) -> int
    decreases jc,
{
    if jc <= 0 {
        0
    } else {
        level_combo(row, v, l, bg_bit, s, jc - 1) + spec_digit(v, jc - 1, l, bg_bit) * row[jc
            - 1].phase(s)
    }
}

/// The same sum over the first `ic` coordinate rows.
pub open spec fn rows_combo(
    rows: Seq<Seq<TlweSample>>,
    coords: Seq<int>,
    l: int,
    bg_bit: int,
    s: Seq<i64>,
    ic: int,
) -> int
    decreases ic,
{
    if ic <= 0 {
        0
    } else {
        rows_combo(rows, coords, l, bg_bit, s, ic - 1) + level_combo(
            rows[ic - 1],
            coords[ic - 1],
            l,
            bg_bit,
            s,
            l,
        )
    }
}

/// The full external-product phase: every coordinate digit times the phase of
/// its gadget row.
pub open spec fn ext_combo(g: TgswSample, coords: Seq<int>, s: Seq<i64>) -> int {
    rows_combo(rows_view(g), coords, g.params.l as int, g.params.bg_bit as int, s, g.k + 1)
}

/// A TGSW sample: `(n + 1) * l` TLWE samples, one per coordinate and gadget
/// level.
#[derive(Clone, Debug)]
pub struct TgswSample {
    pub samples: Vec<Vec<TlweSample>>,
    pub k: usize,
    pub l: usize,
    pub params: TgswParams,
}

impl TgswSample {
    /// Well-formed: one row per TLWE coordinate, `l` levels per row, all
    /// entries well-formed samples under the same parameters.
    pub open spec fn wf(self) -> bool {
        &&& self.params.wf()
        &&& self.k == self.params.tlwe_params.n
        &&& self.l == self.params.l
        &&& self.samples@.len() == self.k + 1
        &&& forall|i: int| 0 <= i <= self.k ==> #[trigger] self.samples@[i]@.len() == self.l
        &&& forall|i: int, j: int|
            0 <= i <= self.k && 0 <= j < self.l ==> (#[trigger] self.samples@[i]@[j]).wf()
                && self.samples@[i]@[j].params == self.params.tlwe_params
    }

    /// Encrypt a small integer: each row is a fresh encryption of zero with
    /// the message added against the gadget entry of its coordinate.  Each
    /// row's phase lands within `6 * sigma` of its gadget value.
    pub fn encrypt(message: i64, sk: &TlweSecretKey, params: TgswParams) -> (r: TgswSample)
        requires
            sk.wf(),
            sk.params == params.tlwe_params,
            params.wf(),
        ensures
            r.wf(),
            r.params == params,
            forall|i: int, j: int|
                0 <= i <= r.k && 0 <= j < r.l ==> t_dist(
                    (#[trigger] rows_view(r)[i][j]).phase(sk.coeffs@),
                    gadget_row_mu(
                        i,
                        j,
                        message as int,
                        sk.coeffs@,
                        r.k as int,
                        params.l as int,
                        params.bg_bit as int,
                    ),
                ) <= 6 * params.tlwe_params.stddev,
    {
        let n = params.tlwe_params.n;
        let zero = Torus::new(0);
        let mut samples: Vec<Vec<TlweSample>> = Vec::new();
        let mut i: usize = 0;
        while i < n + 1
            invariant
                i <= n + 1,
                zero.v == 0,
                sk.wf(),
                sk.params == params.tlwe_params,
                params.wf(),
                n == params.tlwe_params.n,
                samples@.len() == i,
                forall|ii: int| 0 <= ii < i ==> #[trigger] samples@[ii]@.len() == params.l,
                forall|ii: int, j: int|
                    0 <= ii < i && 0 <= j < params.l ==> (#[trigger] samples@[ii]@[j]).wf()
                        && samples@[ii]@[j].params == params.tlwe_params,
                forall|ii: int, j: int|
                    0 <= ii < i && 0 <= j < params.l ==> t_dist(
                        (#[trigger] samples@[ii]@[j]).phase(sk.coeffs@),
                        gadget_row_mu(
                            ii,
                            j,
                            message as int,
                            sk.coeffs@,
                            n as int,
                            params.l as int,
                            params.bg_bit as int,
                        ),
                    ) <= 6 * params.tlwe_params.stddev,
            decreases n + 1 - i,
        {
            let mut row: Vec<TlweSample> = Vec::new();
            let mut j: usize = 0;
            while j < params.l
                invariant
                    j <= params.l,
                    i <= n,
                    zero.v == 0,
                    sk.wf(),
                    sk.params == params.tlwe_params,
                    params.wf(),
                    n == params.tlwe_params.n,
                    row@.len() == j,
                    forall|jj: int|
                        0 <= jj < j ==> (#[trigger] row@[jj]).wf() && row@[jj].params
                            == params.tlwe_params,
                    forall|jj: int|
                        0 <= jj < j ==> t_dist(
                            (#[trigger] row@[jj]).phase(sk.coeffs@),
                            gadget_row_mu(
                                i as int,
                                jj,
                                message as int,
                                sk.coeffs@,
                                n as int,
                                params.l as int,
                                params.bg_bit as int,
                            ),
                        ) <= 6 * params.tlwe_params.stddev,
                decreases params.l - j,
            {
                let base = TlweSample::encrypt(&zero, sk);
                let mh = gadget_torus(j, params.l, params.bg_bit).mul_scalar(message);
                let entry = add_at(&base, i, &mh);
                proof {
                    lemma_row_distance(
                        base,
                        entry,
                        sk.coeffs@,
                        i as int,
                        j as int,
                        message as int,
                        n as int,
                        params.l as int,
                        params.bg_bit as int,
                        mh@,
                        6 * params.tlwe_params.stddev as int,
                    );
                }
                row.push(entry);
                j = j + 1;
            }
            samples.push(row);
            i = i + 1;
        }
        TgswSample { samples, k: n, l: params.l, params }
    }

    /// A trivial TGSW sample of a small integer: zero samples with the
    /// message against the gadget.  The row phases are the gadget values
    /// exactly, under every bounded key of the right dimension.
    pub fn trivial(message: i64, params: TgswParams) -> (r: TgswSample)
        requires
            params.wf(),
        ensures
            r.wf(),
            r.params == params,
            forall|s: Seq<i64>, i: int, j: int|
                s.len() == params.tlwe_params.n && key_bounded(s) && 0 <= i <= r.k && 0 <= j < r.l
                    ==> #[trigger] rows_view(r)[i][j].phase(s) == gadget_row_mu(
                    i,
                    j,
                    message as int,
                    s,
                    r.k as int,
                    params.l as int,
                    params.bg_bit as int,
                ),
    {
        let n = params.tlwe_params.n;
        let zero = Torus::new(0);
        let mut samples: Vec<Vec<TlweSample>> = Vec::new();
        let mut i: usize = 0;
        while i < n + 1
            invariant
                i <= n + 1,
                zero.v == 0,
                params.wf(),
                n == params.tlwe_params.n,
                samples@.len() == i,
                forall|ii: int| 0 <= ii < i ==> #[trigger] samples@[ii]@.len() == params.l,
                forall|ii: int, j: int|
                    0 <= ii < i && 0 <= j < params.l ==> (#[trigger] samples@[ii]@[j]).wf()
                        && samples@[ii]@[j].params == params.tlwe_params,
                forall|s: Seq<i64>, ii: int, j: int|
                    s.len() == n && key_bounded(s) && 0 <= ii < i && 0 <= j < params.l ==> #[trigger] samples@[ii]@[j].phase(s) == gadget_row_mu(
                        ii,
                        j,
                        message as int,
                        s,
                        n as int,
                        params.l as int,
                        params.bg_bit as int,
                    ),
            decreases n + 1 - i,
        {
            let mut row: Vec<TlweSample> = Vec::new();
            let mut j: usize = 0;
            while j < params.l
                invariant
                    j <= params.l,
                    i <= n,
                    zero.v == 0,
                    params.wf(),
                    n == params.tlwe_params.n,
                    row@.len() == j,
                    forall|jj: int|
                        0 <= jj < j ==> (#[trigger] row@[jj]).wf() && row@[jj].params
                            == params.tlwe_params,
                    forall|s: Seq<i64>, jj: int|
                        s.len() == n && key_bounded(s) && 0 <= jj < j ==> #[trigger] row@[jj].phase(s) == gadget_row_mu(
                            i as int,
                            jj,
                            message as int,
                            s,
                            n as int,
                            params.l as int,
                            params.bg_bit as int,
                        ),
                decreases params.l - j,
            {
                let base = TlweSample::trivial(&zero, params.tlwe_params);
                let mh = gadget_torus(j, params.l, params.bg_bit).mul_scalar(message);
                let entry = add_at(&base, i, &mh);
                proof {
                    assert forall|s: Seq<i64>|
                        s.len() == n && key_bounded(s) implies #[trigger] entry.phase(s)
                        == gadget_row_mu(
                        i as int,
                        j as int,
                        message as int,
                        s,
                        n as int,
                        params.l as int,
                        params.bg_bit as int,
                    ) by {
                        assert(base.phase(s) == 0);
                        if i < n {
                            assert(entry.phase(s) == t_of(0 + -s[i as int] * mh@));
                        } else {
                            assert(entry.phase(s) == t_of(0 + mh@));
                            lemma_mod_bound(mh@, t_mod());
                            lemma_small_mod(mh@ as nat, t_mod() as nat);
                            crate::torus::lemma_t_of_idem(
                                message * gadget_h(j as int, params.l as int, params.bg_bit as int),
                            );
                        }
                    }
                }
                row.push(entry);
                j = j + 1;
            }
            samples.push(row);
            i = i + 1;
        }
        TgswSample { samples, k: n, l: params.l, params }
    }

    /// Gadget decomposition of a torus value under these parameters.
    pub fn decompose(value: &Torus, params: &TgswParams) -> (d: Vec<i64>)
        requires
            params.wf(),
        ensures
            d@.len() == params.l,
            forall|j: int|
                0 <= j < params.l ==> #[trigger] d@[j] == spec_digit(
                    value@,
                    j,
                    params.l as int,
                    params.bg_bit as int,
                ),
            forall|j: int|
                0 <= j < params.l ==> -bg_of(params.bg_bit as int) / 2 <= #[trigger] d@[j] < bg_of(
                    params.bg_bit as int,
                ) / 2,
            t_dist(
                recompose(d@, bg_of(params.bg_bit as int)) * pow2(
                    dec_shift(params.l as int, params.bg_bit as int),
                ) as int,
                value@,
            ) <= pow2(dec_shift(params.l as int, params.bg_bit as int)) as int / 2,
    {
        decompose_core(value, params.l, params.bg_bit)
    }

    /// The external product: decompose every coordinate of the TLWE sample
    /// and take the digit-weighted sum of the gadget rows.  Under every
    /// bounded key the phase of the result is exactly that weighted sum of
    /// the row phases.
    pub fn external_product(&self, tlwe: &TlweSample) -> (r: TlweSample)
        requires
            self.wf(),
            tlwe.wf(),
            tlwe.params == self.params.tlwe_params,
        ensures
            r.wf(),
            r.params == self.params.tlwe_params,
            forall|s: Seq<i64>|
                s.len() == self.params.tlwe_params.n && key_bounded(s) ==> #[trigger] r.phase(s)
                    == t_of(ext_combo(*self, sample_coords(*tlwe), s)),
    {
        let n = self.params.tlwe_params.n;
        let zero = Torus::new(0);
        let mut acc = TlweSample::trivial(&zero, self.params.tlwe_params);
        let mut i: usize = 0;
        let ghost coords = sample_coords(*tlwe);
        let ghost li = self.params.l as int;
        let ghost bgb = self.params.bg_bit as int;
        while i < n + 1
            invariant
                i <= n + 1,
                self.wf(),
                tlwe.wf(),
                tlwe.params == self.params.tlwe_params,
                n == self.params.tlwe_params.n,
                coords == sample_coords(*tlwe),
                li == self.params.l as int,
                bgb == self.params.bg_bit as int,
                acc.wf(),
                acc.params == self.params.tlwe_params,
                forall|s: Seq<i64>|
                    s.len() == n && key_bounded(s) ==> #[trigger] acc.phase(s) == t_of(
                        rows_combo(rows_view(*self), coords, li, bgb, s, i as int),
                    ),
            decreases n + 1 - i,
        {
            let v: Torus = if i < n {
                self_index(&tlwe.a, i)
            } else {
                tlwe.b
            };
            proof {
                assert(v@ == coords[i as int]);
            }
            let d = decompose_core(&v, self.params.l, self.params.bg_bit);
            let mut j: usize = 0;
            let ghost row_i = rows_view(*self)[i as int];
            while j < self.params.l
                invariant
                    j <= self.params.l,
                    i <= n,
                    self.wf(),
                    tlwe.wf(),
                    tlwe.params == self.params.tlwe_params,
                    coords == sample_coords(*tlwe),
                    n == self.params.tlwe_params.n,
                    li == self.params.l as int,
                    bgb == self.params.bg_bit as int,
                    row_i == rows_view(*self)[i as int],
                    d@.len() == self.params.l,
                    forall|jj: int|
                        0 <= jj < self.params.l ==> #[trigger] d@[jj] == spec_digit(
                            coords[i as int],
                            jj,
                            li,
                            bgb,
                        ),
                    acc.wf(),
                    acc.params == self.params.tlwe_params,
                    forall|s: Seq<i64>|
                        s.len() == n && key_bounded(s) ==> #[trigger] acc.phase(s) == t_of(
                            rows_combo(rows_view(*self), coords, li, bgb, s, i as int)
                                + level_combo(row_i, coords[i as int], li, bgb, s, j as int),
                        ),
                decreases self.params.l - j,
            {
                let rowvec = self_row(&self.samples, i);
                let sample = self_index_s(rowvec, j);
                let term = sample.scalar_mul(d[j]);
                let newacc = acc.add(&term);
                proof {
                    assert forall|s: Seq<i64>| s.len() == n && key_bounded(s) implies #[trigger] newacc.phase(
                        s,
                    ) == t_of(
                        rows_combo(rows_view(*self), coords, li, bgb, s, i as int) + level_combo(
                            row_i,
                            coords[i as int],
                            li,
                            bgb,
                            s,
                            j as int + 1,
                        ),
                    ) by {
                        let part = rows_combo(rows_view(*self), coords, li, bgb, s, i as int)
                            + level_combo(row_i, coords[i as int], li, bgb, s, j as int);
                        let dig = spec_digit(coords[i as int], j as int, li, bgb) as int;
                        let rp = row_i[j as int].phase(s);
                        assert(term.phase(s) == t_of(dig * rp));
                        assert(newacc.phase(s) == t_of(t_of(part) + t_of(dig * rp)));
                        crate::torus::lemma_t_of_add(part, dig * rp);
                    }
                }
                acc = newacc;
                j = j + 1;
            }
            i = i + 1;
        }
        proof {
            assert(forall|s: Seq<i64>|
                s.len() == n && key_bounded(s) ==> #[trigger] acc.phase(s) == t_of(
                    ext_combo(*self, sample_coords(*tlwe), s),
                ));
        }
        acc
    }

    /// CMux: `c0 + self (x) (c1 - c0)`.  When this sample encrypts a bit `b`,
    /// the result carries the phase of `c_b` up to external-product noise;
    /// exactly, the phase is `phase(c0)` plus the weighted row phases of the
    /// difference.
    pub fn cmux(&self, c0: &TlweSample, c1: &TlweSample) -> (r: TlweSample)
        requires
            self.wf(),
            c0.wf(),
            c1.wf(),
            c0.params == self.params.tlwe_params,
            c1.params == self.params.tlwe_params,
        ensures
            r.wf(),
            r.params == self.params.tlwe_params,
            forall|s: Seq<i64>|
                s.len() == self.params.tlwe_params.n && key_bounded(s) ==> #[trigger] r.phase(s)
                    == t_of(c0.phase(s) + ext_combo(*self, diff_coords(*c1, *c0), s)),
    {
        let diff = c1.sub(c0);
        let prod = self.external_product(&diff);
        let r = prod.add(c0);
        proof {
            assert(sample_coords(diff) =~= diff_coords(*c1, *c0));
            assert forall|s: Seq<i64>|
                s.len() == self.params.tlwe_params.n && key_bounded(s) implies #[trigger] r.phase(
                s,
            ) == t_of(c0.phase(s) + ext_combo(*self, diff_coords(*c1, *c0), s)) by {
                let e = ext_combo(*self, diff_coords(*c1, *c0), s);
                assert(r.phase(s) == t_of(prod.phase(s) + c0.phase(s)));
                assert(prod.phase(s) == t_of(e));
                lemma_mod_bound(c0.b@ - t_dot(c0.a@, s), t_mod());
                lemma_small_mod(c0.phase(s) as nat, t_mod() as nat);
                crate::torus::lemma_t_of_add(e, c0.phase(s));
            }
        }
        r
    }
}

/// Horner recomposition of the closed-form digits of `v` over the first `jc`
/// levels: `sum spec_digit(v, j) * Bg^(jc - 1 - j)`.
pub open spec fn rec_digits(v: int, jc: nat, l: int, bg_bit: int) -> int
    decreases jc,
{
    if jc == 0 {
        0
    } else {
        rec_digits(v, (jc - 1) as nat, l, bg_bit) * bg_of(bg_bit) + spec_digit(
            v,
            jc - 1,
            l,
            bg_bit,
        )
    }
}

/// The running invariant of recomposition: the digits seen so far, with the
/// balancing offset restored, are the high part of the shifted value.
proof fn lemma_rec_digits_invariant(v: int, jc: nat, l: int, bg_bit: int)
    requires
        1 <= l,
        1 <= bg_bit,
        l * bg_bit <= 64,
        0 <= v < t_mod(),
        jc <= l,
    ensures
        (rec_digits(v, jc, l, bg_bit) + dec_offset(bg_of(bg_bit), jc)) * pow(
            bg_of(bg_bit),
            (l - jc) as nat,
        ) + dec_u(v, l, bg_bit) % pow(bg_of(bg_bit), (l - jc) as nat) as int == dec_u(v, l, bg_bit),
    decreases jc,
{
    let b = bg_of(bg_bit);
    let u = dec_u(v, l, bg_bit);
    lemma2_to64();
    lemma_pow2_pos(bg_bit as nat);
    lemma_pow2_pos((l * bg_bit) as nat);
    lemma_pow_pow2(b, l as nat, bg_bit as nat);
    lemma_mod_bound(
        dec_rounded(v, l, bg_bit) + dec_offset(b, l as nat),
        pow2((l * bg_bit) as nat) as int,
    );
    if jc == 0 {
        lemma_small_mod(u as nat, pow(b, l as nat) as nat);
        assert((0 + 0) * pow(b, l as nat) == 0) by (nonlinear_arith);
    } else {
        lemma_rec_digits_invariant(v, (jc - 1) as nat, l, bg_bit);
        let p1 = pow(b, (l - jc) as nat);
        let p0 = pow(b, (l - jc + 1) as nat);
        lemma_pow_unfold_down(b, (l - jc + 1) as nat);
        assert(p0 == b * p1);
        vstd::arithmetic::power::lemma_pow_positive(b, (l - jc) as nat);
        vstd::arithmetic::power::lemma_pow_positive(b, (l - jc + 1) as nat);
        let rp = rec_digits(v, (jc - 1) as nat, l, bg_bit);
        let op = dec_offset(b, (jc - 1) as nat);
        // the prior digits with their offset are the quotient by p0
        lemma_fundamental_div_mod(u, p0);
        assert((rp + op) * p0 == (u / p0) * p0) by {
            vstd::arithmetic::mul::lemma_mul_is_commutative(p0, u / p0);
        }
        assert(rp + op == u / p0) by (nonlinear_arith)
            requires
                (rp + op) * p0 == (u / p0) * p0 && p0 > 0,
        ;
        // split the quotient by p1 into its base-b digit
        lemma_fundamental_div_mod(u / p1, b);
        vstd::arithmetic::div_mod::lemma_div_denominator(u, p1, b);
        assert((u / p1) / b == u / (p1 * b));
        assert(p1 * b == p0) by {
            vstd::arithmetic::mul::lemma_mul_is_commutative(p1, b);
        }
        let dig = (u / p1) % b;
        assert(u / p1 == b * (u / p0) + dig);
        // reassemble
        let rn = rec_digits(v, jc, l, bg_bit);
        let on = dec_offset(b, jc);
        assert(rn + on == (rp + op) * b + dig) by {
            vstd::arithmetic::mul::lemma_mul_is_distributive_add_other_way(b, rp, op);
        }
        assert(spec_digit(v, jc - 1, l, bg_bit) == dig - b / 2);
        lemma_fundamental_div_mod(u, p1);
        assert((rn + on) * p1 == (u / p1) * p1) by (nonlinear_arith)
            requires
                rn + on == u / p1,
        ;
        assert((rn + on) * p1 + u % p1 == u);
    }
}

/// Gadget decomposition round trip, as a law over the closed-form digits:
/// recomposing them, scaled back to the torus, lands within half a
/// decomposition step `Bg^-l / 2` of the input.
pub proof fn lemma_gadget_round_trip(v: int, l: int, bg_bit: int)
    requires
        1 <= l,
        1 <= bg_bit,
        l * bg_bit <= 64,
        0 <= v < t_mod(),
    ensures
        t_dist(
            rec_digits(v, l as nat, l, bg_bit) * pow2(dec_shift(l, bg_bit)) as int,
            v,
        ) <= pow2(dec_shift(l, bg_bit)) as int / 2,
{
    let b = bg_of(bg_bit);
    let u = dec_u(v, l, bg_bit);
    lemma_rec_digits_invariant(v, l as nat, l, bg_bit);
    vstd::arithmetic::power::lemma_pow0(b);
    lemma_mod_bound(u, 1);
    let rec = rec_digits(v, l as nat, l, bg_bit);
    assert((rec + dec_offset(b, l as nat)) * 1 == rec + dec_offset(b, l as nat)) by (nonlinear_arith);
    lemma_decompose_distance(v, l, bg_bit, rec);
}

/// Rows carrying a zero message have phase zero.
proof fn lemma_zero_rows_have_zero_phase(i: int, j: int, s: Seq<i64>, n: int, l: int, bg_bit: int)
    requires
        0 <= i,
        i < n ==> 0 <= i < s.len(),
    ensures
        gadget_row_mu(i, j, 0, s, n, l, bg_bit) == 0,
{
    let h = gadget_h(j, l, bg_bit);
    assert(0 * h == 0) by (nonlinear_arith);
    lemma_small_mod(0, t_mod() as nat);
    if i < n {
        assert(-s[i] * t_of(0 * h) == 0) by (nonlinear_arith)
            requires
                t_of(0 * h) == 0,
        ;
    }
}

/// A level sum over rows of phase zero vanishes.
proof fn lemma_level_combo_of_zero_rows(
    row: Seq<TlweSample>,
    v: int,
    l: int,
    bg_bit: int,
    s: Seq<i64>,
    jc: int,
)
    requires
        forall|j: int| 0 <= j < jc ==> #[trigger] row[j].phase(s) == 0,
    ensures
        level_combo(row, v, l, bg_bit, s, jc) == 0,
    decreases jc,
{
    if jc > 0 {
        lemma_level_combo_of_zero_rows(row, v, l, bg_bit, s, jc - 1);
        assert(spec_digit(v, jc - 1, l, bg_bit) * row[jc - 1].phase(s) == 0) by (nonlinear_arith)
            requires
                row[jc - 1].phase(s) == 0,
        ;
    }
}

/// The whole external-product sum over zero-phase rows vanishes.
proof fn lemma_rows_combo_of_zero_rows(
    rows: Seq<Seq<TlweSample>>,
    coords: Seq<int>,
    l: int,
    bg_bit: int,
    s: Seq<i64>,
    ic: int,
)
    requires
        forall|i: int, j: int|
            0 <= i < ic && 0 <= j < l ==> (#[trigger] rows[i][j]).phase(s) == 0,
    ensures
        rows_combo(rows, coords, l, bg_bit, s, ic) == 0,
    decreases ic,
{
    if ic > 0 {
        lemma_rows_combo_of_zero_rows(rows, coords, l, bg_bit, s, ic - 1);
        lemma_level_combo_of_zero_rows(rows[ic - 1], coords[ic - 1], l, bg_bit, s, l);
    }
}

/// CMux selection, the exact half: under a selector whose rows carry the
/// gadget values of the bit 0 with no noise (a trivial selector of 0), the
/// CMux output has exactly the phase of `c0`.  The hypotheses are what
/// `TgswSample::trivial` and `TgswSample::cmux` ensure of their results.
pub proof fn lemma_cmux_selects_first(
    g: TgswSample,
    c0: TlweSample,
    c1: TlweSample,
    r: TlweSample,
    s: Seq<i64>,
)
    requires
        g.wf(),
        s.len() == g.params.tlwe_params.n,
        key_bounded(s),
        forall|i: int, j: int|
            0 <= i <= g.k && 0 <= j < g.l ==> #[trigger] rows_view(g)[i][j].phase(s)
                == gadget_row_mu(
                i,
                j,
                0,
                s,
                g.k as int,
                g.params.l as int,
                g.params.bg_bit as int,
            ),
        r.phase(s) == t_of(c0.phase(s) + ext_combo(g, diff_coords(c1, c0), s)),
    ensures
        r.phase(s) == c0.phase(s),
{
    let l = g.params.l as int;
    let bgb = g.params.bg_bit as int;
    let coords = diff_coords(c1, c0);
    assert forall|i: int, j: int| 0 <= i < g.k + 1 && 0 <= j < l implies (
    #[trigger] rows_view(g)[i][j]).phase(s) == 0 by {
        lemma_zero_rows_have_zero_phase(i, j, s, g.k as int, l, bgb);
    }
    lemma_rows_combo_of_zero_rows(rows_view(g), coords, l, bgb, s, g.k + 1);
    assert(ext_combo(g, coords, s) == 0);
    lemma_mod_bound(c0.b@ - t_dot(c0.a@, s), t_mod());
    lemma_small_mod(c0.phase(s) as nat, t_mod() as nat);
}

/// Read one entry of a torus vector.
fn self_index(a: &Vec<Torus>, i: usize) -> (r: Torus)
    requires
        i < a@.len(),
    ensures
        r == a@[i as int],
{
    a[i]
}

/// Read one row of the sample matrix.
fn self_row(samples: &Vec<Vec<TlweSample>>, i: usize) -> (r: &Vec<TlweSample>)
    requires
        i < samples@.len(),
    ensures
        r == samples@[i as int],
{
    &samples[i]
}

/// Read one sample of a row.
fn self_index_s(row: &Vec<TlweSample>, j: usize) -> (r: &TlweSample)
    requires
        j < row@.len(),
    ensures
        r == row@[j as int],
{
    &row[j]
}

/// The gadget entry of level `j` as a torus point.
pub(crate) fn gadget_torus(j: usize, l: usize, bg_bit: u32) -> (r: Torus)
    requires
        j < l,
        1 <= bg_bit,
        l * bg_bit <= 64,
    ensures
        r@ == gadget_h(j as int, l as int, bg_bit as int),
{
    proof {
        assert((j + 1) * bg_bit >= 1 && (j + 1) * bg_bit <= 64 && j < 64 && bg_bit <= 64) by (nonlinear_arith)
            requires
                j < l && 1 <= bg_bit && l * bg_bit <= 64,
        ;
    }
    let e: u32 = 64 - (j as u32 + 1) * bg_bit;
    let p = pow2_u128(e);
    proof {
        vstd::arithmetic::power2::lemma_pow2_strictly_increases(e as nat, 64);
        lemma2_to64();
    }
    Torus::new(p as u64)
}

/// Add a torus value to one coordinate of a TLWE sample (the body when
/// `idx == n`): the phase shifts by the key-weighted delta.
#[verifier::rlimit(50)]
fn add_at(c: &TlweSample, idx: usize, mh: &Torus) -> (r: TlweSample)
    requires
        c.wf(),
        idx <= c.a@.len(),
    ensures
        r.wf(),
        r.params == c.params,
        forall|s: Seq<i64>|
            s.len() == c.params.n && key_bounded(s) ==> #[trigger] r.phase(s) == (if idx
                < c.a@.len() {
                t_of(c.phase(s) + -s[idx as int] * mh@)
            } else {
                t_of(c.phase(s) + mh@)
            }),
{
    let n = c.a.len();
    if idx < n {
        let mut a: Vec<Torus> = Vec::new();
        let mut i: usize = 0;
        while i < n
            invariant
                i == a@.len() <= n,
                n == c.a@.len(),
                idx < n,
                forall|j: int| 0 <= j < i && j != idx ==> #[trigger] a@[j] == c.a@[j],
                idx < i ==> a@[idx as int].v == t_of(c.a@[idx as int].v + mh@),
            decreases n - i,
        {
            if i == idx {
                a.push(c.a[i].add(mh));
            } else {
                a.push(c.a[i]);
            }
            i = i + 1;
        }
        let r = TlweSample { a, b: c.b, params: c.params };
        proof {
            assert forall|s: Seq<i64>| s.len() == c.params.n && key_bounded(s) implies #[trigger] r.phase(
                s,
            ) == t_of(c.phase(s) + -s[idx as int] * mh@) by {
                lemma_t_dot_update(c.a@, r.a@, s, idx as int, mh@);
                lemma_phase_after_dot_shift(c.b@, t_dot(c.a@, s), t_dot(r.a@, s), s[idx as int] * mh@);
                assert(-s[idx as int] * mh@ == -(s[idx as int] * mh@)) by (nonlinear_arith);
            }
        }
        r
    } else {
        let b = c.b.add(mh);
        let mut a: Vec<Torus> = Vec::new();
        let mut i: usize = 0;
        while i < n
            invariant
                i == a@.len() <= n,
                n == c.a@.len(),
                forall|j: int| 0 <= j < i ==> #[trigger] a@[j] == c.a@[j],
            decreases n - i,
        {
            a.push(c.a[i]);
            i = i + 1;
        }
        let r = TlweSample { a, b, params: c.params };
        proof {
            assert(r.a@ =~= c.a@);
            assert forall|s: Seq<i64>| s.len() == c.params.n && key_bounded(s) implies #[trigger] r.phase(
                s,
            ) == t_of(c.phase(s) + mh@) by {
                let dot = t_dot(c.a@, s);
                crate::torus::lemma_t_of_add(c.b@ - dot, mh@);
                lemma_mod_bound(mh@, t_mod());
                lemma_small_mod(mh@ as nat, t_mod() as nat);
                crate::torus::lemma_t_of_sub(c.b@ + mh@, dot);
                crate::torus::lemma_t_of_add(c.b@, mh@);
                lemma_small_mod(c.b@ as nat, t_mod() as nat);
            }
        }
        r
    }
}

/// Shifting the dot product by `delta` (mod 1) shifts the phase by `-delta`.
pub(crate) proof fn lemma_phase_after_dot_shift(b: int, dot1: int, dot2: int, delta: int)
    requires
        0 <= b < t_mod(),
        dot2 % t_mod() == (dot1 + delta) % t_mod(),
    ensures
        t_of(b - dot2) == t_of((b - dot1 - delta) % t_mod()),
        t_of(b - dot2) == t_of(t_of(b - dot1) + -delta),
{
    let m = t_mod();
    vstd::arithmetic::div_mod::lemma_sub_mod_noop(b, dot2, m);
    vstd::arithmetic::div_mod::lemma_sub_mod_noop(b, dot1 + delta, m);
    lemma_small_mod(b as nat, m as nat);
    vstd::arithmetic::div_mod::lemma_mod_twice(b - dot2, m);
    vstd::arithmetic::div_mod::lemma_mod_twice(b - dot1 - delta, m);
    crate::torus::lemma_t_of_add(b - dot1, -delta);
    lemma_mod_bound(-delta, m);
    vstd::arithmetic::div_mod::lemma_mod_twice(-delta, m);
    crate::torus::lemma_t_of_add(t_of(b - dot1) as int, -delta);
    vstd::arithmetic::div_mod::lemma_mod_twice(b - dot1, m);
}

/// Updating one coordinate of the mask by `delta` (mod 1) shifts the dot
/// product by `s[idx] * delta`, modulo 1.
proof fn lemma_t_dot_update(a1: Seq<Torus>, a2: Seq<Torus>, s: Seq<i64>, idx: int, delta: int)
    requires
        a1.len() == a2.len() == s.len(),
        0 <= idx < a1.len(),
        forall|j: int| 0 <= j < a1.len() && j != idx ==> #[trigger] a2[j] == a1[j],
        a2[idx].v == t_of(a1[idx].v + delta),
    ensures
        t_dot(a2, s) % t_mod() == (t_dot(a1, s) + s[idx] * delta) % t_mod(),
    decreases a1.len(),
{
    let m = t_mod();
    let n = a1.len() - 1;
    let sn = s[n as int] as int;
    if idx == n {
        assert(crate::tlwe::tvals(a1).drop_last() =~= crate::tlwe::tvals(a1.drop_last()));
        assert(crate::tlwe::tvals(a2).drop_last() =~= crate::tlwe::tvals(a2.drop_last()));
        assert(a1.drop_last() =~= a2.drop_last());
        let d = t_dot(a1.drop_last(), s.drop_last());
        let x1 = a1[idx].v as int;
        let x2 = a2[idx].v as int;
        lemma_fundamental_div_mod(x1 + delta, m);
        let k = (x1 + delta) / m;
        assert(x2 == x1 + delta - m * k);
        assert(x2 * sn == (x1 + delta) * sn - (m * k) * sn) by {
            vstd::arithmetic::mul::lemma_mul_is_distributive_sub_other_way(sn, x1 + delta, m * k);
        }
        assert((x1 + delta) * sn == x1 * sn + delta * sn) by {
            vstd::arithmetic::mul::lemma_mul_is_distributive_add_other_way(sn, x1, delta);
        }
        assert((m * k) * sn == m * (k * sn)) by {
            vstd::arithmetic::mul::lemma_mul_is_associative(m, k, sn);
        }
        assert(t_dot(a2, s) == d + x1 * sn + delta * sn - m * (k * sn));
        assert(t_dot(a1, s) == d + x1 * sn);
        lemma_mod_multiples_vanish(-(k * sn), t_dot(a1, s) + delta * sn, m);
        assert(m * (-(k * sn)) == -(m * (k * sn))) by (nonlinear_arith);
        assert(sn * delta == delta * sn) by (nonlinear_arith);
    } else {
        assert(crate::tlwe::tvals(a1).drop_last() =~= crate::tlwe::tvals(a1.drop_last()));
        assert(crate::tlwe::tvals(a2).drop_last() =~= crate::tlwe::tvals(a2.drop_last()));
        lemma_t_dot_update(a1.drop_last(), a2.drop_last(), s.drop_last(), idx, delta);
        let d1 = t_dot(a1.drop_last(), s.drop_last());
        let d2 = t_dot(a2.drop_last(), s.drop_last());
        assert(a2[n as int] == a1[n as int]);
        let xn = a1[n as int].v as int;
        lemma_fundamental_div_mod(d2, m);
        lemma_fundamental_div_mod(d1 + s[idx] * delta, m);
        let k = d2 / m - (d1 + s[idx] * delta) / m;
        assert(d2 - (d1 + s[idx] * delta) == m * k) by {
            vstd::arithmetic::mul::lemma_mul_is_distributive_sub(
                m,
                d2 / m,
                (d1 + s[idx] * delta) / m,
            );
        }
        assert(t_dot(a2, s) == d2 + xn * sn);
        assert(t_dot(a1, s) == d1 + xn * sn);
        assert(t_dot(a2, s) == t_dot(a1, s) + s[idx] * delta + m * k);
        lemma_mod_multiples_vanish(k, t_dot(a1, s) + s[idx] * delta, m);
    }
}

/// A gadget row built on a base within `bound` of zero phase lands within
/// `bound` of its gadget value.
proof fn lemma_row_distance(
    base: TlweSample,
    entry: TlweSample,
    s: Seq<i64>,
    i: int,
    j: int,
    m: int,
    n: int,
    l: int,
    bg_bit: int,
    mhv: int,
    bound: int,
)
    requires
        s.len() == n,
        0 <= i <= n,
        t_dist(base.phase(s), 0) <= bound,
        mhv == t_of(m * gadget_h(j, l, bg_bit)),
        entry.phase(s) == (if i < n {
            t_of(base.phase(s) + -s[i] * mhv)
        } else {
            t_of(base.phase(s) + mhv)
        }),
    ensures
        t_dist(entry.phase(s), gadget_row_mu(i, j, m, s, n, l, bg_bit)) <= bound,
{
    let eff: int = if i < n {
        -s[i] * mhv
    } else {
        mhv
    };
    let mu = gadget_row_mu(i, j, m, s, n, l, bg_bit);
    let p0 = base.phase(s);
    lemma_shifted_dist(p0, eff, bound);
    if i < n {
        assert(mu == t_of(eff));
    } else {
        lemma_mod_bound(mhv, t_mod());
        vstd::arithmetic::div_mod::lemma_mod_twice(m * gadget_h(j, l, bg_bit), t_mod());
        assert(mu == t_of(eff));
    }
}

/// Distance to zero is preserved by a common shift, modulo 1.
pub(crate) proof fn lemma_shifted_dist(p: int, eff: int, bound: int)
    requires
        t_dist(p, 0) <= bound,
    ensures
        t_dist(t_of(p + eff), t_of(eff)) <= bound,
{
    let m = t_mod();
    vstd::arithmetic::div_mod::lemma_sub_mod_noop(p + eff, eff, m);
    vstd::arithmetic::div_mod::lemma_mod_twice(p + eff, m);
    vstd::arithmetic::div_mod::lemma_mod_twice(eff, m);
    vstd::arithmetic::div_mod::lemma_sub_mod_noop(t_of(p + eff) as int, t_of(eff) as int, m);
    assert((t_of(p + eff) - t_of(eff)) % m == (p + eff - eff) % m);
    assert(p + eff - eff == p - 0);
}

/// Around the torus, `x + e` lies within `|e|` of `x`.
pub proof fn lemma_t_dist_noise(x: int, e: int)
    requires
        -t_mod() < e < t_mod(),
    ensures
        t_dist(x + e, x) <= if e >= 0 {
            e
        } else {
            -e
        },
{
    let m = t_mod();
    assert(x + e - x == e);
    if e >= 0 {
        lemma_small_mod(e as nat, m as nat);
    } else {
        lemma_mod_multiples_vanish(1, e, m);
        lemma_small_mod((e + m) as nat, m as nat);
    }
}


/// The bootstrapping key: for each coefficient of the input TLWE key, a ring
/// TGSW encryption of that bit under the output ring key.
#[derive(Clone, Debug)]
pub struct BootstrappingKey {
    pub bk: Vec<crate::trlwe::TrgswSample>,
    pub n: usize,
    pub degree: usize,
    pub params: TgswParams,
}

impl BootstrappingKey {
    /// Well-formed: one gadget sample per input-key bit, all over the same
    /// ring degree, which matches the input dimension (no key switching).
    pub open spec fn wf(self) -> bool {
        &&& self.params.wf()
        &&& self.n == self.params.tlwe_params.n
        &&& self.degree == self.n
        &&& self.bk@.len() == self.n
        &&& forall|i: int|
            0 <= i < self.n ==> (#[trigger] self.bk@[i]).wf() && self.bk@[i].n == self.degree
                && self.bk@[i].l == self.params.l && self.bk@[i].bg_bit == self.params.bg_bit
                && self.bk@[i].stddev == self.params.tlwe_params.stddev
    }

    /// Encrypt each bit of the input key under the ring key.  The ring key
    /// carries the same coefficients as the input key, so the extracted
    /// samples land back under the caller's key.  Every phase coefficient of
    /// every gadget row of entry `i` lands within `6 * sigma` of the gadget
    /// value of the key bit `sk.coeffs[i]`.
    pub fn generate(
        sk: &TlweSecretKey,
        rkey: &crate::trlwe::TrlweSecretKey,
        params: TgswParams,
    ) -> (r: BootstrappingKey)
        requires
            sk.wf(),
            rkey.wf(),
            params.wf(),
            sk.params == params.tlwe_params,
            rkey.n == sk.params.n,
            rkey.stddev == sk.params.stddev,
        ensures
            r.wf(),
            r.n == sk.params.n,
            r.degree == rkey.n,
            r.params == params,
            forall|i: int, c: int, j: int, t: int|
                0 <= i < r.n && 0 <= c < 2 && 0 <= j < params.l && 0 <= t < rkey.n ==> t_dist(
                    #[trigger] crate::trlwe::ring_phase_coeff(
                        r.bk@[i].rows@[c]@[j],
                        rkey.coeffs@,
                        t,
                    ),
                    crate::trlwe::ring_gadget_mu(
                        c == 0,
                        j,
                        sk.coeffs@[i] as int,
                        rkey.coeffs@,
                        t,
                        params.l as int,
                        params.bg_bit as int,
                    ),
                ) <= 6 * params.tlwe_params.stddev,
    {
        let n = sk.params.n;
        let mut bk: Vec<crate::trlwe::TrgswSample> = Vec::new();
        let mut i: usize = 0;
        while i < n
            invariant
                i == bk@.len() <= n,
                sk.wf(),
                rkey.wf(),
                params.wf(),
                sk.params == params.tlwe_params,
                n == sk.params.n,
                rkey.n == n,
                rkey.stddev == sk.params.stddev,
                forall|ii: int|
                    0 <= ii < i ==> (#[trigger] bk@[ii]).wf() && bk@[ii].n == rkey.n
                        && bk@[ii].l == params.l && bk@[ii].bg_bit == params.bg_bit
                        && bk@[ii].stddev == params.tlwe_params.stddev,
                forall|ii: int, c: int, j: int, t: int|
                    0 <= ii < i && 0 <= c < 2 && 0 <= j < params.l && 0 <= t < rkey.n ==> t_dist(
                        #[trigger] crate::trlwe::ring_phase_coeff(
                            bk@[ii].rows@[c]@[j],
                            rkey.coeffs@,
                            t,
                        ),
                        crate::trlwe::ring_gadget_mu(
                            c == 0,
                            j,
                            sk.coeffs@[ii] as int,
                            rkey.coeffs@,
                            t,
                            params.l as int,
                            params.bg_bit as int,
                        ),
                    ) <= 6 * params.tlwe_params.stddev,
            decreases n - i,
        {
            let g = crate::trlwe::TrgswSample::encrypt(
                sk.coeffs[i],
                rkey,
                params.l,
                params.bg_bit,
            );
            bk.push(g);
            i = i + 1;
        }
        BootstrappingKey { bk, n, degree: n, params }
    }
}

} // verus!
