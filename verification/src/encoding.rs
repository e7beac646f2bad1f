//! A small plain-torus bit encoding: `false` at 0, `true` at a quarter turn.
//!
//! Decoding picks whichever of the two anchors is nearer around the torus,
//! so it tolerates noise up to an eighth of a turn.

use vstd::prelude::*;
use crate::torus::{t_dist, t_mod, Torus};

verus! {

/// The anchor of `true`: a quarter turn.
pub const BIT_TRUE: u64 = 0x4000_0000_0000_0000;

/// Encode one bit as its anchor point.
pub fn encode_bit(bit: bool) -> (r: Torus)
    ensures
        r.v == if bit {
            BIT_TRUE
        } else {
            0
        },
{
    if bit {
        Torus::new(BIT_TRUE)
    } else {
        Torus::new(0)
    }
}

/// Decode one bit: true exactly when the point lies nearer to the `true`
/// anchor than to 0, around the torus.
pub fn decode_bit(t: &Torus) -> (r: bool)
    ensures
        r == (t_dist(t@, BIT_TRUE as int) < t_dist(t@, 0)),
{
    let d0 = dist_to(t, 0);
    let d1 = dist_to(t, BIT_TRUE);
    d1 < d0
}

/// The short-way distance from a torus point to an anchor, as a numerator.
fn dist_to(t: &Torus, anchor: u64) -> (r: u64)
    ensures
        r == t_dist(t@, anchor as int),
{
    let diff = t.sub(&Torus::new(anchor));
    let v = diff.value();
    proof {
        vstd::arithmetic::div_mod::lemma_mod_bound(t@ - anchor, t_mod());
    }
    if v < 0x8000_0000_0000_0000 {
        v
    } else if v == 0x8000_0000_0000_0000 {
        v
    } else {
        let w: u128 = crate::torus::T_M - v as u128;
        w as u64
    }
}

} // verus!
