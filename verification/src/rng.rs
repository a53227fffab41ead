//! The random source: rand's standard generator behind a trusted boundary.
//!
//! Only the raw 64-bit draw is trusted; every mapping of draws into scalars
//! or sample points is verified code. Nothing is promised of a draw's value,
//! so every contract downstream holds for every outcome.

use vstd::prelude::*;
use crate::fixed::{Fx, FX_ONE};

verus! {

/// rand's seedable standard generator, declared so it can appear in
/// signatures; its state is opaque here.
#[verifier::external_type_specification]
#[verifier::external_body]
pub struct ExStdRng(rand::rngs::StdRng);

/// Relies on rand::Rng::next_u64: one draw from the generator. Nothing is
/// promised of the value.
#[verifier::external_body]
fn rng_next_u64(rng: &mut rand::rngs::StdRng) -> (r: u64) {
    rand::Rng::next_u64(rng)
}

/// A scalar in `[0, 1)`: the low bits of one draw.
pub fn draw_unit(rng: &mut rand::rngs::StdRng) -> (r: Fx)
    ensures
        0 <= r < FX_ONE,
{
    let u: u64 = rng_next_u64(rng);
    (u % 65536) as i64
}

/// A scalar in `[-1, 1)`: the low bits of one draw, recentered.
pub fn draw_symmetric(rng: &mut rand::rngs::StdRng) -> (r: Fx)
    ensures
        -FX_ONE <= r < FX_ONE,
{
    let u: u64 = rng_next_u64(rng);
    ((u % 131072) as i64) - 65536
}

} // verus!
