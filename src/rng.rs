//! Random draws for the scenario builders, from a generator that the caller
//! owns and may seed.
use vstd::prelude::*;
use rand::rngs::StdRng;
use crate::scalar::Scalar;

verus! {

#[verifier::external_type_specification]
#[verifier::external_body]
pub struct ExStdRng(StdRng);

/// Relies on `rand::RngCore::next_u32` of `rand::rngs::StdRng`: the next
/// number of the generator's stream, of which nothing is promised.
#[verifier::external_body]
fn next_u32(rng: &mut StdRng) -> u32 {
    rand::RngCore::next_u32(rng)
}

/// A number in `[0, 1)`: the high 24 bits of a draw, over `2^24`.
pub fn unit<S: Scalar>(rng: &mut StdRng) -> S {
    let bits = next_u32(rng) >> 8u32;
    S::from_int(bits as i64).div(S::from_int(0x100_0000))
}

/// A number in `[from, to)`.
pub fn between<S: Scalar>(rng: &mut StdRng, from: S, to: S) -> S {
    unit::<S>(rng).mul(to.sub(from)).add(from)
}

/// A byte: the low eight bits of a draw.
pub fn byte(rng: &mut StdRng) -> u8 {
    (next_u32(rng) & 0xffu32) as u8
}

/// A number below `n`.
pub fn below(rng: &mut StdRng, n: u32) -> (r: u32)
    requires
        n > 0,
    ensures
        r < n,
{
    next_u32(rng) % n
}

} // verus!
