//! Fixed-point probabilities and the Bernoulli trials drawn on them.
use vstd::prelude::*;

verus! {

/// The probability 1: a probability `p` stands for the ratio `p / PROB_ONE`.
pub const PROB_ONE: u64 = 4294967296;

/// The probability 1/2.
pub const PROB_HALF: u64 = 2147483648;

/// The event of probability `p` takes place on the uniform draw `u`.
pub open spec fn occurs(p: u64, u: u32) -> bool {
    (u as u64) < p
}

/// Relies on rand::random: a `u32` drawn uniformly by the thread-local
/// generator. Nothing is known of its value.
#[verifier::external_body]
pub(crate) fn random_u32() -> (r: u32) {
    rand::random::<u32>()
}

/// Decides the event of probability `p` on the given uniform draw `u`.
pub fn bernoulli_with(p: u64, u: u32) -> (r: bool)
    ensures
        r == occurs(p, u),
{
    (u as u64) < p
}

/// Draws one Bernoulli trial of probability `p`.
pub fn bernoulli(p: u64) -> (r: bool)
    ensures
        exists|u: u32| r == occurs(p, u),
        p == 0 ==> !r,
        p >= PROB_ONE ==> r,
{
    let u = random_u32();
    bernoulli_with(p, u)
}

} // verus!
