//! The agent: age, sex and the two heritable traits.
use vstd::prelude::*;

verus! {

/// One individual of the population.
///
/// `age` counts time in ticks; `b` (the aging rate) and `lmax` (the learning
/// capacity) are non-negative fixed-point trait values. The remaining model
/// parameters are shared by the whole population and kept by the hazard model.
#[derive(Clone, Copy, Debug, PartialEq, Eq, Structural)]
pub struct Agent {
    pub age: u64,
    pub female: bool,
    pub b: u32,
    pub lmax: u32,
}

/// A drawn age, floored at zero.
pub open spec fn age_from(sample: int) -> int {
    if sample < 0 { 0 } else { sample }
}

/// A drawn trait value, floored at zero and held to the range of a trait.
pub open spec fn trait_from(sample: int) -> int {
    if sample < 0 {
        0
    } else if sample > u32::MAX {
        u32::MAX as int
    } else {
        sample
    }
}

/// The age of a drawn age sample.
pub fn age_of_sample(sample: i64) -> (r: u64)
    ensures
        r == age_from(sample as int),
{
    if sample < 0 { 0 } else { sample as u64 }
}

/// The trait value of a drawn trait sample.
pub fn trait_of_sample(sample: i128) -> (r: u32)
    ensures
        r == trait_from(sample as int),
{
    if sample < 0 {
        0
    } else if sample > u32::MAX as i128 {
        u32::MAX
    } else {
        sample as u32
    }
}

} // verus!
