//! The crate's single source of randomness: `rand`'s standard generator,
//! carried through the sampling code as an explicit handle so that a
//! caller may seed it and reproduce a render.

use vstd::prelude::*;

verus! {

#[verifier::external_type_specification]
#[verifier::external_body]
pub struct ExStdRng(rand::rngs::StdRng);

/// Relies on rand's `Rng::gen` for `u16`: it draws the generator's next
/// value, uniform over the whole type. Nothing is promised of the result;
/// callers state what holds of every outcome.
#[verifier::external_body]
pub(crate) fn next_u16(rng: &mut rand::rngs::StdRng) -> (r: u16) {
    rand::Rng::gen(rng)
}

} // verus!
