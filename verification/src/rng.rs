//! The pseudo-random source that the engine and the training loop draw from.

use rand::prng::XorShiftRng;
use rand::Rng;
use vstd::prelude::*;

verus! {

/// The Xorshift generator of the `rand` crate, carried as an opaque value.
#[verifier::external_type_specification]
#[verifier::external_body]
pub struct ExXorShiftRng(XorShiftRng);

/// Draws one bit with `Rng::gen` at type `bool`. Nothing is claimed of the
/// bit.
#[verifier::external_body]
pub(crate) fn random_bool(rng: &mut XorShiftRng) -> (b: bool) {
    rng.gen()
}

/// Draws an integer with `Rng::gen_range` at type `i64`, which samples the
/// half-open range from its lower bound, here zero, up to, and without, its
/// upper bound, and panics unless the lower bound is the smaller.
#[verifier::external_body]
pub(crate) fn random_below(rng: &mut XorShiftRng, high: i64) -> (r: i64)
    requires
        0 < high,
    ensures
        0 <= r < high,
{
    rng.gen_range(0, high)
}

/// Draws a number with `Rng::gen` at type `u32`. Nothing is claimed of the
/// number.
#[verifier::external_body]
pub(crate) fn random_u32(rng: &mut XorShiftRng) -> (r: u32) {
    rng.gen()
}

/// Reorders a vector in place with `Rng::shuffle`, which does nothing but
/// swap elements: the same items remain, each as often as before.
#[verifier::external_body]
pub(crate) fn shuffle<T>(rng: &mut XorShiftRng, values: &mut Vec<T>)
    ensures
        final(values)@.to_multiset() == old(values)@.to_multiset(),
{
    rng.shuffle(values)
}

/// Copies the generator with `Clone::clone`, which the crate derives for it:
/// the copy holds the same four words of state, and so equals the generator.
#[verifier::external_body]
pub(crate) fn fork(rng: &XorShiftRng) -> (copy: XorShiftRng)
    ensures
        copy == *rng,
{
    rng.clone()
}

} // verus!
