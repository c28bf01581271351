//! The seeded random number generator that places ores and decoration.
//!
//! The generator is `rand`'s `StdRng`, a deterministic generator: a call
//! changes its state and returns a value, and both are decided by the state
//! before the call and by the arguments. A generator made from a seed starts
//! in a state that the seed decides. So a chunk is decided by the seed of its
//! world and by its coordinate, and the library says so by giving names to
//! what the calls return.
//!
//! Nothing here is proved of `rand`: the items of this file state what the
//! rest of the library takes from it.

use vstd::prelude::*;
use rand::rngs::StdRng;
use rand::{Rng, SeedableRng};

verus! {

/// `rand::rngs::StdRng`, a value that Verus carries without looking inside.
#[verifier::external_type_specification]
#[verifier::external_body]
pub struct ExStdRng(StdRng);

/// The state of a generator: what decides everything it will produce.
pub uninterp spec fn rng_state(rng: StdRng) -> Seq<u8>;

/// The state of the generator that `SeedableRng::seed_from_u64` makes from a seed.
pub uninterp spec fn seeded_state(seed: u64) -> Seq<u8>;

/// What `Rng::gen_ratio` returns for a generator in a given state, and the
/// state it leaves the generator in.
pub uninterp spec fn ratio_draw(state: Seq<u8>, numerator: u32, denominator: u32) -> (
    bool,
    Seq<u8>,
);

/// What `Rng::gen_range` returns on the range `low..high` of `u32` for a
/// generator in a given state, and the state it leaves the generator in.
pub uninterp spec fn range_draw(state: Seq<u8>, low: u32, high: u32) -> (u32, Seq<u8>);

/// Calls `StdRng::seed_from_u64`. The claim: the generator it returns is in
/// a state that the seed alone decides.
#[verifier::external_body]
pub(crate) fn seeded_rng(seed: u64) -> (rng: StdRng)
    ensures
        rng_state(rng) == seeded_state(seed),
{
    StdRng::seed_from_u64(seed)
}

/// Calls `Rng::gen_ratio`, which panics where the denominator is 0 or less
/// than the numerator. The claim: the outcome and the state the generator is
/// left in are decided by the state it was in and by the two numbers.
#[verifier::external_body]
pub(crate) fn roll(rng: &mut StdRng, numerator: u32, denominator: u32) -> (hit: bool)
    requires
        0 < denominator,
        numerator <= denominator,
    ensures
        (hit, rng_state(*final(rng))) == ratio_draw(
            rng_state(*old(rng)),
            numerator,
            denominator,
        ),
{
    rng.gen_ratio(numerator, denominator)
}

/// Calls `Rng::gen_range` on `low..high`, which panics where the range is
/// empty. The claim: the number drawn lies in the range, and it and the state
/// the generator is left in are decided by the state it was in and by the
/// range.
#[verifier::external_body]
pub(crate) fn pick(rng: &mut StdRng, low: u32, high: u32) -> (n: u32)
    requires
        low < high,
    ensures
        (n, rng_state(*final(rng))) == range_draw(rng_state(*old(rng)), low, high),
        low <= n < high,
{
    rng.gen_range(low..high)
}

} // verus!
