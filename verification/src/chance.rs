//! The game's one source of chance: macroquad's global generator.

use vstd::prelude::*;

verus! {

/// The largest bound `random_below` takes. `macroquad::rand::gen_range` scales
/// a 32-bit draw into the range in double precision; the bound converts to a
/// double exactly, and the scaled draw stays strictly below it, while the
/// bound is at most 2^53.
pub const RANDOM_BOUND_MAX: u64 = 0x20_0000_0000_0000;

/// `macroquad::rand::gen_range(0, bound)` on `usize`: a pseudo-random index
/// below `bound`. Which one depends on the state of the global generator, so
/// the contract says only that it is below the bound.
#[verifier::external_body]
pub(crate) fn random_below(bound: usize) -> (r: usize)
    requires
        0 < bound <= RANDOM_BOUND_MAX,
    ensures
        r < bound,
{
    macroquad::rand::gen_range(0, bound)
}

} // verus!
