//! The source of randomness.

use vstd::prelude::*;

verus! {

/// Draws a `bool` that is `true` with a chance of one in `n`.
///
/// This calls `rand::Rng::gen_weighted_bool` on the generator that
/// `rand::thread_rng` hands out, which is seeded by the operating system.
/// The outcome is left open: two draws with the same `n` may differ. The
/// generator gives up with a panic only if the system offers no entropy at
/// all.
#[verifier::external_body]
pub(crate) fn one_chance_in(n: u32) -> (hit: bool) {
    rand::Rng::gen_weighted_bool(&mut rand::thread_rng(), n)
}

} // verus!
