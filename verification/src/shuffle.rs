//! Where chance enters the puzzle.

use rand::seq::SliceRandom;
use vstd::prelude::*;

verus! {

/// Shuffles the units in place: `rand::seq::SliceRandom::shuffle` on the
/// slice, fed by the thread-local generator that `rand::thread_rng`
/// returns.
///
/// Trusted, not proved: the shuffle does nothing but swap elements of the
/// slice, so the units afterwards are the units before in another order.
/// Nothing is claimed about which order, and two calls may differ.
/// `rand::thread_rng` aborts the thread if the system cannot seed the
/// generator on its first use; that failure is outside this contract.
#[verifier::external_body]
pub(crate) fn shuffle(units: &mut Vec<u8>)
    ensures
        final(units)@.to_multiset() == old(units)@.to_multiset(),
{
    units.shuffle(&mut rand::thread_rng());
}

} // verus!
