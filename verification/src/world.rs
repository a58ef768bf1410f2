//! The shared world's limit on live particles.
use vstd::prelude::*;

verus! {

/// At most this many particles live in the shared world (10 million).
pub const MAX_PARTICLES: usize = 10_000_000;

/// Whether a spawn request for `requested` particles is accepted while
/// `current` particles live: only if the total stays within
/// [`MAX_PARTICLES`]; a request that would exceed it is ignored whole.
pub fn spawn_within_limit(current: usize, requested: usize) -> (r: bool)
    ensures
        r == (current + requested <= MAX_PARTICLES),
{
    requested <= MAX_PARTICLES && current <= MAX_PARTICLES - requested
}

} // verus!
