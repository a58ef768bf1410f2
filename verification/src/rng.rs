//! The xorshift pseudo-random generator the game server uses for its
//! occasional statistics sampling.
use vstd::prelude::*;

verus! {

/// The seed the generator starts from.
pub const RANDOM_SEED: u32 = 0x12345678;

/// One xorshift32 step: shift-xor by 13 left, 17 right and 5 left.
pub open spec fn xorshift32(s: u32) -> u32 {
    let a = s ^ ((s << 13u32) as u32);
    let b = a ^ (a >> 17u32);
    b ^ ((b << 5u32) as u32)
}

/// Advances the generator state `seed` and returns the new state, which is
/// also the random number drawn.
pub fn random(seed: &mut u32) -> (r: u32)
    ensures
        r == xorshift32(*old(seed)),
        *final(seed) == r,
{
    let mut s = *seed;
    s ^= s << 13;
    s ^= s >> 17;
    s ^= s << 5;
    *seed = s;
    s
}

/// The generator never reaches the all-zero state from another state, and
/// stays there once it is in it.
pub proof fn law_xorshift_nonzero(s: u32)
    ensures
        s != 0 ==> xorshift32(s) != 0,
        s == 0 ==> xorshift32(s) == 0,
{
    assert(s != 0 ==> (s ^ ((s << 13u32) as u32)) != 0) by (bit_vector);
    let a = s ^ ((s << 13u32) as u32);
    assert(a != 0 ==> (a ^ (a >> 17u32)) != 0) by (bit_vector);
    let b = a ^ (a >> 17u32);
    assert(b != 0 ==> (b ^ ((b << 5u32) as u32)) != 0) by (bit_vector);
    assert(s == 0 ==> xorshift32(s) == 0) by (bit_vector);
}

} // verus!
