pub mod chameleon;
pub mod cheetah;
pub mod lion;

use vstd::prelude::*;

verus! {

/// Flag of a quad that travels as its own four bytes, in every algorithm.
pub const PLAIN_FLAG: u64 = 0x0;

/// Multiplier of the Fibonacci hash shared by the three algorithms.
pub const HASH_MULTIPLIER: u32 = 0x9D6EF916;

/// Number of bits of a hash: every table has `1 << HASH_BITS` slots.
pub const HASH_BITS: u32 = 16;

/// Number of slots of every hash-indexed table.
pub const TABLE_SIZE: usize = 65536;

/// The hash of a quad: the high sixteen bits of its product with
/// `HASH_MULTIPLIER`, modulo 2^32.
pub open spec fn quad_hash(quad: u32) -> u16 {
    (((quad as int * HASH_MULTIPLIER as int) % 0x1_0000_0000) / 0x10000) as u16
}

pub fn hash(quad: u32) -> (r: u16)
    ensures
        r == quad_hash(quad),
{
    let product = quad.wrapping_mul(HASH_MULTIPLIER);
    assert(product == (quad as int * HASH_MULTIPLIER as int) % 0x1_0000_0000);
    let high = product >> (32 - HASH_BITS);
    assert(high == product / 0x10000) by (bit_vector)
        requires
            high == product >> 16u32,
    ;
    high as u16
}

} // verus!
