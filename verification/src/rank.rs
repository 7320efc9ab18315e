//! Ranks. A score is a 64-bit binary number made of a sign bit and a
//! magnitude, and of two such numbers the one with the lower signed
//! magnitude is the lower score. The rank of a score is the unsigned integer
//! that orders in the same way, so that the search can compare scores as
//! integers.

use vstd::prelude::*;

verus! {

/// The value of the sign bit.
pub const SIGN_BIT: u64 = 0x8000_0000_0000_0000;

/// The signed magnitude that a bit pattern stands for: the lower 63 bits,
/// taken below zero where the sign bit is set.
pub open spec fn signed_magnitude(bits: u64) -> int {
    if bits >= SIGN_BIT {
        -(bits - SIGN_BIT)
    } else {
        bits as int
    }
}

/// The rank of a bit pattern: patterns with the sign bit come first, the
/// larger magnitude lower; patterns without it follow, the larger magnitude
/// higher.
pub open spec fn rank_spec(bits: u64) -> u64 {
    if bits >= SIGN_BIT {
        (u64::MAX - bits) as u64
    } else {
        (bits + SIGN_BIT) as u64
    }
}

/// The bit pattern that has the given rank.
pub open spec fn bits_spec(rank: u64) -> u64 {
    if rank >= SIGN_BIT {
        (rank - SIGN_BIT) as u64
    } else {
        (u64::MAX - rank) as u64
    }
}

/// The rank of the score with the given bit pattern.
pub fn rank_of_bits(bits: u64) -> (rank: u64)
    ensures
        rank == rank_spec(bits),
        bits_spec(rank) == bits,
{
    if bits >= SIGN_BIT {
        u64::MAX - bits
    } else {
        bits + SIGN_BIT
    }
}

/// The bit pattern of the score with the given rank.
pub fn bits_of_rank(rank: u64) -> (bits: u64)
    ensures
        bits == bits_spec(rank),
        rank_spec(bits) == rank,
{
    if rank >= SIGN_BIT {
        rank - SIGN_BIT
    } else {
        u64::MAX - rank
    }
}

/// Ranks order as signed magnitudes do: the lower signed magnitude has the
/// lower rank, and a lower rank never belongs to a higher signed magnitude.
/// The two patterns of magnitude zero differ in rank, the one with the sign
/// bit being lower.
pub proof fn lemma_rank_order(a: u64, b: u64)
    ensures
        signed_magnitude(a) < signed_magnitude(b) ==> rank_spec(a) < rank_spec(b),
        rank_spec(a) < rank_spec(b) ==> signed_magnitude(a) <= signed_magnitude(b),
        rank_spec(a) == rank_spec(b) <==> a == b,
{
}

} // verus!
