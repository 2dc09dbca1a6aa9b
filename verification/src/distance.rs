//! Ray parameters as unsigned integer keys.
//!
//! A point on a ray is named by its parameter, the signed distance from the
//! ray's origin in units of the ray's direction. The intersection tests only
//! ever compare parameters, so they read each one as a key: an unsigned
//! integer that orders as the parameters do.

use vstd::prelude::*;

verus! {

/// The key of zero, which splits the keys of negative parameters from those of
/// positive ones.
pub const ZERO_KEY: u64 = 0x8000_0000_0000_0000;

/// The signed integer that a 64-bit sign-and-magnitude pattern denotes: the
/// low 63 bits, negated where the top bit is set. Binary64 numbers are ordered
/// as their bit patterns are under this reading, both zeros being equal.
pub open spec fn signed_magnitude(bits: u64) -> int {
    if bits < ZERO_KEY {
        bits as int
    } else {
        ZERO_KEY - bits
    }
}

/// Whether the parameter with key `t` lies strictly between those with keys
/// `t_min` and `t_max`.
pub open spec fn inside(t: u64, t_min: u64, t_max: u64) -> bool {
    t_min < t < t_max
}

/// The key of the parameter whose binary64 bit pattern is `bits`: its
/// sign-and-magnitude value, shifted so that it is never negative.
pub fn distance_key(bits: u64) -> (key: u64)
    ensures
        key == ZERO_KEY + signed_magnitude(bits),
{
    if bits < ZERO_KEY {
        bits + ZERO_KEY
    } else {
        ZERO_KEY - (bits - ZERO_KEY)
    }
}

} // verus!
