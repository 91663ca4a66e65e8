//! Bookkeeping of evaluation that does not look at values: how deep calls
//! nest, whether an index is in bounds, and the state of `rand`.
use vstd::prelude::*;
use super::error::RuntimeError;

verus! {

/// How deeply calls may nest.
pub const MAX_CALL_DEPTH: usize = 100;

/// Entering a call at nesting `depth`: the new depth, or a stack overflow
/// once it would pass the limit.
pub fn enter_call(depth: usize) -> (r: Result<usize, RuntimeError>)
    ensures
        depth + 1 > MAX_CALL_DEPTH ==> r == Err::<usize, RuntimeError>(RuntimeError::StackOverflow),
        depth + 1 <= MAX_CALL_DEPTH ==> r == Ok::<usize, RuntimeError>((depth + 1) as usize),
{
    if depth >= MAX_CALL_DEPTH {
        Err(RuntimeError::StackOverflow)
    } else {
        Ok(depth + 1)
    }
}

/// Index `i` into an array of `len` elements: the position, or the error
/// that names both.
pub fn check_index(i: i64, len: usize) -> (r: Result<usize, RuntimeError>)
    ensures
        0 <= i < len ==> r == Ok::<usize, RuntimeError>(i as usize),
        !(0 <= i < len) ==> r == Err::<usize, RuntimeError>(RuntimeError::IndexOutOfBounds { index: i, len }),
{
    if i < 0 || i as u64 >= len as u64 {
        Err(RuntimeError::IndexOutOfBounds { index: i, len })
    } else {
        Ok(i as usize)
    }
}

/// The next state of the generator behind `rand`, a linear congruential one
/// modulo 2^64.
pub open spec fn spec_next_seed(s: u64) -> u64 {
    let m = (s as nat * 6364136223846793005) % 0x1_0000_0000_0000_0000;
    ((m + 1442695040888963407) % 0x1_0000_0000_0000_0000) as u64
}

/// The state of the generator behind `rand` before its first use.
pub const FIRST_SEED: u64 = 12345;

/// The next state of the generator behind `rand`.
pub fn next_seed(s: u64) -> (r: u64)
    ensures
        r == spec_next_seed(s),
{
    let m = s.wrapping_mul(6364136223846793005);
    m.wrapping_add(1442695040888963407)
}

/// The bits of state `s` that `rand` scales into `[0, 1]`: its top 31.
pub fn rand_bits(s: u64) -> (r: u32)
    ensures
        r as int == s as int / 0x2_0000_0000,
{
    let t = s >> 33;
    assert(t == s / 0x2_0000_0000u64 && t < 0x8000_0000u64) by (bit_vector)
        requires
            t == s >> 33,
    ;
    t as u32
}

} // verus!
