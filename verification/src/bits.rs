//! Single bits of 64-bit masks.
use vstd::prelude::*;

verus! {

/// Whether bit `index` of `mask` is set.
pub open spec fn bit_set(mask: u64, index: int) -> bool {
    0 <= index < 64 && (mask >> (index as u64)) & 1 == 1
}

/// How many of the lowest `count` bits of `mask` are set.
pub open spec fn bits_below(mask: u64, count: nat) -> nat
    decreases count,
{
    if count == 0 {
        0
    } else {
        bits_below(mask, (count - 1) as nat) + if bit_set(mask, count - 1) {
            1nat
        } else {
            0nat
        }
    }
}

/// How many bits of `mask` are set.
pub open spec fn bit_count(mask: u64) -> nat {
    bits_below(mask, 64)
}

pub fn has_bit(mask: u64, index: u8) -> (set: bool)
    ensures
        set == bit_set(mask, index as int),
{
    index < 64 && (mask >> (index as u64)) & 1 == 1
}

pub fn count_bits(mask: u64) -> (count: u32)
    ensures
        count == bit_count(mask),
        count <= 64,
{
    let mut count: u32 = 0;
    for index in 0..64u8
        invariant
            count == bits_below(mask, index as nat),
            count <= index,
    {
        if has_bit(mask, index) {
            count += 1;
        }
    }
    count
}

} // verus!
