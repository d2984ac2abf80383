//! Small free-standing helpers: the order-free half of the width-doubling
//! read, a scan for a NUL terminator, and a 32-bit byte reversal.

use vstd::prelude::*;
use vstd::arithmetic::power2::*;

verus! {

/// Glues two halves into one number, the first argument in the high bits.
/// For the byte-sized shifts used by the cursor, the result is exactly
/// `high * 2^shift + low` whenever both halves fit in `shift` bits.
pub fn concat_number(high: u128, low: u128, shift: u32) -> (r: u128)
    requires
        shift < 128,
    ensures
        r == (high << shift) | low,
        (shift == 8 || shift == 16 || shift == 32 || shift == 64) && high < pow2(shift as nat)
            && low < pow2(shift as nat) ==> r == high * pow2(shift as nat) + low,
{
    proof {
        lemma2_to64();
        if shift == 8 && high < 0x100 && low < 0x100 {
            assert((high << 8u32) | low == high * 0x100 + low) by (bit_vector)
                requires
                    high < 0x100,
                    low < 0x100,
            ;
        }
        if shift == 16 && high < 0x10000 && low < 0x10000 {
            assert((high << 16u32) | low == high * 0x10000 + low) by (bit_vector)
                requires
                    high < 0x10000,
                    low < 0x10000,
            ;
        }
        if shift == 32 && high < 0x1_0000_0000 && low < 0x1_0000_0000 {
            assert((high << 32u32) | low == high * 0x1_0000_0000 + low) by (bit_vector)
                requires
                    high < 0x1_0000_0000,
                    low < 0x1_0000_0000,
            ;
        }
        if shift == 64 && high < 0x1_0000_0000_0000_0000 && low < 0x1_0000_0000_0000_0000 {
            assert((high << 64u32) | low == high * 0x1_0000_0000_0000_0000 + low) by (bit_vector)
                requires
                    high < 0x1_0000_0000_0000_0000,
                    low < 0x1_0000_0000_0000_0000,
            ;
        }
    }
    (high << shift) | low
}

/// The position of the first zero byte of `s` at or after `i`, if any.
pub open spec fn first_zero_from(s: Seq<u8>, i: int) -> Option<int>
    decreases s.len() - i,
    when 0 <= i <= s.len()
{
    if i >= s.len() {
        None
    } else if s[i] == 0 {
        Some(i)
    } else {
        first_zero_from(s, i + 1)
    }
}

/// Walks forward from `offset` to the first zero byte and returns its
/// position; an empty buffer returns `offset` itself.
pub fn find_zero(data: Vec<u8>, offset: usize) -> (r: usize)
    requires
        data@.len() == 0 || (offset < data@.len() && first_zero_from(data@, offset as int) matches Some(_)),
    ensures
        data@.len() == 0 ==> r == offset,
        data@.len() > 0 ==> first_zero_from(data@, offset as int) == Some(r as int),
{
    if data.len() == 0 {
        return offset;
    }
    let mut pos = offset;
    while data[pos] != 0
        invariant
            data@.len() > 0,
            offset <= pos < data@.len(),
            first_zero_from(data@, pos as int) matches Some(_),
            first_zero_from(data@, pos as int) == first_zero_from(data@, offset as int),
        decreases data@.len() - pos,
    {
        pos = pos + 1;
        proof {
            if pos >= data@.len() {
                assert(first_zero_from(data@, pos as int) is None);
            }
        }
    }
    pos
}

/// Reverses the byte order of a 32-bit value.
pub fn rev_32(x: u32) -> (r: u32)
    ensures
        r == (x & 0xFF) << 0x18 | ((x >> 0x08) & 0xFF) << 0x10 | ((x >> 0x10) & 0xFF) << 0x08 | (
        (x >> 0x18) & 0xFF),
        r % 0x100 == x / 0x1000000,
        (r / 0x100) % 0x100 == (x / 0x10000) % 0x100,
        (r / 0x10000) % 0x100 == (x / 0x100) % 0x100,
        r / 0x1000000 == x % 0x100,
{
    proof {
        assert({
            let r = (x & 0xFF) << 0x18 | ((x >> 0x08) & 0xFF) << 0x10 | ((x >> 0x10) & 0xFF)
                << 0x08 | ((x >> 0x18) & 0xFF);
            r % 0x100 == x / 0x1000000 && (r / 0x100) % 0x100 == (x / 0x10000) % 0x100 && (r
                / 0x10000) % 0x100 == (x / 0x100) % 0x100 && r / 0x1000000 == x % 0x100
        }) by (bit_vector);
    }
    (x & 0xFF) << 0x18 | ((x >> 0x08) & 0xFF) << 0x10 | ((x >> 0x10) & 0xFF) << 0x08 | ((x >> 0x18)
        & 0xFF)
}

} // verus!
