//! Bit masks.

use vstd::prelude::*;
use vstd::arithmetic::power2::{pow2, lemma2_to64};

verus! {

pub const BITS_IN_BYTE: u8 = 8;

/// The byte whose `bits` low bits are set: `2^bits - 1`, and all eight bits
/// for any width of eight or more.
pub open spec fn mask_value(bits: u8) -> u8 {
    if bits >= 8 {
        0xFF
    } else {
        (pow2(bits as nat) - 1) as u8
    }
}

/// `u8::checked_shl`: the shifted value while the shift is smaller than the
/// width of a byte, `None` from eight on.
pub assume_specification[ u8::checked_shl ](x: u8, rhs: u32) -> (r: Option<u8>)
    ensures
        r == if rhs < 8 { Some(x << rhs) } else { None::<u8> },
;

/// The mask that selects the `bits` low bits of a byte.
pub fn create_mask(bits: u8) -> (mask: u8)
    ensures
        mask == mask_value(bits),
{
    let shifted = match 1u8.checked_shl(bits as u32) {
        Some(value) => value,
        None => 0,
    };
    proof {
        lemma_one_shifted(bits);
    }
    shifted.wrapping_sub(1)
}

/// Below eight, `1 << bits` is the power of two.
pub proof fn lemma_one_shifted(bits: u8)
    ensures
        bits < 8 ==> (1u8 << (bits as u32)) as nat == pow2(bits as nat),
        bits < 8 ==> 1 <= pow2(bits as nat) <= 128,
{
    lemma2_to64();
    if bits < 8 {
        let b = bits as u32;
        assert(b < 8 ==> (1u8 << b) == if b == 0 { 1u8 } else if b == 1 { 2u8 } else if b == 2 { 4u8 }
            else if b == 3 { 8u8 } else if b == 4 { 16u8 } else if b == 5 { 32u8 }
            else if b == 6 { 64u8 } else { 128u8 }) by (bit_vector);
    }
}

/// The masks of the supported widths, and of width zero.
pub proof fn lemma_mask_table()
    ensures
        mask_value(0) == 0x00,
        mask_value(1) == 0x01,
        mask_value(2) == 0x03,
        mask_value(4) == 0x0F,
        mask_value(8) == 0xFF,
{
    lemma2_to64();
}

} // verus!
