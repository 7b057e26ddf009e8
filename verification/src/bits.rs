use vstd::prelude::*;

verus! {

/// The mask of bit `i` (0..8) of a byte.
pub open spec fn bit_mask(i: int) -> u8 {
    if i == 0 { 0x01 }
    else if i == 1 { 0x02 }
    else if i == 2 { 0x04 }
    else if i == 3 { 0x08 }
    else if i == 4 { 0x10 }
    else if i == 5 { 0x20 }
    else if i == 6 { 0x40 }
    else { 0x80 }
}

/// Whether bit `i` (0..8) of `b` is set.
pub open spec fn bit_set(b: u8, i: int) -> bool {
    b & bit_mask(i) != 0
}

/// The unsigned big-endian 16-bit value of the bytes `hi`, `lo`.
pub open spec fn be_u16(hi: u8, lo: u8) -> int {
    hi as int * 256 + lo as int
}

/// The two's-complement big-endian 16-bit value of the bytes `hi`, `lo`.
pub open spec fn be_i16(hi: u8, lo: u8) -> int {
    if hi >= 128 { be_u16(hi, lo) - 65536 } else { be_u16(hi, lo) }
}

proof fn lemma_be(hi: u8, lo: u8)
    by (bit_vector)
    ensures
        (((hi as u16) << 8u16) | (lo as u16)) as int == hi as int * 256 + lo as int,
        hi >= 128 ==> ((((hi as u16) << 8u16) | (lo as u16)) as i16) as int == hi as int * 256 + lo as int - 65536,
        hi < 128 ==> ((((hi as u16) << 8u16) | (lo as u16)) as i16) as int == hi as int * 256 + lo as int,
{
}

/// The unsigned 16-bit value of two bytes, most significant first.
pub fn u16_from_be(hi: u8, lo: u8) -> (r: u16)
    ensures
        r as int == be_u16(hi, lo),
{
    proof { lemma_be(hi, lo); }
    ((hi as u16) << 8u16) | (lo as u16)
}

/// The signed 16-bit value of two bytes, most significant first.
pub fn i16_from_be(hi: u8, lo: u8) -> (r: i16)
    ensures
        r as int == be_i16(hi, lo),
{
    proof { lemma_be(hi, lo); }
    (((hi as u16) << 8u16) | (lo as u16)) as i16
}

} // verus!
