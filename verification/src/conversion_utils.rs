//! Decoding of raw storage key bytes: big-endian timestamps and address
//! strings.
use vstd::prelude::*;

verus! {

/// The byte at position `i`, with absent positions reading as zero.
pub open spec fn byte_or_zero(v: Seq<u8>, i: int) -> u64 {
    if 0 <= i < v.len() {
        v[i] as u64
    } else {
        0
    }
}

/// The big-endian `u64` spelled by the first eight bytes of a key.
pub open spec fn spec_u64_from_bytes(v: Seq<u8>) -> int {
    byte_or_zero(v, 0) * 0x100000000000000 + byte_or_zero(v, 1) * 0x1000000000000 + byte_or_zero(
        v,
        2,
    ) * 0x10000000000 + byte_or_zero(v, 3) * 0x100000000 + byte_or_zero(v, 4) * 0x1000000
        + byte_or_zero(v, 5) * 0x10000 + byte_or_zero(v, 6) * 0x100 + byte_or_zero(v, 7)
}

/// Reads a `u64` from the first eight bytes of a raw storage key,
/// big-endian, treating missing bytes as zero.
pub fn u64_from_vec_u8(vector: Vec<u8>) -> (r: u64)
    ensures
        r == spec_u64_from_bytes(vector@),
{
    let byte_0 = if vector.len() > 0 { vector[0] } else { 0 };
    let byte_1 = if vector.len() > 1 { vector[1] } else { 0 };
    let byte_2 = if vector.len() > 2 { vector[2] } else { 0 };
    let byte_3 = if vector.len() > 3 { vector[3] } else { 0 };
    let byte_4 = if vector.len() > 4 { vector[4] } else { 0 };
    let byte_5 = if vector.len() > 5 { vector[5] } else { 0 };
    let byte_6 = if vector.len() > 6 { vector[6] } else { 0 };
    let byte_7 = if vector.len() > 7 { vector[7] } else { 0 };

    proof {
        assert((byte_0 as u64) << 56 == byte_0 * 0x100000000000000) by (bit_vector);
        assert((byte_1 as u64) << 48 == byte_1 * 0x1000000000000) by (bit_vector);
        assert((byte_2 as u64) << 40 == byte_2 * 0x10000000000) by (bit_vector);
        assert((byte_3 as u64) << 32 == byte_3 * 0x100000000) by (bit_vector);
        assert((byte_4 as u64) << 24 == byte_4 * 0x1000000) by (bit_vector);
        assert((byte_5 as u64) << 16 == byte_5 * 0x10000) by (bit_vector);
        assert((byte_6 as u64) << 8 == byte_6 * 0x100) by (bit_vector);
    }
    (byte_7 as u64) + (((byte_6 as u64) << 8) + (((byte_5 as u64) << 16) + (((byte_4 as u64) << 24)
        + (((byte_3 as u64) << 32) + (((byte_2 as u64) << 40) + (((byte_1 as u64) << 48) + ((
    byte_0 as u64) << 56)))))))
}

/// Relies on `String::from_utf8`: bytes below 128 are valid UTF-8 and decode
/// to exactly one character per byte, the character with that code.
#[verifier::external_body]
fn string_from_ascii_bytes(vector: Vec<u8>) -> (r: String)
    requires
        forall|i: int| 0 <= i < vector@.len() ==> vector@[i] < 128,
    ensures
        r@ == vector@.map_values(|b: u8| b as char),
{
    String::from_utf8(vector).unwrap()
}

/// Reads an address string from raw storage key bytes.  Addresses are
/// ASCII, and the byte encoding of one is its characters.
pub fn addr_from_vec_u8(vector: Vec<u8>) -> (r: String)
    requires
        forall|i: int| 0 <= i < vector@.len() ==> vector@[i] < 128,
    ensures
        r@ == vector@.map_values(|b: u8| b as char),
{
    string_from_ascii_bytes(vector)
}

} // verus!
