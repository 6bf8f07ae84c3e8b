//! Laws relating what the request traits write to what the response traits
//! read back.

use vstd::prelude::*;

use crate::request::{le_bytes_u16, le_bytes_u32};
use crate::response::{le_u16, le_u32};

verus! {

/// Law: the two bytes a `u16` is written as read back as that `u16`.
pub proof fn law_u16_round_trip(v: u16)
    ensures
        le_u16(le_bytes_u16(v)[0], le_bytes_u16(v)[1]) == v,
{
}

/// Law: the two bytes an `i16` is written as read back as that `i16`.
pub proof fn law_i16_round_trip(v: i16)
    ensures
        le_u16(le_bytes_u16(v as u16)[0], le_bytes_u16(v as u16)[1]) as i16 == v,
{
    let u = v as u16;
    assert(le_u16(le_bytes_u16(u)[0], le_bytes_u16(u)[1]) == u);
    assert((v as u16) as i16 == v) by (bit_vector);
}

/// Law: the byte an `i8` is written as reads back as that `i8`.
pub proof fn law_i8_round_trip(v: i8)
    ensures
        (v as u8) as i8 == v,
{
    assert((v as u8) as i8 == v) by (bit_vector);
}

/// Law: the four bytes a `u32` is written as read back as that `u32`.
pub proof fn law_u32_round_trip(v: u32)
    ensures
        le_u32(le_bytes_u32(v)[0], le_bytes_u32(v)[1], le_bytes_u32(v)[2], le_bytes_u32(v)[3])
            == v,
{
    assert((v % 256) + 256 * ((v / 256) % 256) + 65536 * ((v / 65536) % 256) + 16777216 * (v
        / 16777216) == v) by (nonlinear_arith);
}

/// Law: the four bytes an `i32` is written as read back as that `i32`.
pub proof fn law_i32_round_trip(v: i32)
    ensures
        le_u32(
            le_bytes_u32(v as u32)[0],
            le_bytes_u32(v as u32)[1],
            le_bytes_u32(v as u32)[2],
            le_bytes_u32(v as u32)[3],
        ) as i32 == v,
{
    law_u32_round_trip(v as u32);
    assert((v as u32) as i32 == v) by (bit_vector);
}

/// Law: repeated `u16` words written by the request array read back, word by
/// word, as the words written.
pub proof fn law_u16_array_round_trip(source: Seq<u16>, bytes: Seq<u8>, number: int)
    requires
        0 <= number <= source.len(),
        2 * number <= bytes.len(),
        forall|i: int|
            0 <= i < number ==> bytes.subrange(2 * i, 2 * i + 2) == le_bytes_u16(
                #[trigger] source[i],
            ),
    ensures
        forall|i: int| 0 <= i < number ==> le_u16(bytes[2 * i], bytes[2 * i + 1]) == #[trigger] source[i],
{
    assert forall|i: int| 0 <= i < number implies le_u16(bytes[2 * i], bytes[2 * i + 1])
        == #[trigger] source[i] by {
        assert(bytes.subrange(2 * i, 2 * i + 2)[0] == bytes[2 * i]);
        assert(bytes.subrange(2 * i, 2 * i + 2)[1] == bytes[2 * i + 1]);
        law_u16_round_trip(source[i]);
    }
}

/// Law: repeated `u32` words written by the request array read back, word by
/// word, as the words written.
pub proof fn law_u32_array_round_trip(source: Seq<u32>, bytes: Seq<u8>, number: int)
    requires
        0 <= number <= source.len(),
        4 * number <= bytes.len(),
        forall|i: int|
            0 <= i < number ==> bytes.subrange(4 * i, 4 * i + 4) == le_bytes_u32(
                #[trigger] source[i],
            ),
    ensures
        forall|i: int|
            0 <= i < number ==> le_u32(bytes[4 * i], bytes[4 * i + 1], bytes[4 * i + 2], bytes[4 * i + 3])
                == #[trigger] source[i],
{
    assert forall|i: int| 0 <= i < number implies le_u32(
        bytes[4 * i],
        bytes[4 * i + 1],
        bytes[4 * i + 2],
        bytes[4 * i + 3],
    ) == #[trigger] source[i] by {
        let w = bytes.subrange(4 * i, 4 * i + 4);
        assert(w[0] == bytes[4 * i]);
        assert(w[1] == bytes[4 * i + 1]);
        assert(w[2] == bytes[4 * i + 2]);
        assert(w[3] == bytes[4 * i + 3]);
        law_u32_round_trip(source[i]);
    }
}

} // verus!
