//! Wire constants and the little-endian integer layout used by every frame.

use vstd::prelude::*;

verus! {

/// Marker byte that starts every frame.
pub const STX: u8 = 0x02;

/// Protocol version carried in every frame.
pub const API_VERSION: u8 = 0x02;

/// Length of a frame header in bytes.
pub const HEADER_LEN: usize = 12;

/// Error code of a response that reports an invalid command length.
pub const ERROR_INVALID_LENGTH: u8 = 0x80;

/// Message type ids, shared by commands and their responses.
pub const TYPE_REGISTERS_GET: u8 = 0x31;
pub const TYPE_STOPPED: u8 = 0x62;
pub const TYPE_RESUMED: u8 = 0x63;
pub const TYPE_ADVANCE_INSTRUCTIONS: u8 = 0x71;
pub const TYPE_PING: u8 = 0x81;
pub const TYPE_REGISTERS_AVAILABLE: u8 = 0x83;
pub const TYPE_EXIT: u8 = 0xaa;
pub const TYPE_RESET: u8 = 0xcc;
pub const TYPE_LOAD: u8 = 0xdd;

/// The value of two bytes read as a little-endian integer.
pub open spec fn le16(b0: u8, b1: u8) -> int {
    b0 + 256 * b1
}

/// The value of four bytes read as a little-endian integer.
pub open spec fn le32(b0: u8, b1: u8, b2: u8, b3: u8) -> int {
    b0 + 256 * b1 + 65536 * b2 + 16777216 * b3
}

/// The two bytes of `x`, least significant first.
pub open spec fn le16_bytes(x: u16) -> Seq<u8> {
    seq![(x % 256) as u8, (x / 256) as u8]
}

/// The four bytes of `x`, least significant first.
pub open spec fn le32_bytes(x: u32) -> Seq<u8> {
    seq![
        (x % 256) as u8,
        ((x / 256) % 256) as u8,
        ((x / 65536) % 256) as u8,
        (x / 16777216) as u8,
    ]
}

/// Reading back the bytes written for a 16-bit value gives the value.
pub proof fn lemma_le16_round_trip(x: u16)
    ensures
        le16(le16_bytes(x)[0], le16_bytes(x)[1]) == x,
{
    assert((x % 256) + 256 * (x / 256) == x) by (nonlinear_arith);
}

/// Reading back the bytes written for a 32-bit value gives the value.
pub proof fn lemma_le32_round_trip(x: u32)
    ensures
        le32(le32_bytes(x)[0], le32_bytes(x)[1], le32_bytes(x)[2], le32_bytes(x)[3]) == x,
{
    let b = le32_bytes(x);
    assert(x / 16777216 < 256) by (nonlinear_arith)
        requires
            x < 0x1_0000_0000,
    ;
    assert((x % 256) + 256 * ((x / 256) % 256) + 65536 * ((x / 65536) % 256) + 16777216 * (x
        / 16777216) == x) by (nonlinear_arith);
}

/// Writes `x` as four little-endian bytes.
pub fn le32_encode(x: u32) -> (r: [u8; 4])
    ensures
        r@ == le32_bytes(x),
{
    assert(x / 16777216 < 256) by (nonlinear_arith)
        requires
            x < 0x1_0000_0000,
    ;
    let r = [
        (x % 256) as u8,
        ((x / 256) % 256) as u8,
        ((x / 65536) % 256) as u8,
        (x / 16777216) as u8,
    ];
    assert(r@ =~= le32_bytes(x));
    r
}

} // verus!
