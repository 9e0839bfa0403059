//! The four-byte transport-packet header and the payload geometry, as numbers.
//!
//! Each function names one field of the bit layout. The fields are written with
//! division and remainder; [`lemma_header_bits`] ties them to the masks and
//! shifts that read them.

use vstd::prelude::*;

verus! {

/// Top bit of byte 1.
pub open spec fn transport_error(bytes: Seq<u8>) -> bool {
    bytes[1] as int / 128 == 1
}

/// Next bit of byte 1: a new unit starts in this packet's payload.
pub open spec fn unit_start(bytes: Seq<u8>) -> bool {
    bytes[1] as int / 64 % 2 == 1
}

/// Third bit of byte 1.
pub open spec fn priority(bytes: Seq<u8>) -> bool {
    bytes[1] as int / 32 % 2 == 1
}

/// The low five bits of byte 1 followed by byte 2.
pub open spec fn packet_identifier(bytes: Seq<u8>) -> int {
    bytes[1] as int % 32 * 256 + bytes[2]
}

/// Top two bits of byte 3.
pub open spec fn scrambling_control(bytes: Seq<u8>) -> int {
    bytes[3] as int / 64
}

/// Next two bits of byte 3.
pub open spec fn adaptation_field_control(bytes: Seq<u8>) -> int {
    bytes[3] as int / 16 % 4
}

pub open spec fn has_adaptation_field(bytes: Seq<u8>) -> bool {
    adaptation_field_control(bytes) >= 2
}

pub open spec fn has_payload(bytes: Seq<u8>) -> bool {
    adaptation_field_control(bytes) % 2 == 1
}

/// Low four bits of byte 3.
pub open spec fn continuity_counter(bytes: Seq<u8>) -> int {
    bytes[3] as int % 16
}

/// Where the payload starts: behind the header, or behind the adaptation field
/// whose length is in byte 4.
pub open spec fn payload_offset(bytes: Seq<u8>) -> int {
    if has_adaptation_field(bytes) {
        5 + bytes[4]
    } else {
        4
    }
}

/// The payload bytes: everything from the payload offset on, where there is a
/// payload at all.
pub open spec fn payload(bytes: Seq<u8>) -> Seq<u8> {
    if has_payload(bytes) {
        bytes.skip(payload_offset(bytes))
    } else {
        Seq::empty()
    }
}

/// The masks and shifts that read the header fields.
pub proof fn lemma_header_bits(b1: u8, b2: u8, b3: u8)
    ensures
        (b1 & 0x80 != 0) == (b1 as int / 128 == 1),
        (b1 & 0x40 != 0) == (b1 as int / 64 % 2 == 1),
        (b1 & 0x20 != 0) == (b1 as int / 32 % 2 == 1),
        (((b1 & 0x1F) as u16) << 8) | (b2 as u16) == b1 as int % 32 * 256 + b2,
        b3 >> 6 == b3 as int / 64,
        (b3 >> 4) & 0x03 == b3 as int / 16 % 4,
        ((b3 >> 4) & 0x03) & 0x02 != 0 <==> b3 as int / 16 % 4 >= 2,
        ((b3 >> 4) & 0x03) & 0x01 != 0 <==> b3 as int / 16 % 4 % 2 == 1,
        b3 & 0x0F == b3 as int % 16,
        b3 & 0x3F == b3 as int % 64,
{
    assert((b1 & 0x80 != 0) == (b1 / 128 == 1) && (b1 & 0x40 != 0) == (b1 / 64 % 2 == 1) && (b1
        & 0x20 != 0) == (b1 / 32 % 2 == 1) && (((b1 & 0x1F) as u16) << 8) | (b2 as u16) == b1 % 32
        * 256 + b2) by (bit_vector);
    assert(b3 >> 6 == b3 / 64 && (b3 >> 4) & 0x03 == b3 / 16 % 4 && (((b3 >> 4) & 0x03) & 0x02 != 0)
        == (b3 / 16 % 4 >= 2) && (((b3 >> 4) & 0x03) & 0x01 != 0) == (b3 / 16 % 4 % 2 == 1) && b3
        & 0x0F == b3 % 16 && b3 & 0x3F == b3 % 64) by (bit_vector);
}

} // verus!
