//! What parsing a PES packet gives, in terms of the packet's bytes.

use vstd::prelude::*;

use crate::pes::packet;
use crate::pes::packet::{
    PacketizedElementaryStream, PacketizedElementaryStreamView, PesFields,
    TransportStreamPacketView,
};
use crate::pes::timestamp;
use crate::pes::PacketizedElementaryStreamError;
use crate::ts::PacketFields;

verus! {

/// The views of packets show all of their fields.
pub proof fn law_views_show_every_field<'a, 'b>(
    transport: TransportStreamPacketView<'a>,
    stream: PacketizedElementaryStream,
    view: PacketizedElementaryStreamView<'b>,
)
    ensures
        transport@.transport_error_indicator == transport.transport_error_indicator,
        transport@.payload_unit_start_indicator == transport.payload_unit_start_indicator,
        transport@.packet_identifier == transport.packet_identifier,
        transport@.scrambling_control == transport.scrambling_control,
        transport@.continuity_counter == transport.continuity_counter,
        transport@.has_payload == transport.has_payload,
        transport@.payload == transport.payload@,
        stream@.packet_identifier == stream.packet_identifier,
        stream@.stream_identifier == stream.stream_identifier,
        stream@.presentation_timestamp_90khz == stream.presentation_timestamp_90khz,
        stream@.decoding_timestamp_90khz == stream.decoding_timestamp_90khz,
        stream@.elementary_bytes == stream.elementary_bytes@,
        view@.stream_identifier == view.stream_identifier,
        view@.presentation_timestamp_90khz == view.presentation_timestamp_90khz,
        view@.decoding_timestamp_90khz == view.decoding_timestamp_90khz,
        view@.elementary_bytes == view.elementary_bytes@,
{
}

/// Reassembly sees a decoded packet's fields as they are.
pub proof fn law_reassembly_sees_the_packet_as_it_is(fields: PacketFields)
    ensures
        packet::unit_input(fields).transport_error_indicator == fields.transport_error_indicator,
        packet::unit_input(fields).payload_unit_start_indicator
            == fields.payload_unit_start_indicator,
        packet::unit_input(fields).packet_identifier == fields.packet_identifier,
        packet::unit_input(fields).scrambling_control == fields.scrambling_control,
        packet::unit_input(fields).continuity_counter == fields.continuity_counter,
        packet::unit_input(fields).has_payload == fields.has_payload,
        packet::unit_input(fields).payload == fields.payload,
{
}

/// The start code is 00 00 01 and an identifier behind it, whichever.
pub proof fn law_start_code_is_three_bytes(bytes: Seq<u8>)
    ensures
        packet::has_start_code(bytes) <==> bytes.len() >= 4 && bytes.take(3) == seq![0u8, 0, 1],
        !packet::has_start_code(bytes) <==> packet::parsed(bytes) == Err::<
            PesFields,
            PacketizedElementaryStreamError,
        >(PacketizedElementaryStreamError::InvalidStartCodePrefix),
{
    if bytes.len() >= 4 {
        let head = bytes.take(3);
        assert(head[0] == bytes[0] && head[1] == bytes[1] && head[2] == bytes[2]);
        if packet::has_start_code(bytes) {
            assert(head =~= seq![0u8, 0, 1]);
        }
    }
}

/// The declared length has bytes 4 and 5 as its digits.
pub proof fn law_declared_length_has_two_digits(bytes: Seq<u8>)
    ensures
        0 <= packet::declared_length(bytes) <= 0xFFFF,
        packet::declared_length(bytes) / 0x100 == bytes[4],
        packet::declared_length(bytes) % 0x100 == bytes[5],
{
}

/// A packet ends where it declares to, or with the bytes if that is sooner or it
/// declares nothing.
pub proof fn law_packet_ends_where_it_declares(bytes: Seq<u8>)
    requires
        bytes.len() >= 6,
    ensures
        6 <= packet::packet_end(bytes) <= bytes.len(),
        bytes[4] == 0 && bytes[5] == 0 ==> packet::packet_end(bytes) == bytes.len(),
        bytes[4] != 0 || bytes[5] != 0 ==> {
            &&& packet::packet_end(bytes) <= 6 + bytes[4] * 0x100 + bytes[5]
            &&& packet::packet_end(bytes) == bytes.len() || packet::packet_end(bytes) == 6
                + bytes[4] * 0x100 + bytes[5]
        },
{
}

/// A packet of private stream 2 is its six-byte prefix and elementary bytes.
pub proof fn law_private_stream_two_is_all_payload(bytes: Seq<u8>)
    requires
        bytes.len() >= 6,
        bytes[0] == 0,
        bytes[1] == 0,
        bytes[2] == 1,
        bytes[3] == 0xBF,
    ensures
        packet::parsed(bytes) == Ok::<PesFields, PacketizedElementaryStreamError>(
            PesFields {
                stream_identifier: 0xBF,
                presentation_timestamp_90khz: None,
                decoding_timestamp_90khz: None,
                elementary_bytes: bytes.subrange(6, packet::packet_end(bytes)),
            },
        ),
{
}

/// Whether a packet, not of private stream 2, has an optional header that fits
/// it: the start code, the marker bits 10, and room for as many header bytes as
/// byte 8 says.
pub open spec fn header_fits(bytes: Seq<u8>) -> bool {
    &&& bytes.len() >= 9
    &&& bytes[0] == 0
    &&& bytes[1] == 0
    &&& bytes[2] == 1
    &&& bytes[3] != 0xBF
    &&& 0x80 <= bytes[6] < 0xC0
    &&& 9 + bytes[8] <= bytes.len()
    &&& (bytes[4] != 0 || bytes[5] != 0) ==> 9 + bytes[8] <= 6 + bytes[4] * 0x100 + bytes[5]
}

/// A packet whose flag bits announce no timestamp has none, and all the bytes
/// behind its optional header, whatever that holds, are elementary bytes.
pub proof fn law_packet_without_timestamps(bytes: Seq<u8>)
    requires
        header_fits(bytes),
        bytes[7] < 0x40,
    ensures
        packet::parsed(bytes) == Ok::<PesFields, PacketizedElementaryStreamError>(
            PesFields {
                stream_identifier: bytes[3],
                presentation_timestamp_90khz: None,
                decoding_timestamp_90khz: None,
                elementary_bytes: bytes.subrange(9 + bytes[8], packet::packet_end(bytes)),
            },
        ),
{
}

/// A packet whose flag bits announce a presentation timestamp, and that carries
/// the field of `presentation`, parses to these 33 bits and all the bytes behind
/// the optional header.
pub proof fn law_packet_with_a_presentation_timestamp(bytes: Seq<u8>, presentation: int)
    requires
        header_fits(bytes),
        0x80 <= bytes[7] < 0xC0,
        bytes[8] >= 5,
        bytes.subrange(9, 14) == timestamp::prefixed_field(presentation, 2),
    ensures
        packet::parsed(bytes) == Ok::<PesFields, PacketizedElementaryStreamError>(
            PesFields {
                stream_identifier: bytes[3],
                presentation_timestamp_90khz: Some((presentation % 0x2_0000_0000) as u64),
                decoding_timestamp_90khz: None,
                elementary_bytes: bytes.subrange(9 + bytes[8], packet::packet_end(bytes)),
            },
        ),
{
    timestamp::law_prefixed_field_round_trip(presentation, 2);
}

/// A packet whose flag bits announce both timestamps, and that carries the fields
/// of `presentation` and `decoding`, parses to the 33 bits of both, however they
/// relate, and to all the bytes behind the optional header.
pub proof fn law_packet_with_both_timestamps(bytes: Seq<u8>, presentation: int, decoding: int)
    requires
        header_fits(bytes),
        bytes[7] >= 0xC0,
        bytes[8] >= 10,
        bytes.subrange(9, 14) == timestamp::prefixed_field(presentation, 3),
        bytes.subrange(14, 19) == timestamp::prefixed_field(decoding, 1),
    ensures
        packet::parsed(bytes) == Ok::<PesFields, PacketizedElementaryStreamError>(
            PesFields {
                stream_identifier: bytes[3],
                presentation_timestamp_90khz: Some((presentation % 0x2_0000_0000) as u64),
                decoding_timestamp_90khz: Some((decoding % 0x2_0000_0000) as u64),
                elementary_bytes: bytes.subrange(9 + bytes[8], packet::packet_end(bytes)),
            },
        ),
{
    timestamp::law_prefixed_field_round_trip(presentation, 3);
    timestamp::law_prefixed_field_round_trip(decoding, 1);
}

/// Whether the five bytes from `at` on are a timestamp field with `prefix`.
pub open spec fn field_at(bytes: Seq<u8>, at: int, prefix: int) -> bool {
    &&& prefix * 16 <= bytes[at] < prefix * 16 + 16
    &&& bytes[at] as int % 2 == 1
    &&& bytes[at + 2] as int % 2 == 1
    &&& bytes[at + 4] as int % 2 == 1
}

/// Every packet with a start code parses, but for two kinds. Its header is
/// invalid if the six-byte prefix is cut short, the optional header does not fit,
/// a decoding timestamp is announced alone, or there is no room for what is
/// announced. Its timestamps are invalid if an announced field is not one.
pub proof fn law_what_does_not_parse(bytes: Seq<u8>)
    requires
        bytes.len() >= 4,
        bytes[0] == 0,
        bytes[1] == 0,
        bytes[2] == 1,
    ensures
        packet::parsed(bytes) == Err::<PesFields, PacketizedElementaryStreamError>(
            PacketizedElementaryStreamError::InvalidOptionalHeader,
        ) <==> {
            ||| bytes.len() < 6
            ||| bytes[3] != 0xBF && {
                ||| !header_fits(bytes)
                ||| 0x40 <= bytes[7] < 0x80
                ||| 0x80 <= bytes[7] < 0xC0 && bytes[8] < 5
                ||| bytes[7] >= 0xC0 && bytes[8] < 10
            }
        },
        packet::parsed(bytes) == Err::<PesFields, PacketizedElementaryStreamError>(
            PacketizedElementaryStreamError::InvalidTimestamp,
        ) <==> {
            &&& header_fits(bytes)
            &&& {
                ||| 0x80 <= bytes[7] < 0xC0 && bytes[8] >= 5 && !field_at(bytes, 9, 2)
                ||| bytes[7] >= 0xC0 && bytes[8] >= 10 && (!field_at(bytes, 9, 3) || !field_at(
                    bytes,
                    14,
                    1,
                ))
            }
        },
        packet::parsed(bytes) matches Err(error) ==> {
            ||| error == PacketizedElementaryStreamError::InvalidOptionalHeader
            ||| error == PacketizedElementaryStreamError::InvalidTimestamp
        },
{
    let first = bytes.subrange(9, 14);
    let second = bytes.subrange(14, 19);
    if bytes.len() >= 14 {
        assert(first[0] == bytes[9] && first[2] == bytes[11] && first[4] == bytes[13]);
    }
    if bytes.len() >= 19 {
        assert(second[0] == bytes[14] && second[2] == bytes[16] && second[4] == bytes[18]);
    }
}

/// The timestamps of a packet that parses are those of its fields, read in three
/// runs of bits, and what is not announced is not there.
pub proof fn law_timestamps_are_read_from_their_fields(bytes: Seq<u8>)
    requires
        packet::parsed(bytes) is Ok,
        bytes[3] != 0xBF,
    ensures
        ({
            let fields = packet::parsed(bytes)->Ok_0;
            &&& fields.stream_identifier == bytes[3]
            &&& fields.presentation_timestamp_90khz is Some <==> bytes[7] >= 0x80
            &&& fields.decoding_timestamp_90khz is Some <==> bytes[7] >= 0xC0
            &&& fields.presentation_timestamp_90khz matches Some(ticks) ==> {
                &&& ticks as int / 0x4000_0000 == bytes[9] as int / 2 % 8
                &&& ticks as int / 0x8000 % 0x8000 == bytes[10] * 128 + bytes[11] as int / 2
                &&& ticks as int % 0x8000 == bytes[12] * 128 + bytes[13] as int / 2
            }
            &&& fields.decoding_timestamp_90khz matches Some(ticks) ==> {
                &&& ticks as int / 0x4000_0000 == bytes[14] as int / 2 % 8
                &&& ticks as int / 0x8000 % 0x8000 == bytes[15] * 128 + bytes[16] as int / 2
                &&& ticks as int % 0x8000 == bytes[17] * 128 + bytes[18] as int / 2
            }
            &&& fields.elementary_bytes == bytes.subrange(
                9 + bytes[8],
                packet::packet_end(bytes),
            )
        }),
{
    timestamp::law_field_value_in_runs(bytes.subrange(9, 14));
    timestamp::law_field_value_in_runs(bytes.subrange(14, 19));
}

} // verus!
