//! Borrowed views of transport packets and of PES packets, and their parsers.

use vstd::prelude::*;
use vstd::slice::slice_subrange;

use crate::pes::timestamp;
use crate::pes::timestamp::parse_timestamp;
use crate::pes::{PacketizedElementaryStreamError, PesResult};
use crate::ts;
use crate::ts::header;
use crate::ts::{PacketFields, TransportStreamPacket};

verus! {

/// Borrowed header and payload view of one 188-byte transport packet.
///
/// This is the zero-allocation entry point for feed-driven routing. Invalid
/// sync, reserved adaptation control, or impossible adaptation geometry yield
/// no view; transport-error and scrambling bits remain present for the
/// assembler to report.
#[derive(Debug, Clone, Copy, PartialEq, Eq)]
pub struct TransportStreamPacketView<'a> {
    pub transport_error_indicator: bool,
    pub payload_unit_start_indicator: bool,
    pub packet_identifier: u16,
    pub scrambling_control: u8,
    pub continuity_counter: u8,
    pub has_payload: bool,
    pub payload: &'a [u8],
}

/// What reassembly looks at in a transport packet.
#[verifier::ext_equal]
pub struct UnitInput {
    pub transport_error_indicator: bool,
    pub payload_unit_start_indicator: bool,
    pub packet_identifier: u16,
    pub scrambling_control: u8,
    pub continuity_counter: u8,
    pub has_payload: bool,
    pub payload: Seq<u8>,
}

impl<'a> View for TransportStreamPacketView<'a> {
    type V = UnitInput;

    open spec fn view(&self) -> UnitInput {
        UnitInput {
            transport_error_indicator: self.transport_error_indicator,
            payload_unit_start_indicator: self.payload_unit_start_indicator,
            packet_identifier: self.packet_identifier,
            scrambling_control: self.scrambling_control,
            continuity_counter: self.continuity_counter,
            has_payload: self.has_payload,
            payload: self.payload@,
        }
    }
}

/// The part of a decoded packet that reassembly looks at.
pub open spec fn unit_input(fields: PacketFields) -> UnitInput {
    UnitInput {
        transport_error_indicator: fields.transport_error_indicator,
        payload_unit_start_indicator: fields.payload_unit_start_indicator,
        packet_identifier: fields.packet_identifier,
        scrambling_control: fields.scrambling_control,
        continuity_counter: fields.continuity_counter,
        has_payload: fields.has_payload,
        payload: fields.payload,
    }
}

/// Parses the borrowed fields that routing needs, without allocating a payload
/// vector. It accepts exactly what [`TransportStreamPacket::parse`] accepts and
/// reads the same fields.
pub fn transport_stream_packet_view(packet: &[u8]) -> (view: Option<TransportStreamPacketView<'_>>)
    ensures
        match view {
            Some(view) => ts::packet_defect(packet@) is None && view@ == unit_input(
                ts::packet_fields(packet@),
            ),
            None => ts::packet_defect(packet@) is Some,
        },
{
    if packet.len() != TransportStreamPacket::BYTE_COUNT || packet[0]
        != TransportStreamPacket::SYNC_BYTE {
        return None;
    }
    proof {
        header::lemma_header_bits(packet[1], packet[2], packet[3]);
    }
    let adaptation_field_control: u8 = (packet[3] >> 4) & 0x03;
    if adaptation_field_control == 0 {
        return None;
    }
    let has_adaptation_field: bool = adaptation_field_control & 0x02 != 0;
    let has_payload: bool = adaptation_field_control & 0x01 != 0;
    let mut payload_offset: usize = 4;
    if has_adaptation_field {
        payload_offset = 5 + packet[4] as usize;
        if payload_offset > packet.len() {
            return None;
        }
    }
    let payload: &[u8] = if has_payload {
        slice_subrange(packet, payload_offset, packet.len())
    } else {
        slice_subrange(packet, 0, 0)
    };
    let view = TransportStreamPacketView {
        transport_error_indicator: packet[1] & 0x80 != 0,
        payload_unit_start_indicator: packet[1] & 0x40 != 0,
        packet_identifier: (((packet[1] & 0x1F) as u16) << 8) | (packet[2] as u16),
        scrambling_control: packet[3] >> 6,
        continuity_counter: packet[3] & 0x0F,
        has_payload,
        payload,
    };
    assert(view@ =~= unit_input(ts::packet_fields(packet@)));
    Some(view)
}

/// One reassembled PES packet.
#[derive(Debug, Clone, PartialEq, Eq)]
pub struct PacketizedElementaryStream {
    pub packet_identifier: u16,
    pub stream_identifier: u8,
    pub presentation_timestamp_90khz: Option<u64>,
    pub decoding_timestamp_90khz: Option<u64>,
    pub elementary_bytes: Vec<u8>,
}

/// A reassembled PES packet with its payload as a sequence.
#[verifier::ext_equal]
pub struct PesUnit {
    pub packet_identifier: u16,
    pub stream_identifier: u8,
    pub presentation_timestamp_90khz: Option<u64>,
    pub decoding_timestamp_90khz: Option<u64>,
    pub elementary_bytes: Seq<u8>,
}

impl View for PacketizedElementaryStream {
    type V = PesUnit;

    open spec fn view(&self) -> PesUnit {
        PesUnit {
            packet_identifier: self.packet_identifier,
            stream_identifier: self.stream_identifier,
            presentation_timestamp_90khz: self.presentation_timestamp_90khz,
            decoding_timestamp_90khz: self.decoding_timestamp_90khz,
            elementary_bytes: self.elementary_bytes@,
        }
    }
}

impl PacketizedElementaryStream {
    pub fn payload_byte_count(&self) -> (count: usize)
        ensures
            count == self@.elementary_bytes.len(),
    {
        self.elementary_bytes.len()
    }
}

/// Borrowed view of one PES header and the elementary bytes currently present.
///
/// For a bounded PES supplied as only its unit-start transport payload, the
/// elementary slice ends at the supplied bytes. Once an assembler supplies the
/// complete PES, the same parser yields the complete elementary payload.
#[derive(Debug, Clone, Copy, PartialEq, Eq)]
pub struct PacketizedElementaryStreamView<'a> {
    pub stream_identifier: u8,
    pub presentation_timestamp_90khz: Option<u64>,
    pub decoding_timestamp_90khz: Option<u64>,
    pub elementary_bytes: &'a [u8],
}

/// A parsed PES header with the elementary bytes as a sequence.
#[verifier::ext_equal]
pub struct PesFields {
    pub stream_identifier: u8,
    pub presentation_timestamp_90khz: Option<u64>,
    pub decoding_timestamp_90khz: Option<u64>,
    pub elementary_bytes: Seq<u8>,
}

impl<'a> View for PacketizedElementaryStreamView<'a> {
    type V = PesFields;

    open spec fn view(&self) -> PesFields {
        PesFields {
            stream_identifier: self.stream_identifier,
            presentation_timestamp_90khz: self.presentation_timestamp_90khz,
            decoding_timestamp_90khz: self.decoding_timestamp_90khz,
            elementary_bytes: self.elementary_bytes@,
        }
    }
}

/// The stream identifier of private stream 2, whose packets have no optional
/// header.
pub const PRIVATE_STREAM_2: u8 = 0xBF;

/// Whether the start-code prefix 00 00 01 and a stream identifier are there.
pub open spec fn has_start_code(bytes: Seq<u8>) -> bool {
    bytes.len() >= 4 && bytes[0] == 0 && bytes[1] == 0 && bytes[2] == 1
}

/// The declared length: how many bytes follow the six-byte prefix; zero leaves
/// it open.
pub open spec fn declared_length(bytes: Seq<u8>) -> int {
    bytes[4] * 256 + bytes[5]
}

/// Where the packet ends in `bytes`: where it declares to, but not behind the
/// bytes that are there.
pub open spec fn packet_end(bytes: Seq<u8>) -> int {
    if declared_length(bytes) == 0 || 6 + declared_length(bytes) > bytes.len() {
        bytes.len() as int
    } else {
        6 + declared_length(bytes)
    }
}

/// The timestamps that the optional header of `bytes` carries, by its two flag
/// bits: none, a presentation timestamp, or that and a decoding timestamp.
pub open spec fn optional_timestamps(bytes: Seq<u8>) -> PesResult<(Option<u64>, Option<u64>)> {
    let flags = bytes[7] as int / 64;
    let first = bytes.subrange(9, 14);
    let second = bytes.subrange(14, 19);
    if flags == 0 {
        Ok((None, None))
    } else if flags == 1 || (flags == 2 && bytes[8] < 5) || (flags == 3 && bytes[8] < 10) {
        Err(PacketizedElementaryStreamError::InvalidOptionalHeader)
    } else if flags == 2 && timestamp::is_field(first, 2) {
        Ok((Some(timestamp::field_value(first) as u64), None))
    } else if flags == 3 && timestamp::is_field(first, 3) && timestamp::is_field(second, 1) {
        Ok(
            (
                Some(timestamp::field_value(first) as u64),
                Some(timestamp::field_value(second) as u64),
            ),
        )
    } else {
        Err(PacketizedElementaryStreamError::InvalidTimestamp)
    }
}

/// What `bytes` parse to as a PES packet.
pub open spec fn parsed(bytes: Seq<u8>) -> PesResult<PesFields> {
    if !has_start_code(bytes) {
        Err(PacketizedElementaryStreamError::InvalidStartCodePrefix)
    } else if bytes.len() < 6 {
        Err(PacketizedElementaryStreamError::InvalidOptionalHeader)
    } else if bytes[3] == PRIVATE_STREAM_2 {
        Ok(
            PesFields {
                stream_identifier: bytes[3],
                presentation_timestamp_90khz: None,
                decoding_timestamp_90khz: None,
                elementary_bytes: bytes.subrange(6, packet_end(bytes)),
            },
        )
    } else if bytes.len() < 9 || bytes[6] as int / 64 != 2 || 9 + bytes[8] > packet_end(bytes) {
        Err(PacketizedElementaryStreamError::InvalidOptionalHeader)
    } else {
        match optional_timestamps(bytes) {
            Ok((presentation, decoding)) => Ok(
                PesFields {
                    stream_identifier: bytes[3],
                    presentation_timestamp_90khz: presentation,
                    decoding_timestamp_90khz: decoding,
                    elementary_bytes: bytes.subrange(9 + bytes[8], packet_end(bytes)),
                },
            ),
            Err(error) => Err(error),
        }
    }
}

/// Reads only the start-code prefix and the stream identifier.
///
/// Kept separate from full optional-header parsing so hot paths that only ask
/// whether a payload begins a video PES need inspect four bytes.
pub fn packetized_elementary_stream_identifier(bytes: &[u8]) -> (identifier: PesResult<u8>)
    ensures
        match identifier {
            Ok(identifier) => has_start_code(bytes@) && identifier == bytes@[3],
            Err(error) => !has_start_code(bytes@) && error
                == PacketizedElementaryStreamError::InvalidStartCodePrefix,
        },
{
    if bytes.len() < 4 || bytes[0] != 0 || bytes[1] != 0 || bytes[2] != 1 {
        return Err(PacketizedElementaryStreamError::InvalidStartCodePrefix);
    }
    Ok(bytes[3])
}

/// Parses a PES optional header and returns a borrowed elementary-payload view.
pub fn parse_packetized_elementary_stream(bytes: &[u8]) -> (view: PesResult<
    PacketizedElementaryStreamView<'_>,
>)
    ensures
        match view {
            Ok(view) => parsed(bytes@) == Ok::<PesFields, PacketizedElementaryStreamError>(view@),
            Err(error) => parsed(bytes@) == Err::<PesFields, PacketizedElementaryStreamError>(
                error,
            ),
        },
{
    let stream_identifier: u8 = packetized_elementary_stream_identifier(bytes)?;
    if bytes.len() < 6 {
        return Err(PacketizedElementaryStreamError::InvalidOptionalHeader);
    }
    let declared_packet_length: usize = bytes[4] as usize * 256 + bytes[5] as usize;
    let end: usize = if declared_packet_length == 0 || 6 + declared_packet_length > bytes.len() {
        bytes.len()
    } else {
        6 + declared_packet_length
    };
    if stream_identifier == PRIVATE_STREAM_2 {
        return Ok(
            PacketizedElementaryStreamView {
                stream_identifier,
                presentation_timestamp_90khz: None,
                decoding_timestamp_90khz: None,
                elementary_bytes: slice_subrange(bytes, 6, end),
            },
        );
    }
    if bytes.len() < 9 || bytes[6] / 64 != 2 {
        return Err(PacketizedElementaryStreamError::InvalidOptionalHeader);
    }
    let optional_header_byte_count: usize = bytes[8] as usize;
    let payload_offset: usize = 9 + optional_header_byte_count;
    if payload_offset > end {
        return Err(PacketizedElementaryStreamError::InvalidOptionalHeader);
    }
    let flags: u8 = bytes[7] / 64;
    let mut presentation_timestamp: Option<u64> = None;
    let mut decoding_timestamp: Option<u64> = None;
    if flags == 1 {
        return Err(PacketizedElementaryStreamError::InvalidOptionalHeader);
    } else if flags == 2 {
        if optional_header_byte_count < 5 {
            return Err(PacketizedElementaryStreamError::InvalidOptionalHeader);
        }
        presentation_timestamp = Some(parse_timestamp(slice_subrange(bytes, 9, 14), 2)?);
    } else if flags == 3 {
        if optional_header_byte_count < 10 {
            return Err(PacketizedElementaryStreamError::InvalidOptionalHeader);
        }
        presentation_timestamp = Some(parse_timestamp(slice_subrange(bytes, 9, 14), 3)?);
        decoding_timestamp = Some(parse_timestamp(slice_subrange(bytes, 14, 19), 1)?);
    }
    Ok(
        PacketizedElementaryStreamView {
            stream_identifier,
            presentation_timestamp_90khz: presentation_timestamp,
            decoding_timestamp_90khz: decoding_timestamp,
            elementary_bytes: slice_subrange(bytes, payload_offset, end),
        },
    )
}

/// Where the elementary bytes begin: behind the six-byte prefix, and behind the
/// optional header where there is one.
pub open spec fn header_end(bytes: Seq<u8>) -> int {
    if bytes[3] == PRIVATE_STREAM_2 {
        6
    } else {
        9 + bytes[8]
    }
}

/// A packet that is cut off behind its header parses to the same header, and to
/// as many of its elementary bytes as are left.
pub proof fn law_truncation_keeps_the_header(bytes: Seq<u8>, count: int)
    requires
        parsed(bytes) is Ok,
        header_end(bytes) <= count <= bytes.len(),
    ensures
        ({
            let whole = parsed(bytes)->Ok_0;
            let kept = if count <= packet_end(bytes) {
                count - header_end(bytes)
            } else {
                whole.elementary_bytes.len() as int
            };
            parsed(bytes.take(count)) == Ok::<PesFields, PacketizedElementaryStreamError>(
                PesFields { elementary_bytes: whole.elementary_bytes.take(kept), ..whole },
            )
        }),
{
    let cut = bytes.take(count);
    let whole = parsed(bytes)->Ok_0;
    let kept = if count <= packet_end(bytes) {
        count - header_end(bytes)
    } else {
        whole.elementary_bytes.len() as int
    };
    assert(declared_length(cut) == declared_length(bytes));
    if bytes[3] != PRIVATE_STREAM_2 {
        assert(bytes.take(9 + bytes[8]) =~= cut.take(9 + bytes[8]));
        lemma_same_timestamps(bytes, cut);
    }
    assert(cut.subrange(header_end(bytes), packet_end(cut)) =~= whole.elementary_bytes.take(kept));
}

/// Packets that agree as far as their optional header goes carry the same
/// timestamps.
proof fn lemma_same_timestamps(a: Seq<u8>, b: Seq<u8>)
    requires
        a.len() >= 9,
        9 + a[8] <= a.len(),
        9 + a[8] <= b.len(),
        a.take(9 + a[8]) == b.take(9 + a[8]),
    ensures
        optional_timestamps(a) == optional_timestamps(b),
{
    let count = 9 + a[8];
    assert forall|i: int| 0 <= i < count implies a[i] == b[i] by {
        assert(a.take(count)[i] == b.take(count)[i]);
    }
    if a[8] >= 5 {
        assert(a.subrange(9, 14) =~= b.subrange(9, 14));
    }
    if a[8] >= 10 {
        assert(a.subrange(14, 19) =~= b.subrange(14, 19));
    }
}

/// Bytes behind the end that a packet declares have no say in what it parses to.
pub proof fn law_bytes_behind_the_packet_are_ignored(bytes: Seq<u8>, tail: Seq<u8>)
    requires
        bytes.len() >= 6,
        declared_length(bytes) > 0,
        6 + declared_length(bytes) <= bytes.len(),
    ensures
        parsed(bytes + tail) == parsed(bytes),
{
    let longer = bytes + tail;
    assert(declared_length(longer) == declared_length(bytes));
    assert(packet_end(longer) == packet_end(bytes));
    if bytes.len() >= 9 && 9 + bytes[8] <= packet_end(bytes) {
        assert(bytes.take(9 + bytes[8]) =~= longer.take(9 + bytes[8]));
        lemma_same_timestamps(bytes, longer);
        assert(longer.subrange(9 + bytes[8], packet_end(bytes)) =~= bytes.subrange(
            9 + bytes[8],
            packet_end(bytes),
        ));
    }
    assert(longer.subrange(6, packet_end(bytes)) =~= bytes.subrange(6, packet_end(bytes)));
}

/// A presentation timestamp that was written into the optional header is what
/// the parse gives back, to its 33 bits, along with all the bytes behind the
/// header.
pub proof fn law_written_timestamp_is_read_back(bytes: Seq<u8>, ticks: int)
    requires
        has_start_code(bytes),
        bytes[3] != PRIVATE_STREAM_2,
        bytes.len() >= 14,
        bytes[6] as int / 64 == 2,
        bytes[7] as int / 64 == 2,
        bytes[8] >= 5,
        9 + bytes[8] <= packet_end(bytes),
        bytes.subrange(9, 14) == timestamp::field_bytes(ticks),
    ensures
        parsed(bytes) == Ok::<PesFields, PacketizedElementaryStreamError>(
            PesFields {
                stream_identifier: bytes[3],
                presentation_timestamp_90khz: Some((ticks % timestamp::PTS_MODULUS as int) as u64),
                decoding_timestamp_90khz: None,
                elementary_bytes: bytes.subrange(9 + bytes[8], packet_end(bytes)),
            },
        ),
{
    timestamp::law_field_round_trip(ticks);
}

} // verus!
