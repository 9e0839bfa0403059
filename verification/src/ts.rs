//! MPEG-2 transport-stream packet parsing and framing.

use vstd::prelude::*;
use vstd::slice::slice_subrange;
use vstd::slice::slice_to_vec;

pub mod framer;
pub mod header;
pub mod laws;

pub use framer::{TransportStreamFramer, TransportStreamFramerError};

verus! {

/// Errors raised while decoding a single 188-byte transport packet.
#[derive(Debug, Clone, PartialEq, Eq)]
pub enum TransportStreamPacketError {
    InvalidPacketLength(usize),
    InvalidSyncByte(u8),
    ReservedAdaptationFieldControl,
    AdaptationFieldTooLarge(usize),
}

/// A decoded transport-stream packet header plus its payload bytes.
#[derive(Debug, Clone, PartialEq, Eq)]
pub struct TransportStreamPacket {
    pub transport_error_indicator: bool,
    pub payload_unit_start_indicator: bool,
    pub transport_priority: bool,
    pub packet_identifier: u16,
    pub scrambling_control: u8,
    pub continuity_counter: u8,
    pub has_adaptation_field: bool,
    pub has_payload: bool,
    pub payload: Vec<u8>,
}

/// The fields of a decoded packet, with the payload as a sequence.
#[verifier::ext_equal]
pub struct PacketFields {
    pub transport_error_indicator: bool,
    pub payload_unit_start_indicator: bool,
    pub transport_priority: bool,
    pub packet_identifier: u16,
    pub scrambling_control: u8,
    pub continuity_counter: u8,
    pub has_adaptation_field: bool,
    pub has_payload: bool,
    pub payload: Seq<u8>,
}

impl View for TransportStreamPacket {
    type V = PacketFields;

    open spec fn view(&self) -> PacketFields {
        PacketFields {
            transport_error_indicator: self.transport_error_indicator,
            payload_unit_start_indicator: self.payload_unit_start_indicator,
            transport_priority: self.transport_priority,
            packet_identifier: self.packet_identifier,
            scrambling_control: self.scrambling_control,
            continuity_counter: self.continuity_counter,
            has_adaptation_field: self.has_adaptation_field,
            has_payload: self.has_payload,
            payload: self.payload@,
        }
    }
}

/// What is wrong with `bytes` as a transport packet, in the order in which the
/// defects are reported; `None` for a packet that decodes.
pub open spec fn packet_defect(bytes: Seq<u8>) -> Option<TransportStreamPacketError> {
    if bytes.len() != TransportStreamPacket::BYTE_COUNT {
        Some(TransportStreamPacketError::InvalidPacketLength(bytes.len() as usize))
    } else if bytes[0] != TransportStreamPacket::SYNC_BYTE {
        Some(TransportStreamPacketError::InvalidSyncByte(bytes[0]))
    } else if header::adaptation_field_control(bytes) == 0 {
        Some(TransportStreamPacketError::ReservedAdaptationFieldControl)
    } else if header::payload_offset(bytes) > bytes.len() {
        Some(TransportStreamPacketError::AdaptationFieldTooLarge(bytes[4] as usize))
    } else {
        None
    }
}

/// The fields that a packet without a defect decodes to.
pub open spec fn packet_fields(bytes: Seq<u8>) -> PacketFields {
    PacketFields {
        transport_error_indicator: header::transport_error(bytes),
        payload_unit_start_indicator: header::unit_start(bytes),
        transport_priority: header::priority(bytes),
        packet_identifier: header::packet_identifier(bytes) as u16,
        scrambling_control: header::scrambling_control(bytes) as u8,
        continuity_counter: header::continuity_counter(bytes) as u8,
        has_adaptation_field: header::has_adaptation_field(bytes),
        has_payload: header::has_payload(bytes),
        payload: header::payload(bytes),
    }
}

impl TransportStreamPacket {
    pub const BYTE_COUNT: usize = 188;

    pub const SYNC_BYTE: u8 = 0x47;

    /// Decodes one packet. `bytes` must be exactly [`Self::BYTE_COUNT`] long.
    pub fn parse(bytes: &[u8]) -> (packet: Result<Self, TransportStreamPacketError>)
        ensures
            match packet {
                Ok(packet) => packet_defect(bytes@) is None && packet@ == packet_fields(bytes@),
                Err(error) => packet_defect(bytes@) == Some(error),
            },
    {
        if bytes.len() != Self::BYTE_COUNT {
            return Err(TransportStreamPacketError::InvalidPacketLength(bytes.len()));
        }
        if bytes[0] != Self::SYNC_BYTE {
            return Err(TransportStreamPacketError::InvalidSyncByte(bytes[0]));
        }
        proof {
            header::lemma_header_bits(bytes[1], bytes[2], bytes[3]);
        }
        let adaptation_field_control: u8 = (bytes[3] >> 4) & 0x03;
        if adaptation_field_control == 0 {
            return Err(TransportStreamPacketError::ReservedAdaptationFieldControl);
        }
        let has_adaptation_field: bool = adaptation_field_control & 0x02 != 0;
        let has_payload: bool = adaptation_field_control & 0x01 != 0;

        let mut payload_offset: usize = 4;
        if has_adaptation_field {
            let adaptation_field_length: usize = bytes[4] as usize;
            payload_offset = 5 + adaptation_field_length;
            if payload_offset > bytes.len() {
                return Err(
                    TransportStreamPacketError::AdaptationFieldTooLarge(adaptation_field_length),
                );
            }
        }
        let payload: Vec<u8> = if has_payload {
            slice_to_vec(slice_subrange(bytes, payload_offset, bytes.len()))
        } else {
            Vec::new()
        };
        let packet = TransportStreamPacket {
            transport_error_indicator: bytes[1] & 0x80 != 0,
            payload_unit_start_indicator: bytes[1] & 0x40 != 0,
            transport_priority: bytes[1] & 0x20 != 0,
            packet_identifier: (((bytes[1] & 0x1F) as u16) << 8) | (bytes[2] as u16),
            scrambling_control: bytes[3] >> 6,
            continuity_counter: bytes[3] & 0x0F,
            has_adaptation_field,
            has_payload,
            payload,
        };
        assert(packet@ =~= packet_fields(bytes@));
        Ok(packet)
    }
}

} // verus!
