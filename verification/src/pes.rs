//! Packetized elementary stream (PES) reassembly.

use vstd::prelude::*;

pub mod assembler;
pub mod demux;
pub mod feed;
pub mod laws;
pub mod packet;
pub mod packet_laws;
pub mod session;
pub mod step_laws;
pub mod timestamp;

pub use assembler::PacketizedElementaryStreamAssembler;
pub use demux::PesDemux;
pub use packet::{
    packetized_elementary_stream_identifier, parse_packetized_elementary_stream,
    transport_stream_packet_view, PacketizedElementaryStream, PacketizedElementaryStreamView,
    TransportStreamPacketView,
};
pub use timestamp::{
    parse_timestamp, pts_field, pts_ticks, pts_to_ms, pts_to_us, signed_pts_delta, ticks_to_ms,
    ticks_to_us, PtsUnwrap, PtsUnwrapOutcome, PTS_HALF_RANGE, PTS_MODULUS, TIMESTAMP_BYTE_COUNT,
};

verus! {

/// Largest length-declared PES packet, its six-byte prefix among it: the
/// declared length is a 16-bit count of the bytes behind the prefix. A smaller
/// cap rejects legal input and a larger one cannot be reached.
pub const DECLARED_LENGTH_MAX_PES: usize = 65_541;

/// Cap for a PES packet that leaves its length open and is ended by the next
/// unit start.
///
/// Only video may do so, and there a packet is one whole access unit, routinely
/// hundreds of kilobytes. The format sets no bound, so this one is a
/// deliberately generous judgement call.
pub const UNBOUNDED_MAX_PES: usize = 4 * 1_024 * 1_024;

#[derive(Debug, Clone, PartialEq, Eq)]
pub enum PacketizedElementaryStreamError {
    TransportError { packet_identifier: u16 },
    ScrambledPacket { packet_identifier: u16 },
    InvalidStartCodePrefix,
    InvalidOptionalHeader,
    InvalidTimestamp,
    PacketTooLarge { maximum: usize, actual: usize },
}

pub type PesResult<T> = Result<T, PacketizedElementaryStreamError>;

} // verus!
