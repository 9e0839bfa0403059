//! Reassembling one packet identifier's PES packets from transport packets.

use vstd::prelude::*;
use vstd::slice::slice_subrange;
use vstd::slice::slice_to_vec;

use crate::pes::packet;
use crate::pes::packet::{
    parse_packetized_elementary_stream, PacketizedElementaryStream, PesUnit,
    TransportStreamPacketView, UnitInput,
};
use crate::pes::{PacketizedElementaryStreamError, PesResult, DECLARED_LENGTH_MAX_PES};
use crate::ts::TransportStreamPacket;

verus! {

/// What an assembler holds.
#[verifier::ext_equal]
pub struct AssemblerState {
    pub packet_identifier: u16,
    /// The bytes of the PES packet in progress.
    pub buffered: Seq<u8>,
    /// The counter of the last packet taken, while the feed is in step.
    pub last_continuity_counter: Option<u8>,
    /// Continuity gaps observed.
    pub continuity_gap_count: u64,
    /// Continuity gaps that discarded a packet in progress.
    pub continuity_drop_count: u64,
    /// The most bytes that a PES packet may have.
    pub maximum: usize,
}

impl AssemblerState {
    /// Nothing buffered, nothing seen.
    pub open spec fn initial(packet_identifier: u16, maximum: usize) -> AssemblerState {
        AssemblerState {
            packet_identifier,
            buffered: Seq::empty(),
            last_continuity_counter: None,
            continuity_gap_count: 0,
            continuity_drop_count: 0,
            maximum,
        }
    }

    /// The state after an error: the packet in progress and the continuity are
    /// forgotten, the counts of gaps and drops stay.
    pub open spec fn after_error(self) -> AssemblerState {
        AssemblerState { buffered: Seq::empty(), last_continuity_counter: None, ..self }
    }

    /// The state with other bytes in progress.
    pub open spec fn holding(self, bytes: Seq<u8>) -> AssemblerState {
        AssemblerState { buffered: bytes, ..self }
    }

    /// The bound on the packet in progress.
    pub open spec fn wf(self) -> bool {
        self.buffered.len() <= self.maximum
    }
}

/// The unit that `bytes` parse to.
pub open spec fn parsed_unit(packet_identifier: u16, bytes: Seq<u8>) -> PesResult<PesUnit> {
    match packet::parsed(bytes) {
        Ok(fields) => Ok(
            PesUnit {
                packet_identifier,
                stream_identifier: fields.stream_identifier,
                presentation_timestamp_90khz: fields.presentation_timestamp_90khz,
                decoding_timestamp_90khz: fields.decoding_timestamp_90khz,
                elementary_bytes: fields.elementary_bytes,
            },
        ),
        Err(error) => Err(error),
    }
}

/// The unit that is complete in `bytes`, if any: one that declares its length
/// once that many bytes are there, one that leaves it open only where the
/// caller knows that it has ended.
pub open spec fn completed_unit(
    packet_identifier: u16,
    bytes: Seq<u8>,
    ended: bool,
) -> PesResult<Option<PesUnit>> {
    if bytes.len() < 6 {
        Ok(None)
    } else {
        let declared = packet::declared_length(bytes);
        if (declared == 0 && !ended) || (declared > 0 && bytes.len() < 6 + declared) {
            Ok(None)
        } else {
            let unit = if declared == 0 {
                bytes
            } else {
                bytes.take(6 + declared)
            };
            match parsed_unit(packet_identifier, unit) {
                Ok(unit) => Ok(Some(unit)),
                Err(error) => Err(error),
            }
        }
    }
}

/// Whether `bytes` can still become a packet that starts with 00 00 01.
pub open spec fn start_code_possible(bytes: Seq<u8>) -> bool {
    &&& bytes.len() >= 1 ==> bytes[0] == 0
    &&& bytes.len() >= 2 ==> bytes[1] == 0
    &&& bytes.len() >= 3 ==> bytes[2] == 1
}

/// The counter that follows `counter`.
pub open spec fn next_counter(counter: u8) -> u8 {
    ((counter + 1) % 16) as u8
}

/// Whether a packet is taken at all: it is for this assembler, it carries
/// payload, and neither of the bits that make it unusable is set.
pub open spec fn is_usable(state: AssemblerState, input: UnitInput) -> bool {
    &&& input.packet_identifier == state.packet_identifier
    &&& !input.transport_error_indicator
    &&& input.scrambling_control == 0
    &&& input.has_payload
}

/// Whether a usable packet repeats the one before it.
pub open spec fn is_duplicate(state: AssemblerState, input: UnitInput) -> bool {
    is_usable(state, input) && state.last_continuity_counter == Some(input.continuity_counter)
}

/// Whether packets were lost before a usable packet.
pub open spec fn continuity_gap(state: AssemblerState, input: UnitInput) -> bool {
    &&& is_usable(state, input)
    &&& state.last_continuity_counter is Some
    &&& input.continuity_counter != state.last_continuity_counter->0
    &&& input.continuity_counter != next_counter(state.last_continuity_counter->0)
}

/// Whether packets were lost before a usable packet while a PES packet was in
/// progress, which is thereby lost too.
pub open spec fn gap_discards(state: AssemblerState, input: UnitInput) -> bool {
    continuity_gap(state, input) && state.buffered.len() > 0
}

/// Whether the counts of gaps and drops can take what a packet does to them.
pub open spec fn can_count(state: AssemblerState, input: UnitInput) -> bool {
    &&& continuity_gap(state, input) ==> state.continuity_gap_count < u64::MAX
    &&& gap_discards(state, input) ==> state.continuity_drop_count < u64::MAX
}

/// The state once a new packet's counter is taken note of: a gap is counted, and
/// the packet in progress is lost and counted as dropped.
pub open spec fn after_continuity(state: AssemblerState, input: UnitInput) -> AssemblerState {
    let gap = continuity_gap(state, input);
    AssemblerState {
        buffered: if gap {
            Seq::empty()
        } else {
            state.buffered
        },
        last_continuity_counter: Some(input.continuity_counter),
        continuity_gap_count: if gap {
            (state.continuity_gap_count + 1) as u64
        } else {
            state.continuity_gap_count
        },
        continuity_drop_count: if gap_discards(state, input) {
            (state.continuity_drop_count + 1) as u64
        } else {
            state.continuity_drop_count
        },
        ..state
    }
}

/// The sum of two lengths, as the errors report it.
pub open spec fn reported_length(a: nat, b: nat) -> usize {
    if a + b <= usize::MAX {
        (a + b) as usize
    } else {
        usize::MAX
    }
}

/// Adding payload to the packet in progress: what is held afterwards, and the
/// unit that this completes.
pub open spec fn extended(state: AssemblerState, payload: Seq<u8>) -> (
    AssemblerState,
    PesResult<Option<PesUnit>>,
) {
    let bytes = state.buffered + payload;
    if bytes.len() > state.maximum {
        (
            state,
            Err(
                PacketizedElementaryStreamError::PacketTooLarge {
                    maximum: state.maximum,
                    actual: reported_length(state.buffered.len(), payload.len()),
                },
            ),
        )
    } else if !start_code_possible(bytes) {
        (state, Err(PacketizedElementaryStreamError::InvalidStartCodePrefix))
    } else {
        match completed_unit(state.packet_identifier, bytes, false) {
            Ok(Some(unit)) => (state.holding(Seq::empty()), Ok(Some(unit))),
            Ok(None) => (state.holding(bytes), Ok(None)),
            Err(error) => (state, Err(error)),
        }
    }
}

/// None or one unit, as a sequence.
pub open spec fn unit_seq(unit: Option<PesUnit>) -> Seq<PesUnit> {
    match unit {
        Some(unit) => seq![unit],
        None => Seq::empty(),
    }
}

/// The outcome of payload that is in step, before an error resets the
/// assembler. A unit start ends whatever is in progress and begins anew; other
/// payload continues what is in progress, if anything is.
pub open spec fn continued(state: AssemblerState, unit_start: bool, payload: Seq<u8>) -> (
    AssemblerState,
    PesResult<Seq<PesUnit>>,
) {
    if unit_start {
        match completed_unit(state.packet_identifier, state.buffered, true) {
            Err(error) => (state, Err(error)),
            Ok(ended) => {
                let (next, begun) = extended(state.holding(Seq::empty()), payload);
                match begun {
                    Ok(begun) => (next, Ok(unit_seq(ended) + unit_seq(begun))),
                    Err(error) => (next, Err(error)),
                }
            },
        }
    } else if state.buffered.len() == 0 {
        (state, Ok(Seq::empty()))
    } else {
        let (next, unit) = extended(state, payload);
        match unit {
            Ok(unit) => (next, Ok(unit_seq(unit))),
            Err(error) => (next, Err(error)),
        }
    }
}

/// The outcome of one transport packet: the state afterwards, and the units it
/// completed or the error it caused. Every error resets the assembler.
pub open spec fn appended(state: AssemblerState, input: UnitInput) -> (
    AssemblerState,
    PesResult<Seq<PesUnit>>,
) {
    let packet_identifier = state.packet_identifier;
    if input.packet_identifier != packet_identifier {
        (state, Ok(Seq::empty()))
    } else if input.transport_error_indicator {
        (
            state.after_error(),
            Err(PacketizedElementaryStreamError::TransportError { packet_identifier }),
        )
    } else if input.scrambling_control != 0 {
        (
            state.after_error(),
            Err(PacketizedElementaryStreamError::ScrambledPacket { packet_identifier }),
        )
    } else if !input.has_payload || is_duplicate(state, input) {
        (state, Ok(Seq::empty()))
    } else {
        let (next, units) = continued(
            after_continuity(state, input),
            input.payload_unit_start_indicator,
            input.payload,
        );
        match units {
            Ok(units) => (next, Ok(units)),
            Err(error) => (next.after_error(), Err(error)),
        }
    }
}

/// The outcome of ending the feed: whatever is in progress, parsed from the
/// bytes received so far.
pub open spec fn flushed(state: AssemblerState) -> PesResult<Option<PesUnit>> {
    if state.buffered.len() == 0 {
        Ok(None)
    } else {
        match parsed_unit(state.packet_identifier, state.buffered) {
            Ok(unit) => Ok(Some(unit)),
            Err(error) => Err(error),
        }
    }
}

/// An error touches nothing but what it resets.
proof fn lemma_errors_keep_the_rest(state: AssemblerState, unit_start: bool, payload: Seq<u8>)
    ensures
        continued(state, unit_start, payload).0.after_error() == state.after_error(),
{
}

/// The counter that follows `counter`.
fn following_counter(counter: u8) -> (following: u8)
    ensures
        following == next_counter(counter),
{
    if counter % 16 == 15 {
        0
    } else {
        counter % 16 + 1
    }
}

/// Reassembled packets as units.
pub open spec fn units_of(streams: Seq<PacketizedElementaryStream>) -> Seq<PesUnit> {
    streams.map_values(|stream: PacketizedElementaryStream| stream@)
}

/// The result of an append, with units for the packets.
pub open spec fn outcome_of(result: PesResult<Vec<PacketizedElementaryStream>>) -> PesResult<
    Seq<PesUnit>,
> {
    match result {
        Ok(streams) => Ok(units_of(streams@)),
        Err(error) => Err(error),
    }
}

/// The unit of a packet, if there is one.
pub open spec fn unit_of(stream: Option<PacketizedElementaryStream>) -> Option<PesUnit> {
    match stream {
        Some(stream) => Some(stream@),
        None => None,
    }
}

/// A result that may hold a packet, with a unit for it.
pub open spec fn optional_unit_of(
    result: PesResult<Option<PacketizedElementaryStream>>,
) -> PesResult<Option<PesUnit>> {
    match result {
        Ok(stream) => Ok(unit_of(stream)),
        Err(error) => Err(error),
    }
}

/// Reassembles one PID's PES packets from a transport-packet feed.
#[derive(Debug)]
pub struct PacketizedElementaryStreamAssembler {
    packet_identifier: u16,
    buffered_bytes: Vec<u8>,
    last_continuity_counter: Option<u8>,
    continuity_gap_count: u64,
    continuity_drop_count: u64,
    maximum_packet_byte_count: usize,
}

impl View for PacketizedElementaryStreamAssembler {
    type V = AssemblerState;

    closed spec fn view(&self) -> AssemblerState {
        AssemblerState {
            packet_identifier: self.packet_identifier,
            buffered: self.buffered_bytes@,
            last_continuity_counter: self.last_continuity_counter,
            continuity_gap_count: self.continuity_gap_count,
            continuity_drop_count: self.continuity_drop_count,
            maximum: self.maximum_packet_byte_count,
        }
    }
}

impl PacketizedElementaryStreamAssembler {
    /// Builds an assembler able to accept every length-declared PES.
    pub fn new(packet_identifier: u16) -> (assembler: Self)
        ensures
            assembler@ == AssemblerState::initial(packet_identifier, DECLARED_LENGTH_MAX_PES),
            assembler@.wf(),
    {
        Self::with_max(packet_identifier, DECLARED_LENGTH_MAX_PES)
    }

    /// Builds an assembler with an explicit per-PES byte limit.
    pub fn with_max(packet_identifier: u16, maximum_packet_byte_count: usize) -> (assembler: Self)
        ensures
            assembler@ == AssemblerState::initial(packet_identifier, maximum_packet_byte_count),
            assembler@.wf(),
    {
        PacketizedElementaryStreamAssembler {
            packet_identifier,
            buffered_bytes: Vec::new(),
            last_continuity_counter: None,
            continuity_gap_count: 0,
            continuity_drop_count: 0,
            maximum_packet_byte_count,
        }
    }

    pub fn packet_identifier(&self) -> (packet_identifier: u16)
        ensures
            packet_identifier == self@.packet_identifier,
    {
        self.packet_identifier
    }

    /// Number of continuity gaps observed, whether or not a PES was in progress.
    pub fn continuity_gap_count(&self) -> (count: u64)
        ensures
            count == self@.continuity_gap_count,
    {
        self.continuity_gap_count
    }

    /// Number of continuity gaps that discarded an in-progress PES.
    pub fn continuity_drop_count(&self) -> (count: u64)
        ensures
            count == self@.continuity_drop_count,
    {
        self.continuity_drop_count
    }

    /// Feeds one transport packet. Any error resets the assembler before it is
    /// returned to the caller.
    pub fn append(&mut self, packet: &TransportStreamPacket) -> (outcome: PesResult<
        Vec<PacketizedElementaryStream>,
    >)
        requires
            can_count(old(self)@, packet::unit_input(packet@)),
        ensures
            (final(self)@, outcome_of(outcome)) == appended(
                old(self)@,
                packet::unit_input(packet@),
            ),
            old(self)@.wf() ==> final(self)@.wf(),
    {
        let view = TransportStreamPacketView {
            transport_error_indicator: packet.transport_error_indicator,
            payload_unit_start_indicator: packet.payload_unit_start_indicator,
            packet_identifier: packet.packet_identifier,
            scrambling_control: packet.scrambling_control,
            continuity_counter: packet.continuity_counter,
            has_payload: packet.has_payload,
            payload: packet.payload.as_slice(),
        };
        assert(view@ =~= packet::unit_input(packet@));
        self.append_view(view)
    }

    /// Finishes the PES currently buffered from the bytes received so far.
    ///
    /// This is for finite feeds whose final PES has no following unit start.
    /// A complete length-declared packet is normally returned by
    /// [`Self::append`] and leaves nothing to flush; an unbounded or truncated
    /// final packet is parsed from the bytes available. Continuity state is
    /// retained so a feed that resumes behaves like one uninterrupted stream.
    pub fn flush(&mut self) -> (outcome: PesResult<Option<PacketizedElementaryStream>>)
        ensures
            optional_unit_of(outcome) == flushed(old(self)@),
            final(self)@ == old(self)@.holding(Seq::empty()),
            final(self)@.wf(),
    {
        let outcome = if self.buffered_bytes.is_empty() {
            Ok(None)
        } else {
            match self.parse_packet(self.buffered_bytes.as_slice()) {
                Ok(stream) => Ok(Some(stream)),
                Err(error) => Err(error),
            }
        };
        self.buffered_bytes.clear();
        outcome
    }

    /// Feeds one borrowed transport packet.
    pub fn append_view(&mut self, packet: TransportStreamPacketView<'_>) -> (outcome: PesResult<
        Vec<PacketizedElementaryStream>,
    >)
        requires
            can_count(old(self)@, packet@),
        ensures
            (final(self)@, outcome_of(outcome)) == appended(old(self)@, packet@),
            old(self)@.wf() ==> final(self)@.wf(),
    {
        if packet.packet_identifier != self.packet_identifier {
            let none: Vec<PacketizedElementaryStream> = Vec::new();
            assert(units_of(none@) =~= Seq::empty());
            return Ok(none);
        }
        let outcome = self.append_validated(packet);
        if outcome.is_err() {
            self.reset();
        }
        outcome
    }

    /// The outcome of a packet for this assembler, before an error resets it.
    fn append_validated(&mut self, packet: TransportStreamPacketView<'_>) -> (outcome: PesResult<
        Vec<PacketizedElementaryStream>,
    >)
        requires
            packet.packet_identifier == old(self)@.packet_identifier,
            can_count(old(self)@, packet@),
        ensures
            outcome_of(outcome) == appended(old(self)@, packet@).1,
            outcome is Ok ==> final(self)@ == appended(old(self)@, packet@).0,
            outcome is Err ==> final(self)@.after_error() == appended(old(self)@, packet@).0,
            old(self)@.wf() ==> final(self)@.wf(),
    {
        let none: Vec<PacketizedElementaryStream> = Vec::new();
        assert(units_of(none@) =~= Seq::empty());
        if packet.transport_error_indicator {
            return Err(
                PacketizedElementaryStreamError::TransportError {
                    packet_identifier: self.packet_identifier,
                },
            );
        }
        if packet.scrambling_control != 0 {
            return Err(
                PacketizedElementaryStreamError::ScrambledPacket {
                    packet_identifier: self.packet_identifier,
                },
            );
        }
        if !packet.has_payload {
            return Ok(none);
        }
        if let Some(last) = self.last_continuity_counter {
            if packet.continuity_counter == last {
                return Ok(none);
            }
            if packet.continuity_counter != following_counter(last) {
                self.continuity_gap_count = self.continuity_gap_count + 1;
                if !self.buffered_bytes.is_empty() {
                    self.continuity_drop_count = self.continuity_drop_count + 1;
                }
                self.buffered_bytes.clear();
            }
        }
        self.last_continuity_counter = Some(packet.continuity_counter);
        assert(self@ =~= after_continuity(old(self)@, packet@));

        proof {
            lemma_errors_keep_the_rest(
                self@,
                packet.payload_unit_start_indicator,
                packet.payload@,
            );
        }
        self.continue_packet(packet.payload_unit_start_indicator, packet.payload)
    }

    /// Takes payload that is in step. On an error the buffer is left for the
    /// caller to reset.
    fn continue_packet(&mut self, unit_start: bool, payload: &[u8]) -> (outcome: PesResult<
        Vec<PacketizedElementaryStream>,
    >)
        ensures
            outcome_of(outcome) == continued(old(self)@, unit_start, payload@).1,
            outcome is Ok ==> final(self)@ == continued(old(self)@, unit_start, payload@).0,
            outcome is Err ==> final(self)@.after_error() == old(self)@.after_error(),
            old(self)@.wf() ==> final(self)@.wf(),
    {
        if unit_start {
            // A packet that leaves its length open only ends here.
            let ended = self.complete_buffered_packet(true)?;
            self.buffered_bytes.clear();
            assert(self@ =~= old(self)@.holding(Seq::empty()));
            let begun = self.extend_packet(payload)?;
            Ok(Self::collect(ended, begun))
        } else if self.buffered_bytes.is_empty() {
            let none: Vec<PacketizedElementaryStream> = Vec::new();
            assert(units_of(none@) =~= Seq::empty());
            Ok(none)
        } else {
            let finished = self.extend_packet(payload)?;
            Ok(Self::collect(None, finished))
        }
    }

    /// The packets that are there, in order.
    fn collect(
        first: Option<PacketizedElementaryStream>,
        second: Option<PacketizedElementaryStream>,
    ) -> (streams: Vec<PacketizedElementaryStream>)
        ensures
            units_of(streams@) == unit_seq(unit_of(first)) + unit_seq(unit_of(second)),
    {
        let mut streams: Vec<PacketizedElementaryStream> = Vec::new();
        let ghost expected = unit_seq(unit_of(first)) + unit_seq(unit_of(second));
        if let Some(stream) = first {
            streams.push(stream);
        }
        if let Some(stream) = second {
            streams.push(stream);
        }
        assert(units_of(streams@) =~= expected);
        streams
    }

    /// Adds payload to the packet in progress and returns it once complete. On
    /// an error the buffer is left for the caller to reset.
    fn extend_packet(&mut self, payload: &[u8]) -> (outcome: PesResult<
        Option<PacketizedElementaryStream>,
    >)
        ensures
            optional_unit_of(outcome) == extended(old(self)@, payload@).1,
            outcome is Ok ==> final(self)@ == extended(old(self)@, payload@).0,
            outcome is Err ==> final(self)@.after_error() == old(self)@.after_error(),
            old(self)@.wf() ==> final(self)@.wf(),
    {
        self.append_bounded(payload)?;
        self.validate_start_code_prefix()?;
        let finished = self.complete_buffered_packet(false)?;
        if finished.is_some() {
            self.buffered_bytes.clear();
            assert(self@ =~= old(self)@.holding(Seq::empty()));
        }
        Ok(finished)
    }

    /// Adds payload to the packet in progress, up to the limit.
    fn append_bounded(&mut self, bytes: &[u8]) -> (outcome: PesResult<()>)
        ensures
            match outcome {
                Ok(_) => {
                    &&& (old(self)@.buffered + bytes@).len() <= old(self)@.maximum
                    &&& final(self)@ == old(self)@.holding(old(self)@.buffered + bytes@)
                },
                Err(error) => {
                    &&& (old(self)@.buffered + bytes@).len() > old(self)@.maximum
                    &&& error == PacketizedElementaryStreamError::PacketTooLarge {
                        maximum: old(self)@.maximum,
                        actual: reported_length(old(self)@.buffered.len(), bytes@.len()),
                    }
                    &&& final(self)@ == old(self)@
                },
            },
    {
        let actual: usize = self.buffered_bytes.len().saturating_add(bytes.len());
        if bytes.len() > self.maximum_packet_byte_count || self.buffered_bytes.len()
            > self.maximum_packet_byte_count - bytes.len() {
            return Err(
                PacketizedElementaryStreamError::PacketTooLarge {
                    maximum: self.maximum_packet_byte_count,
                    actual,
                },
            );
        }
        self.buffered_bytes.extend_from_slice(bytes);
        assert(self@.buffered =~= old(self)@.buffered + bytes@);
        Ok(())
    }

    /// Rejects a buffer as soon as it cannot become a 00 00 01 start code,
    /// without waiting for all three bytes to arrive.
    fn validate_start_code_prefix(&self) -> (outcome: PesResult<()>)
        ensures
            match outcome {
                Ok(_) => start_code_possible(self@.buffered),
                Err(error) => !start_code_possible(self@.buffered) && error
                    == PacketizedElementaryStreamError::InvalidStartCodePrefix,
            },
    {
        let buffered = &self.buffered_bytes;
        let invalid: bool = (buffered.len() >= 1 && buffered[0] != 0) || (buffered.len() >= 2
            && buffered[1] != 0) || (buffered.len() >= 3 && buffered[2] != 1);
        if invalid {
            return Err(PacketizedElementaryStreamError::InvalidStartCodePrefix);
        }
        Ok(())
    }

    /// The packet that is complete in the buffer, if any.
    fn complete_buffered_packet(&self, allowing_unbounded_length: bool) -> (outcome: PesResult<
        Option<PacketizedElementaryStream>,
    >)
        ensures
            optional_unit_of(outcome) == completed_unit(
                self@.packet_identifier,
                self@.buffered,
                allowing_unbounded_length,
            ),
    {
        let buffered: &[u8] = self.buffered_bytes.as_slice();
        if buffered.len() < 6 {
            return Ok(None);
        }
        let declared_packet_length: usize = buffered[4] as usize * 256 + buffered[5] as usize;
        if declared_packet_length == 0 {
            if !allowing_unbounded_length {
                return Ok(None);
            }
            return match self.parse_packet(buffered) {
                Ok(stream) => Ok(Some(stream)),
                Err(error) => Err(error),
            };
        }
        let total_packet_byte_count: usize = 6 + declared_packet_length;
        if buffered.len() < total_packet_byte_count {
            return Ok(None);
        }
        assert(buffered@.subrange(0, total_packet_byte_count as int) =~= buffered@.take(
            total_packet_byte_count as int,
        ));
        match self.parse_packet(slice_subrange(buffered, 0, total_packet_byte_count)) {
            Ok(stream) => Ok(Some(stream)),
            Err(error) => Err(error),
        }
    }

    /// The packet that `bytes` parse to, with this assembler's identifier.
    fn parse_packet(&self, bytes: &[u8]) -> (outcome: PesResult<PacketizedElementaryStream>)
        ensures
            match outcome {
                Ok(stream) => parsed_unit(self@.packet_identifier, bytes@) == Ok::<
                    PesUnit,
                    PacketizedElementaryStreamError,
                >(stream@),
                Err(error) => parsed_unit(self@.packet_identifier, bytes@) == Err::<
                    PesUnit,
                    PacketizedElementaryStreamError,
                >(error),
            },
    {
        let parsed = parse_packetized_elementary_stream(bytes)?;
        Ok(
            PacketizedElementaryStream {
                packet_identifier: self.packet_identifier,
                stream_identifier: parsed.stream_identifier,
                presentation_timestamp_90khz: parsed.presentation_timestamp_90khz,
                decoding_timestamp_90khz: parsed.decoding_timestamp_90khz,
                elementary_bytes: slice_to_vec(parsed.elementary_bytes),
            },
        )
    }

    /// Forgets the packet in progress and the continuity.
    fn reset(&mut self)
        ensures
            final(self)@ == old(self)@.after_error(),
    {
        self.buffered_bytes.clear();
        self.last_continuity_counter = None;
    }
}

} // verus!
