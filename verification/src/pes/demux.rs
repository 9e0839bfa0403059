//! Routing transport packets to one assembler per watched packet identifier.

use std::collections::HashMap;

use vstd::prelude::*;

use crate::pes::assembler;
use crate::pes::assembler::{AssemblerState, PacketizedElementaryStreamAssembler};
use crate::pes::packet;
use crate::pes::packet::{
    transport_stream_packet_view, PacketizedElementaryStream, PesUnit, TransportStreamPacketView,
    UnitInput,
};
use crate::pes::timestamp;
use crate::pes::timestamp::{ClockReading, PtsUnwrap};
use crate::pes::{PacketizedElementaryStreamError, PesResult, DECLARED_LENGTH_MAX_PES};
use crate::ts;
use crate::ts::{TransportStreamPacket, TransportStreamPacketError};

verus! {

/// What a router holds for one watched identifier.
#[verifier::ext_equal]
pub struct StreamState {
    pub assembler: AssemblerState,
    /// The last timestamp on the identifier's continuous timeline.
    pub clock: Option<ClockReading>,
}

/// What a router holds.
#[verifier::ext_equal]
pub struct DemuxState {
    pub streams: Map<u16, StreamState>,
    /// The most bytes that a PES packet may have.
    pub maximum: usize,
}

impl DemuxState {
    /// Nothing watched.
    pub open spec fn initial(maximum: usize) -> DemuxState {
        DemuxState { streams: Map::empty(), maximum }
    }

    /// Every assembler is the one for its identifier, has the router's limit and
    /// keeps to it.
    pub open spec fn wf(self) -> bool {
        forall|packet_identifier: u16| #[trigger]
            self.streams.contains_key(packet_identifier) ==> {
                let held = self.streams[packet_identifier].assembler;
                &&& held.packet_identifier == packet_identifier
                &&& held.maximum == self.maximum
                &&& held.wf()
            }
    }

    /// The state with other contents for one identifier.
    pub open spec fn with_stream(self, packet_identifier: u16, stream: StreamState) -> DemuxState {
        DemuxState { streams: self.streams.insert(packet_identifier, stream), ..self }
    }
}

/// The state once `packet_identifier` is watched: one that is watched already
/// keeps all it has.
pub open spec fn watched(state: DemuxState, packet_identifier: u16) -> DemuxState {
    if state.streams.contains_key(packet_identifier) {
        state
    } else {
        state.with_stream(
            packet_identifier,
            StreamState {
                assembler: AssemblerState::initial(packet_identifier, state.maximum),
                clock: None,
            },
        )
    }
}

/// Units with their presentation timestamps put onto the continuous timeline
/// one after the other, and where the timeline then is.
pub open spec fn timed(clock: Option<ClockReading>, units: Seq<PesUnit>) -> (
    Option<ClockReading>,
    Seq<PesUnit>,
)
    decreases units.len(),
{
    if units.len() == 0 {
        (clock, Seq::empty())
    } else {
        let (before, earlier) = timed(clock, units.drop_last());
        let unit = units.last();
        match unit.presentation_timestamp_90khz {
            None => (before, earlier.push(unit)),
            Some(raw) => (
                Some(timestamp::next_reading(before, raw)),
                earlier.push(
                    PesUnit {
                        presentation_timestamp_90khz: Some(
                            timestamp::unwrap_outcome(before, raw).ticks,
                        ),
                        ..unit
                    },
                ),
            ),
        }
    }
}

/// The outcome of one transport packet: nothing for an identifier that is not
/// watched, and else what its assembler makes of it, with the timestamps on the
/// identifier's timeline. An error leaves the timeline alone.
pub open spec fn routed(state: DemuxState, input: UnitInput) -> (
    DemuxState,
    PesResult<Seq<PesUnit>>,
) {
    let packet_identifier = input.packet_identifier;
    if !state.streams.contains_key(packet_identifier) {
        (state, Ok(Seq::empty()))
    } else {
        let stream = state.streams[packet_identifier];
        let (next, units) = assembler::appended(stream.assembler, input);
        match units {
            Err(error) => (
                state.with_stream(
                    packet_identifier,
                    StreamState { assembler: next, clock: stream.clock },
                ),
                Err(error),
            ),
            Ok(units) => {
                let (clock, units) = timed(stream.clock, units);
                (
                    state.with_stream(packet_identifier, StreamState { assembler: next, clock }),
                    Ok(units),
                )
            },
        }
    }
}

/// The outcome of one raw packet: nothing for one that cannot be decoded.
pub open spec fn pushed(state: DemuxState, bytes: Seq<u8>) -> (
    DemuxState,
    PesResult<Seq<PesUnit>>,
) {
    if ts::packet_defect(bytes) is Some {
        (state, Ok(Seq::empty()))
    } else {
        routed(state, packet::unit_input(ts::packet_fields(bytes)))
    }
}

/// Whether the counts that the packet's identifier has can take what the packet
/// does to them.
pub open spec fn can_count(state: DemuxState, input: UnitInput) -> bool {
    state.streams.contains_key(input.packet_identifier) ==> assembler::can_count(
        state.streams[input.packet_identifier].assembler,
        input,
    )
}

/// One watched identifier.
#[derive(Debug)]
struct WatchedStream {
    assembler: PacketizedElementaryStreamAssembler,
    clock: PtsUnwrap,
}

impl View for WatchedStream {
    type V = StreamState;

    closed spec fn view(&self) -> StreamState {
        StreamState { assembler: self.assembler@, clock: self.clock@ }
    }
}

/// Feed-driven PES router over whole 188-byte transport packets.
///
/// Only packet identifiers registered with [`Self::watch`] are assembled. Each
/// one has an assembler and a timestamp clock of its own, so a continuity break
/// on one elementary stream cannot disturb another. Errors stay distinguishable
/// through [`PesResult`].
#[derive(Debug)]
pub struct PesDemux {
    streams: HashMap<u16, WatchedStream>,
    maximum_packet_byte_count: usize,
}

impl View for PesDemux {
    type V = DemuxState;

    closed spec fn view(&self) -> DemuxState {
        DemuxState {
            streams: self.streams@.map_values(|stream: WatchedStream| stream@),
            maximum: self.maximum_packet_byte_count,
        }
    }
}

impl PesDemux {
    /// Builds a router able to accept every length-declared PES.
    pub fn new() -> (demux: Self)
        ensures
            demux@ == DemuxState::initial(DECLARED_LENGTH_MAX_PES),
            demux@.wf(),
    {
        Self::with_max(DECLARED_LENGTH_MAX_PES)
    }

    /// Builds a router whose watched identifiers all use the given per-PES cap.
    pub fn with_max(maximum_packet_byte_count: usize) -> (demux: Self)
        ensures
            demux@ == DemuxState::initial(maximum_packet_byte_count),
            demux@.wf(),
    {
        let demux = PesDemux { streams: HashMap::new(), maximum_packet_byte_count };
        assert(demux@ =~= DemuxState::initial(maximum_packet_byte_count));
        demux
    }

    /// Starts assembling `packet_identifier`.
    ///
    /// Idempotent: a repeating program map may rediscover the same identifier
    /// without resetting its in-progress PES or its unwrapped clock.
    pub fn watch(&mut self, packet_identifier: u16)
        ensures
            final(self)@ == watched(old(self)@, packet_identifier),
            old(self)@.wf() ==> final(self)@.wf(),
    {
        broadcast use vstd::std_specs::hash::group_hash_axioms;

        if !self.streams.contains_key(&packet_identifier) {
            let stream = WatchedStream {
                assembler: PacketizedElementaryStreamAssembler::with_max(
                    packet_identifier,
                    self.maximum_packet_byte_count,
                ),
                clock: PtsUnwrap::default(),
            };
            self.streams.insert(packet_identifier, stream);
            assert(self@.streams =~= watched(old(self)@, packet_identifier).streams);
        }
    }

    /// Whether `packet_identifier` is currently being assembled.
    pub fn watching(&self, packet_identifier: u16) -> (watching: bool)
        ensures
            watching == self@.streams.contains_key(packet_identifier),
    {
        broadcast use vstd::std_specs::hash::group_hash_axioms;

        self.streams.contains_key(&packet_identifier)
    }

    /// Continuity gaps observed by one watched identifier, or zero when it is
    /// not watched.
    pub fn continuity_drop_count(&self, packet_identifier: u16) -> (count: u64)
        ensures
            count == if self@.streams.contains_key(packet_identifier) {
                self@.streams[packet_identifier].assembler.continuity_gap_count
            } else {
                0
            },
    {
        broadcast use vstd::std_specs::hash::group_hash_axioms;

        match self.streams.get(&packet_identifier) {
            Some(stream) => stream.assembler.continuity_gap_count(),
            None => 0,
        }
    }

    /// Feeds one raw 188-byte packet without allocating a payload vector.
    pub fn push(&mut self, packet: &[u8; 188]) -> (outcome: PesResult<
        Vec<PacketizedElementaryStream>,
    >)
        requires
            ts::packet_defect(packet@) is None ==> can_count(
                old(self)@,
                packet::unit_input(ts::packet_fields(packet@)),
            ),
        ensures
            (final(self)@, assembler::outcome_of(outcome)) == pushed(old(self)@, packet@),
            old(self)@.wf() ==> final(self)@.wf(),
    {
        match transport_stream_packet_view(packet.as_slice()) {
            Some(view) => self.route(view),
            None => {
                let none: Vec<PacketizedElementaryStream> = Vec::new();
                assert(assembler::units_of(none@) =~= Seq::empty());
                Ok(none)
            },
        }
    }

    /// Feeds an already-decoded transport packet.
    pub fn push_parsed(&mut self, packet: &TransportStreamPacket) -> (outcome: PesResult<
        Vec<PacketizedElementaryStream>,
    >)
        requires
            can_count(old(self)@, packet::unit_input(packet@)),
        ensures
            (final(self)@, assembler::outcome_of(outcome)) == routed(
                old(self)@,
                packet::unit_input(packet@),
            ),
            old(self)@.wf() ==> final(self)@.wf(),
    {
        let view = TransportStreamPacketView {
            transport_error_indicator: packet.transport_error_indicator,
            payload_unit_start_indicator: packet.payload_unit_start_indicator,
            packet_identifier: packet.packet_identifier,
            scrambling_control: packet.scrambling_control,
            continuity_counter: packet.continuity_counter,
            has_payload: packet.has_payload,
            payload: packet.payload.as_slice(),
        };
        assert(view@ =~= packet::unit_input(packet@));
        self.route(view)
    }

    /// Hands a packet to the assembler of its identifier and puts the timestamps
    /// of what comes out onto the identifier's timeline.
    fn route(&mut self, packet: TransportStreamPacketView<'_>) -> (outcome: PesResult<
        Vec<PacketizedElementaryStream>,
    >)
        requires
            can_count(old(self)@, packet@),
        ensures
            (final(self)@, assembler::outcome_of(outcome)) == routed(old(self)@, packet@),
            old(self)@.wf() ==> final(self)@.wf(),
    {
        broadcast use vstd::std_specs::hash::group_hash_axioms;

        let packet_identifier: u16 = packet.packet_identifier;
        match self.streams.remove(&packet_identifier) {
            None => {
                let none: Vec<PacketizedElementaryStream> = Vec::new();
                assert(assembler::units_of(none@) =~= Seq::empty());
                assert(self@ =~= old(self)@);
                Ok(none)
            },
            Some(mut stream) => {
                let outcome = match stream.assembler.append_view(packet) {
                    Ok(completed) => Ok(Self::put_on_timeline(completed, &mut stream.clock)),
                    Err(error) => Err(error),
                };
                self.streams.insert(packet_identifier, stream);
                assert(self@ =~= routed(old(self)@, packet@).0);
                outcome
            },
        }
    }

    /// Replaces the presentation timestamps by continuous ones, in order.
    fn put_on_timeline(
        completed: Vec<PacketizedElementaryStream>,
        clock: &mut PtsUnwrap,
    ) -> (streams: Vec<PacketizedElementaryStream>)
        ensures
            (final(clock)@, assembler::units_of(streams@)) == timed(
                old(clock)@,
                assembler::units_of(completed@),
            ),
    {
        let ghost given = completed@;
        let mut streams = completed;
        let mut index: usize = 0;
        assert(assembler::units_of(streams@.take(0)) =~= Seq::empty());
        assert(assembler::units_of(given.take(0)) =~= Seq::empty());
        while index < streams.len()
            invariant
                index <= streams.len(),
                streams.len() == given.len(),
                (clock@, assembler::units_of(streams@.take(index as int))) == timed(
                    old(clock)@,
                    assembler::units_of(given.take(index as int)),
                ),
                forall|k: int| index <= k < given.len() ==> #[trigger] streams@[k] == given[k],
            decreases streams.len() - index,
        {
            let ghost before = streams@;
            if let Some(raw) = streams[index].presentation_timestamp_90khz {
                streams[index].presentation_timestamp_90khz = Some(clock.unwrap_ticks(raw));
            }
            proof {
                let through = assembler::units_of(given.take(index + 1));
                assert(through.drop_last() =~= assembler::units_of(given.take(index as int)));
                assert(through.last() == given[index as int]@);
                assert(assembler::units_of(streams@.take(index + 1)) =~= assembler::units_of(
                    before.take(index as int),
                ).push(streams@[index as int]@));
            }
            index = index + 1;
        }
        assert(streams@.take(index as int) =~= streams@);
        assert(given.take(index as int) =~= given);
        streams
    }
}

impl Default for PesDemux {
    /// A router as [`PesDemux::new`] builds it.
    fn default() -> (demux: Self)
        ensures
            demux@ == DemuxState::initial(DECLARED_LENGTH_MAX_PES),
            demux@.wf(),
    {
        Self::new()
    }
}

/// Watching is idempotent, and leaves every identifier that is watched already
/// as it is, the packet in progress and the clock among it.
pub proof fn law_watching_again_changes_nothing(
    state: DemuxState,
    packet_identifier: u16,
    other: u16,
)
    ensures
        watched(watched(state, packet_identifier), packet_identifier) == watched(
            state,
            packet_identifier,
        ),
        watched(state, packet_identifier).streams.contains_key(packet_identifier),
        state.streams.contains_key(other) ==> {
            &&& watched(state, packet_identifier).streams.contains_key(other)
            &&& watched(state, packet_identifier).streams[other] == state.streams[other]
        },
{
}

/// A packet of an identifier that is not watched changes nothing and gives
/// nothing, whatever is in it.
pub proof fn law_unwatched_identifiers_are_ignored(state: DemuxState, input: UnitInput)
    requires
        !state.streams.contains_key(input.packet_identifier),
    ensures
        routed(state, input) == (state, Ok::<Seq<PesUnit>, PacketizedElementaryStreamError>(
            Seq::empty(),
        )),
{
}

/// A packet touches what is held for its own identifier and nothing else, and
/// what comes out depends on that alone.
pub proof fn law_identifiers_are_independent(state: DemuxState, other: DemuxState, input: UnitInput)
    ensures
        routed(state, input).0.streams.remove(input.packet_identifier) == state.streams.remove(
            input.packet_identifier,
        ),
        routed(state, input).0.streams.dom() == state.streams.dom(),
        routed(state, input).0.maximum == state.maximum,
        ({
            let packet_identifier = input.packet_identifier;
            &&& state.streams.contains_key(packet_identifier)
            &&& other.streams.contains_key(packet_identifier)
            &&& state.streams[packet_identifier] == other.streams[packet_identifier]
        }) ==> {
            &&& routed(state, input).1 == routed(other, input).1
            &&& routed(state, input).0.streams[input.packet_identifier] == routed(
                other,
                input,
            ).0.streams[input.packet_identifier]
        },
{
    assert(routed(state, input).0.streams.remove(input.packet_identifier) =~= state.streams.remove(
        input.packet_identifier,
    ));
    assert(routed(state, input).0.streams.dom() =~= state.streams.dom());
}

/// Packets of two identifiers may come in either order: the same comes out for
/// each, and the same is held in the end.
pub proof fn law_identifiers_may_interleave(state: DemuxState, a: UnitInput, b: UnitInput)
    requires
        a.packet_identifier != b.packet_identifier,
    ensures
        routed(routed(state, a).0, b).1 == routed(state, b).1,
        routed(routed(state, b).0, a).1 == routed(state, a).1,
        routed(routed(state, a).0, b).0 == routed(routed(state, b).0, a).0,
{
    assert(routed(routed(state, a).0, b).0 =~= routed(routed(state, b).0, a).0);
}

/// Pushing a raw packet is parsing it and pushing what it parses to; one that
/// does not parse changes nothing and gives nothing.
pub proof fn law_raw_and_decoded_packets_agree(
    state: DemuxState,
    bytes: Seq<u8>,
    parsed: Result<TransportStreamPacket, TransportStreamPacketError>,
)
    requires
        match parsed {
            Ok(packet) => ts::packet_defect(bytes) is None && packet@ == ts::packet_fields(bytes),
            Err(error) => ts::packet_defect(bytes) == Some(error),
        },
    ensures
        pushed(state, bytes) == match parsed {
            Ok(packet) => routed(state, packet::unit_input(packet@)),
            Err(_) => (state, Ok(Seq::empty())),
        },
{
}

/// An error of an assembler comes out as it is, and leaves the timeline of its
/// identifier alone.
pub proof fn law_errors_pass_through(state: DemuxState, input: UnitInput)
    requires
        state.streams.contains_key(input.packet_identifier),
    ensures
        ({
            let stream = state.streams[input.packet_identifier];
            let units = assembler::appended(stream.assembler, input).1;
            let (next, outcome) = routed(state, input);
            &&& outcome is Err <==> units is Err
            &&& units is Err ==> outcome == units
            &&& units is Err ==> next.streams[input.packet_identifier].clock == stream.clock
        }),
{
}

/// Putting units onto the timeline replaces each raw presentation timestamp by
/// what the clock makes of it after the ones before; a unit without one, and
/// everything else of a unit, the decoding timestamp among it, stays.
pub proof fn law_each_presentation_timestamp_is_unwrapped(
    clock: Option<ClockReading>,
    units: Seq<PesUnit>,
    k: int,
)
    requires
        0 <= k < units.len(),
    ensures
        timed(clock, units).1.len() == units.len(),
        timed(clock, units).1[k] == match units[k].presentation_timestamp_90khz {
            None => units[k],
            Some(raw) => PesUnit {
                presentation_timestamp_90khz: Some(
                    timestamp::unwrap_outcome(timed(clock, units.take(k)).0, raw).ticks,
                ),
                ..units[k]
            },
        },
    decreases units.len(),
{
    let earlier = units.drop_last();
    lemma_timed_keeps_count(clock, earlier);
    if k == units.len() - 1 {
        assert(units.take(k) =~= earlier);
    } else {
        law_each_presentation_timestamp_is_unwrapped(clock, earlier, k);
        assert(earlier.take(k) =~= units.take(k));
    }
}

proof fn lemma_timed_keeps_count(clock: Option<ClockReading>, units: Seq<PesUnit>)
    ensures
        timed(clock, units).1.len() == units.len(),
    decreases units.len(),
{
    if units.len() > 0 {
        lemma_timed_keeps_count(clock, units.drop_last());
    }
}

/// Whether a clock's reading is a whole number of turns from its raw value.
pub open spec fn in_phase(clock: Option<ClockReading>) -> bool {
    clock matches Some(last) ==> last.raw == last.extended as int % timestamp::PTS_MODULUS as int
}

/// Putting units onto the timeline changes nothing of them but the turns of
/// their presentation timestamps.
pub proof fn law_only_whole_turns_are_added(clock: Option<ClockReading>, units: Seq<PesUnit>)
    requires
        in_phase(clock),
    ensures
        in_phase(timed(clock, units).0),
        timed(clock, units).1.len() == units.len(),
        forall|k: int|
            0 <= k < units.len() ==> {
                let unit = #[trigger] timed(clock, units).1[k];
                let raw = units[k].presentation_timestamp_90khz;
                &&& unit == PesUnit {
                    presentation_timestamp_90khz: unit.presentation_timestamp_90khz,
                    ..units[k]
                }
                &&& unit.presentation_timestamp_90khz is Some <==> raw is Some
                &&& raw is Some ==> unit.presentation_timestamp_90khz->0 as int
                    % timestamp::PTS_MODULUS as int == raw->0 as int % timestamp::PTS_MODULUS as int
            },
    decreases units.len(),
{
    if units.len() > 0 {
        law_only_whole_turns_are_added(clock, units.drop_last());
        let before = timed(clock, units.drop_last()).0;
        if let Some(raw) = units.last().presentation_timestamp_90khz {
            if let Some(last) = before {
                timestamp::law_unwrapping_follows_the_signed_delta(last, raw);
            }
        }
    }
}

/// A new router watches nothing and has the limit that it was given.
pub proof fn law_new_router_watches_nothing(maximum: usize, packet_identifier: u16)
    ensures
        !DemuxState::initial(maximum).streams.contains_key(packet_identifier),
        DemuxState::initial(maximum).maximum == maximum,
{
}

/// Watching adds the identifier asked for and no other, with nothing in progress,
/// no counter seen, nothing counted, no clock reading, and the router's limit.
pub proof fn law_watching_adds_one_fresh_identifier(
    state: DemuxState,
    packet_identifier: u16,
    other: u16,
)
    ensures
        ({
            let next = watched(state, packet_identifier);
            &&& next.maximum == state.maximum
            &&& next.streams.contains_key(other) <==> state.streams.contains_key(other) || other
                == packet_identifier
            &&& !state.streams.contains_key(packet_identifier) ==> {
                let held = next.streams[packet_identifier];
                &&& held.clock is None
                &&& held.assembler.packet_identifier == packet_identifier
                &&& held.assembler.maximum == state.maximum
                &&& held.assembler.buffered.len() == 0
                &&& held.assembler.last_continuity_counter is None
                &&& held.assembler.continuity_gap_count == 0
                &&& held.assembler.continuity_drop_count == 0
            }
        }),
{
}

/// While the counts of the packet's identifier are not full, every packet can be
/// pushed.
pub proof fn law_only_full_counts_stop_a_push(state: DemuxState, input: UnitInput)
    requires
        state.streams.contains_key(input.packet_identifier) ==> {
            let held = state.streams[input.packet_identifier].assembler;
            held.continuity_gap_count < u64::MAX && held.continuity_drop_count < u64::MAX
        },
    ensures
        can_count(state, input),
{
}

/// A packet of a watched identifier goes to that identifier's assembler as it is,
/// and what the assembler then holds is kept for it.
pub proof fn law_packets_go_to_their_assembler(state: DemuxState, input: UnitInput)
    requires
        state.streams.contains_key(input.packet_identifier),
    ensures
        ({
            let held = state.streams[input.packet_identifier];
            let (assembler, units) = assembler::appended(held.assembler, input);
            let (next, outcome) = routed(state, input);
            &&& next.streams[input.packet_identifier].assembler == assembler
            &&& outcome is Ok <==> units is Ok
            &&& units is Err ==> outcome == units
            &&& units is Ok ==> outcome->Ok_0.len() == units->Ok_0.len()
            &&& units is Ok ==> outcome->Ok_0 == timed(held.clock, units->Ok_0).1
            &&& units is Ok ==> next.streams[input.packet_identifier].clock == timed(
                held.clock,
                units->Ok_0,
            ).0
        }),
{
    let held = state.streams[input.packet_identifier];
    if let Ok(units) = assembler::appended(held.assembler, input).1 {
        lemma_timed_keeps_count(held.clock, units);
    }
}

/// The clock remembers the last timestamp that it was handed and what it gave out
/// for it; units without one leave it where it was.
pub proof fn law_clock_remembers_the_last_timestamp(
    clock: Option<ClockReading>,
    units: Seq<PesUnit>,
    k: int,
)
    requires
        -1 <= k < units.len(),
        k >= 0 ==> units[k].presentation_timestamp_90khz is Some,
        forall|j: int|
            k < j < units.len() ==> (#[trigger] units[j]).presentation_timestamp_90khz is None,
    ensures
        k == -1 ==> timed(clock, units).0 == clock,
        k >= 0 ==> {
            &&& timed(clock, units).0 matches Some(reading)
            &&& reading.raw == units[k].presentation_timestamp_90khz->0 as int % 0x2_0000_0000
            &&& timed(clock, units).1[k].presentation_timestamp_90khz == Some(reading.extended)
        },
    decreases units.len(),
{
    if units.len() > 0 {
        let earlier = units.drop_last();
        lemma_timed_keeps_count(clock, earlier);
        if k < units.len() - 1 {
            assert(units[units.len() - 1].presentation_timestamp_90khz is None);
            assert forall|j: int| k < j < earlier.len() implies (
            #[trigger] earlier[j]).presentation_timestamp_90khz is None by {
                assert(earlier[j] == units[j]);
            }
            law_clock_remembers_the_last_timestamp(clock, earlier, k);
        }
    }
}

} // verus!
