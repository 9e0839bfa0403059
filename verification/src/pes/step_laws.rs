//! What one call does to an assembler, case by case, with the packet's fields and
//! the bytes in progress as they are.

use vstd::prelude::*;

use crate::pes::assembler;
use crate::pes::assembler::AssemblerState;
use crate::pes::laws;
use crate::pes::packet;
use crate::pes::packet::{PacketizedElementaryStream, PesUnit, UnitInput};
use crate::pes::{PacketizedElementaryStreamError, PesResult};

verus! {

/// A fresh assembler holds nothing, has seen nothing and has counted nothing.
pub proof fn law_fresh_assembler_is_empty(packet_identifier: u16, maximum: usize)
    ensures
        ({
            let fresh = AssemblerState::initial(packet_identifier, maximum);
            &&& fresh.packet_identifier == packet_identifier
            &&& fresh.maximum == maximum
            &&& fresh.buffered.len() == 0
            &&& fresh.last_continuity_counter is None
            &&& fresh.continuity_gap_count == 0
            &&& fresh.continuity_drop_count == 0
        }),
{
}

/// An error forgets the bytes in progress and the last counter and nothing else.
pub proof fn law_error_forgets_bytes_and_counter(state: AssemblerState)
    ensures
        state.after_error().buffered.len() == 0,
        state.after_error().last_continuity_counter is None,
        state.after_error().packet_identifier == state.packet_identifier,
        state.after_error().maximum == state.maximum,
        state.after_error().continuity_gap_count == state.continuity_gap_count,
        state.after_error().continuity_drop_count == state.continuity_drop_count,
{
}

/// Holding other bytes changes nothing else; so a flush, which leaves none, keeps
/// the counter, the counts, the identifier and the limit.
pub proof fn law_flush_changes_only_the_bytes(state: AssemblerState, bytes: Seq<u8>)
    ensures
        state.holding(bytes).buffered == bytes,
        state.holding(bytes).last_continuity_counter == state.last_continuity_counter,
        state.holding(bytes).packet_identifier == state.packet_identifier,
        state.holding(bytes).maximum == state.maximum,
        state.holding(bytes).continuity_gap_count == state.continuity_gap_count,
        state.holding(bytes).continuity_drop_count == state.continuity_drop_count,
{
}

/// A flush hands out what all the bytes in progress parse to, complete or not,
/// and nothing where there are none.
pub proof fn law_flush_parses_what_is_there(state: AssemblerState)
    ensures
        state.buffered.len() == 0 ==> assembler::flushed(state) == Ok::<
            Option<PesUnit>,
            PacketizedElementaryStreamError,
        >(None),
        state.buffered.len() > 0 ==> match packet::parsed(state.buffered) {
            Err(error) => assembler::flushed(state) == Err::<
                Option<PesUnit>,
                PacketizedElementaryStreamError,
            >(error),
            Ok(fields) => {
                &&& assembler::flushed(state) matches Ok(Some(unit))
                &&& unit.packet_identifier == state.packet_identifier
                &&& unit.stream_identifier == fields.stream_identifier
                &&& unit.presentation_timestamp_90khz == fields.presentation_timestamp_90khz
                &&& unit.decoding_timestamp_90khz == fields.decoding_timestamp_90khz
                &&& unit.elementary_bytes == fields.elementary_bytes
            },
        },
{
}

/// A unit is a parsed packet with the identifier that it came under.
pub proof fn law_units_are_parsed_packets(packet_identifier: u16, bytes: Seq<u8>)
    ensures
        match packet::parsed(bytes) {
            Err(error) => assembler::parsed_unit(packet_identifier, bytes) == Err::<
                PesUnit,
                PacketizedElementaryStreamError,
            >(error),
            Ok(fields) => {
                &&& assembler::parsed_unit(packet_identifier, bytes) matches Ok(unit)
                &&& unit.packet_identifier == packet_identifier
                &&& unit.stream_identifier == fields.stream_identifier
                &&& unit.presentation_timestamp_90khz == fields.presentation_timestamp_90khz
                &&& unit.decoding_timestamp_90khz == fields.decoding_timestamp_90khz
                &&& unit.elementary_bytes == fields.elementary_bytes
            },
        },
{
}

/// What a call returns is read one for one: the same error, or as many units as
/// packets, each the view of its packet.
pub proof fn law_outcomes_are_read_one_for_one(
    result: PesResult<Vec<PacketizedElementaryStream>>,
    flushed: PesResult<Option<PacketizedElementaryStream>>,
)
    ensures
        match result {
            Err(error) => assembler::outcome_of(result) == Err::<
                Seq<PesUnit>,
                PacketizedElementaryStreamError,
            >(error),
            Ok(streams) => {
                &&& assembler::outcome_of(result) matches Ok(units)
                &&& units.len() == streams@.len()
                &&& forall|i: int| 0 <= i < units.len() ==> #[trigger] units[i] == streams@[i]@
            },
        },
        match flushed {
            Err(error) => assembler::optional_unit_of(flushed) == Err::<
                Option<PesUnit>,
                PacketizedElementaryStreamError,
            >(error),
            Ok(None) => assembler::optional_unit_of(flushed) == Ok::<
                Option<PesUnit>,
                PacketizedElementaryStreamError,
            >(None),
            Ok(Some(stream)) => assembler::optional_unit_of(flushed) == Ok::<
                Option<PesUnit>,
                PacketizedElementaryStreamError,
            >(Some(stream@)),
        },
{
}

/// While neither count is full, every packet can be appended.
pub proof fn law_only_full_counts_stop_an_append(state: AssemblerState, input: UnitInput)
    requires
        state.continuity_gap_count < u64::MAX,
        state.continuity_drop_count < u64::MAX,
    ensures
        assembler::can_count(state, input),
{
}

/// The counter behind 15 is 0, and behind any other the next one.
pub proof fn law_counters_run_modulo_sixteen(counter: u8)
    ensures
        assembler::next_counter(counter) < 16,
        (assembler::next_counter(counter) - counter - 1) % 16 == 0,
{
}

/// Packets that are not for the assembler, or not usable, by their fields: a
/// foreign one is passed over; the transport-error bit is reported first, then
/// scrambling, each with a reset; one without payload is passed over.
pub proof fn law_unusable_packets(state: AssemblerState, input: UnitInput)
    ensures
        ({
            let (next, units) = assembler::appended(state, input);
            let nothing = Ok::<Seq<PesUnit>, PacketizedElementaryStreamError>(Seq::empty());
            let own = input.packet_identifier == state.packet_identifier;
            &&& !own ==> next == state && units == nothing
            &&& own && input.transport_error_indicator ==> next == state.after_error() && units
                == Err::<Seq<PesUnit>, PacketizedElementaryStreamError>(
                PacketizedElementaryStreamError::TransportError {
                    packet_identifier: input.packet_identifier,
                },
            )
            &&& own && !input.transport_error_indicator && input.scrambling_control != 0 ==> next
                == state.after_error() && units == Err::<
                Seq<PesUnit>,
                PacketizedElementaryStreamError,
            >(
                PacketizedElementaryStreamError::ScrambledPacket {
                    packet_identifier: input.packet_identifier,
                },
            )
            &&& own && !input.transport_error_indicator && input.scrambling_control == 0
                && !input.has_payload ==> next == state && units == nothing
        }),
{
}

/// Whether a packet is a clean one with payload for the assembler.
pub open spec fn clean(state: AssemblerState, input: UnitInput) -> bool {
    &&& input.packet_identifier == state.packet_identifier
    &&& !input.transport_error_indicator
    &&& input.scrambling_control == 0
    &&& input.has_payload
}

/// A clean packet whose counter is the last one again is passed over, whatever is
/// in it.
pub proof fn law_repeated_counter_is_passed_over(state: AssemblerState, input: UnitInput)
    requires
        clean(state, input),
        state.last_continuity_counter == Some(input.continuity_counter),
    ensures
        assembler::appended(state, input) == (
            state,
            Ok::<Seq<PesUnit>, PacketizedElementaryStreamError>(Seq::empty()),
        ),
{
}

/// A clean packet of any payload whose counter is neither the last one nor the
/// following one is behind a gap. The gap is counted, once; nothing of the bytes
/// in progress gets any further: what comes out and what is held then are the same
/// whatever they were, and the same as for a fresh assembler. The drop is counted
/// if there were any.
pub proof fn law_gap_discards_the_bytes_in_progress(
    state: AssemblerState,
    input: UnitInput,
    last: u8,
    other: Seq<u8>,
)
    requires
        clean(state, input),
        state.last_continuity_counter == Some(last),
        input.continuity_counter != last,
        input.continuity_counter as int != (last + 1) % 16,
        state.continuity_gap_count < u64::MAX,
        state.continuity_drop_count < u64::MAX,
    ensures
        ({
            let (next, units) = assembler::appended(state, input);
            let (changed, changed_units) = assembler::appended(state.holding(other), input);
            let fresh = AssemblerState::initial(state.packet_identifier, state.maximum);
            let (begun, fresh_units) = assembler::appended(fresh, input);
            &&& next.continuity_gap_count == state.continuity_gap_count + 1
            &&& next.continuity_drop_count == if state.buffered.len() > 0 {
                state.continuity_drop_count + 1
            } else {
                state.continuity_drop_count as int
            }
            &&& units == changed_units && units == fresh_units
            &&& next.buffered == changed.buffered && next.buffered == begun.buffered
            &&& !input.payload_unit_start_indicator ==> next.buffered.len() == 0 && units == Ok::<
                Seq<PesUnit>,
                PacketizedElementaryStreamError,
            >(Seq::empty())
            &&& units is Ok ==> next.last_continuity_counter == Some(input.continuity_counter)
        }),
{
    let fresh = AssemblerState::initial(state.packet_identifier, state.maximum);
    let noted = assembler::after_continuity(state, input);
    let from_other = assembler::after_continuity(state.holding(other), input);
    let from_fresh = assembler::after_continuity(fresh, input);
    lemma_counts_do_not_matter(noted, from_other, input);
    lemma_counts_do_not_matter(noted, from_fresh, input);
}

/// States that hold the same bytes under the same counter go on alike.
proof fn lemma_counts_do_not_matter(a: AssemblerState, b: AssemblerState, input: UnitInput)
    requires
        a.packet_identifier == b.packet_identifier,
        a.maximum == b.maximum,
        a.buffered == b.buffered,
        a.last_continuity_counter == b.last_continuity_counter,
    ensures
        ({
            let start = input.payload_unit_start_indicator;
            let (next_a, units_a) = assembler::continued(a, start, input.payload);
            let (next_b, units_b) = assembler::continued(b, start, input.payload);
            &&& units_a == units_b
            &&& next_a.buffered == next_b.buffered
            &&& next_a.continuity_gap_count == a.continuity_gap_count
            &&& next_a.continuity_drop_count == a.continuity_drop_count
            &&& next_a.last_continuity_counter == a.last_continuity_counter
        }),
{
}

/// Whether a clean packet is in step: the first one, or the one with the following
/// counter.
pub open spec fn follows(state: AssemblerState, input: UnitInput) -> bool {
    &&& clean(state, input)
    &&& state.last_continuity_counter matches Some(last) ==> input.continuity_counter as int == (
    last + 1) % 16
}

/// A packet in step counts no gap and no drop, and its counter is remembered
/// unless it causes an error.
pub proof fn law_packets_in_step_count_nothing(state: AssemblerState, input: UnitInput)
    requires
        follows(state, input),
    ensures
        ({
            let (next, units) = assembler::appended(state, input);
            &&& next.continuity_gap_count == state.continuity_gap_count
            &&& next.continuity_drop_count == state.continuity_drop_count
            &&& next.packet_identifier == state.packet_identifier
            &&& next.maximum == state.maximum
            &&& units is Ok ==> next.last_continuity_counter == Some(input.continuity_counter)
            &&& units is Err ==> next == state.after_error()
        }),
{
    assert(!assembler::continuity_gap(state, input));
    let noted = assembler::after_continuity(state, input);
    lemma_counts_do_not_matter(noted, noted, input);
    assert(assembler::appended(state, input).1 is Err ==> assembler::appended(state, input).0
        =~= state.after_error());
}

/// Payload in step that starts no unit, with nothing in progress, is dropped.
pub proof fn law_payload_without_a_start_is_dropped(state: AssemblerState, input: UnitInput)
    requires
        follows(state, input),
        !input.payload_unit_start_indicator,
        state.buffered.len() == 0,
    ensures
        assembler::appended(state, input).0.buffered.len() == 0,
        assembler::appended(state, input).1 == Ok::<Seq<PesUnit>, PacketizedElementaryStreamError>(
            Seq::empty(),
        ),
{
}

/// Whether payload in step goes on with the bytes in progress, or begins anew with
/// none in progress.
pub open spec fn goes_on(state: AssemblerState, input: UnitInput) -> bool {
    &&& follows(state, input)
    &&& input.payload_unit_start_indicator <==> state.buffered.len() == 0
}

/// Payload that goes on and makes the packet longer than the limit is refused,
/// with the length it would have had.
pub proof fn law_packets_longer_than_the_limit_are_refused(state: AssemblerState, input: UnitInput)
    requires
        goes_on(state, input),
        state.buffered.len() + input.payload.len() > state.maximum,
    ensures
        assembler::appended(state, input).1 matches Err(
            PacketizedElementaryStreamError::PacketTooLarge { maximum, actual },
        ) && maximum == state.maximum && (state.buffered.len() + input.payload.len() <= usize::MAX
            ==> actual == state.buffered.len() + input.payload.len()) && (state.buffered.len()
            + input.payload.len() > usize::MAX ==> actual == usize::MAX),
{
}

/// Payload that goes on and leaves a first, second or third byte that is not that
/// of the start code is refused.
pub proof fn law_wrong_start_codes_are_refused(state: AssemblerState, input: UnitInput)
    requires
        goes_on(state, input),
        state.buffered.len() + input.payload.len() <= state.maximum,
    ensures
        ({
            let bytes = state.buffered + input.payload;
            let wrong = {
                ||| bytes.len() >= 1 && bytes[0] != 0
                ||| bytes.len() >= 2 && bytes[1] != 0
                ||| bytes.len() >= 3 && bytes[2] != 1
            };
            wrong ==> assembler::appended(state, input).1 == Err::<
                Seq<PesUnit>,
                PacketizedElementaryStreamError,
            >(PacketizedElementaryStreamError::InvalidStartCodePrefix)
        }),
{
    assert(Seq::<u8>::empty() + input.payload =~= input.payload);
    assert(state.buffered.len() == 0 ==> state.buffered + input.payload =~= input.payload);
}

/// Whether `bytes` are a start code as far as they go.
pub open spec fn right_start(bytes: Seq<u8>) -> bool {
    &&& bytes.len() >= 1 ==> bytes[0] == 0
    &&& bytes.len() >= 2 ==> bytes[1] == 0
    &&& bytes.len() >= 3 ==> bytes[2] == 1
}

/// Payload that goes on is added to the bytes in progress, all of it, and held
/// with them, while the length field is not there, leaves the length open, or
/// declares more.
pub proof fn law_payload_is_added_to_the_bytes_in_progress(state: AssemblerState, input: UnitInput)
    requires
        goes_on(state, input),
        state.buffered.len() + input.payload.len() <= state.maximum,
        right_start(state.buffered + input.payload),
        ({
            let bytes = state.buffered + input.payload;
            ||| bytes.len() < 6
            ||| bytes[4] == 0 && bytes[5] == 0
            ||| bytes.len() < 6 + bytes[4] * 0x100 + bytes[5]
        }),
    ensures
        assembler::appended(state, input).0.buffered == state.buffered + input.payload,
        assembler::appended(state, input).1 == Ok::<Seq<PesUnit>, PacketizedElementaryStreamError>(
            Seq::empty(),
        ),
{
    lemma_going_on(state, input);
}

/// Payload that goes on and brings the last byte that the packet declares hands
/// out what the declared bytes parse to, and leaves nothing in progress.
pub proof fn law_the_last_declared_byte_completes_the_packet(
    state: AssemblerState,
    input: UnitInput,
)
    requires
        goes_on(state, input),
        state.buffered.len() + input.payload.len() <= state.maximum,
        right_start(state.buffered + input.payload),
        ({
            let bytes = state.buffered + input.payload;
            &&& bytes.len() >= 6
            &&& bytes[4] != 0 || bytes[5] != 0
            &&& bytes.len() >= 6 + bytes[4] * 0x100 + bytes[5]
        }),
    ensures
        ({
            let bytes = state.buffered + input.payload;
            let declared = bytes.take(6 + bytes[4] * 0x100 + bytes[5]);
            let (next, units) = assembler::appended(state, input);
            &&& next.buffered.len() == 0
            &&& match assembler::parsed_unit(state.packet_identifier, declared) {
                Ok(unit) => units == Ok::<Seq<PesUnit>, PacketizedElementaryStreamError>(
                    seq![unit],
                ),
                Err(error) => units == Err::<Seq<PesUnit>, PacketizedElementaryStreamError>(error),
            }
        }),
{
    lemma_going_on(state, input);
    let bytes = state.buffered + input.payload;
    let declared = bytes.take(6 + bytes[4] * 0x100 + bytes[5]);
    if let Ok(unit) = assembler::parsed_unit(state.packet_identifier, declared) {
        assert(assembler::unit_seq(Some(unit)) =~= seq![unit]);
    }
}

/// Going on is adding to the bytes in progress, whether or not a unit starts.
proof fn lemma_going_on(state: AssemblerState, input: UnitInput)
    requires
        goes_on(state, input),
        state.buffered.len() + input.payload.len() <= state.maximum,
        right_start(state.buffered + input.payload),
    ensures
        ({
            let bytes = state.buffered + input.payload;
            let (next, units) = assembler::appended(state, input);
            match assembler::completed_unit(state.packet_identifier, bytes, false) {
                Ok(unit) => {
                    &&& units == Ok::<Seq<PesUnit>, PacketizedElementaryStreamError>(
                        assembler::unit_seq(unit),
                    )
                    &&& next.buffered == if unit is Some {
                        Seq::empty()
                    } else {
                        bytes
                    }
                },
                Err(error) => next.buffered.len() == 0 && units == Err::<
                    Seq<PesUnit>,
                    PacketizedElementaryStreamError,
                >(error),
            }
        }),
{
    let bytes = state.buffered + input.payload;
    assert(Seq::<u8>::empty() + input.payload =~= input.payload);
    if state.buffered.len() == 0 {
        assert(state.buffered =~= Seq::empty());
        assert(bytes =~= input.payload);
    }
    assert(!assembler::continuity_gap(state, input));
    let unit = assembler::completed_unit(state.packet_identifier, bytes, false);
    if unit is Ok {
        assert(assembler::unit_seq(None) + assembler::unit_seq(unit->Ok_0)
            =~= assembler::unit_seq(unit->Ok_0));
    }
}

/// A unit start drops a packet that is cut off before its length field or before
/// the end that it declares: what follows is as if it had not been there.
pub proof fn law_unit_start_drops_a_packet_cut_short(state: AssemblerState, input: UnitInput)
    requires
        follows(state, input),
        input.payload_unit_start_indicator,
        ({
            ||| state.buffered.len() < 6
            ||| (state.buffered[4] != 0 || state.buffered[5] != 0) && state.buffered.len() < 6
                + state.buffered[4] * 0x100 + state.buffered[5]
        }),
    ensures
        assembler::appended(state, input) == assembler::appended(
            state.holding(Seq::empty()),
            input,
        ),
{
    let noted = assembler::after_continuity(state, input);
    let other = assembler::after_continuity(state.holding(Seq::empty()), input);
    assert(noted.holding(Seq::empty()) =~= other.holding(Seq::empty()));
}

/// A unit start hands out a packet that left its length open, parsed from all of
/// its bytes, before anything of the new packet; if it does not parse, its error
/// comes out and the start is lost with it.
pub proof fn law_unit_start_hands_out_an_open_packet(state: AssemblerState, input: UnitInput)
    requires
        follows(state, input),
        input.payload_unit_start_indicator,
        state.buffered.len() >= 6,
        state.buffered[4] == 0,
        state.buffered[5] == 0,
    ensures
        ({
            let (next, units) = assembler::appended(state, input);
            let (begun, begun_units) = assembler::appended(state.holding(Seq::empty()), input);
            match assembler::parsed_unit(state.packet_identifier, state.buffered) {
                Err(error) => next == state.after_error() && units == Err::<
                    Seq<PesUnit>,
                    PacketizedElementaryStreamError,
                >(error),
                Ok(unit) => next == begun && match begun_units {
                    Ok(later) => units == Ok::<Seq<PesUnit>, PacketizedElementaryStreamError>(
                        seq![unit] + later,
                    ),
                    Err(error) => units == Err::<Seq<PesUnit>, PacketizedElementaryStreamError>(
                        error,
                    ),
                },
            }
        }),
{
    laws::law_unit_start_ends_an_open_packet(state, input);
}

} // verus!
