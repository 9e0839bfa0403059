//! What reassembly promises over whole feeds.

use vstd::prelude::*;

use crate::pes::assembler;
use crate::pes::assembler::AssemblerState;
use crate::pes::packet;
use crate::pes::packet::{PesUnit, UnitInput};
use crate::pes::{
    PacketizedElementaryStreamError, PesResult, DECLARED_LENGTH_MAX_PES, UNBOUNDED_MAX_PES,
};

verus! {

/// The outcome of a run of transport packets: all the units in order, or the
/// first error.
pub open spec fn fed(state: AssemblerState, inputs: Seq<UnitInput>) -> (
    AssemblerState,
    PesResult<Seq<PesUnit>>,
)
    decreases inputs.len(),
{
    if inputs.len() == 0 {
        (state, Ok(Seq::empty()))
    } else {
        let (next, first) = assembler::appended(state, inputs[0]);
        match first {
            Err(error) => (next, Err(error)),
            Ok(units) => {
                let (last, rest) = fed(next, inputs.drop_first());
                match rest {
                    Err(error) => (last, Err(error)),
                    Ok(more) => (last, Ok(units + more)),
                }
            },
        }
    }
}

/// The transport packets that carry `chunks`, clean and in step from `counter`
/// on; the first one a unit start if `unit_start` says so.
pub open spec fn carriers(
    packet_identifier: u16,
    chunks: Seq<Seq<u8>>,
    counter: u8,
    unit_start: bool,
) -> Seq<UnitInput> {
    Seq::new(
        chunks.len(),
        |k: int|
            UnitInput {
                transport_error_indicator: false,
                payload_unit_start_indicator: unit_start && k == 0,
                packet_identifier,
                scrambling_control: 0,
                continuity_counter: ((counter + k) % 16) as u8,
                has_payload: true,
                payload: chunks[k],
            },
    )
}

/// Whether a packet with counter `counter` is in step with `state`: nothing was
/// seen before, or the counter is the following one.
pub open spec fn in_step(state: AssemblerState, counter: u8) -> bool {
    match state.last_continuity_counter {
        None => counter < 16,
        Some(last) => counter == assembler::next_counter(last),
    }
}

/// The counter of the last of `count` packets that start at `counter`.
pub open spec fn last_counter(counter: u8, count: nat) -> u8 {
    ((counter + count - 1) % 16) as u8
}

proof fn lemma_counters(counter: u8, count: nat)
    requires
        counter < 16,
        1 <= count,
    ensures
        assembler::next_counter(counter) < 16,
        assembler::next_counter(counter) != counter,
        forall|k: int|
            0 <= k ==> #[trigger] ((assembler::next_counter(counter) + k) % 16) == (counter + k + 1)
                % 16,
        count >= 2 ==> last_counter(assembler::next_counter(counter), (count - 1) as nat)
            == last_counter(counter, count),
{
}

proof fn lemma_later_carriers(
    packet_identifier: u16,
    chunks: Seq<Seq<u8>>,
    counter: u8,
    unit_start: bool,
)
    requires
        counter < 16,
        chunks.len() > 0,
    ensures
        carriers(packet_identifier, chunks, counter, unit_start).drop_first() == carriers(
            packet_identifier,
            chunks.drop_first(),
            assembler::next_counter(counter),
            false,
        ),
{
    lemma_counters(counter, chunks.len());
    assert(carriers(packet_identifier, chunks, counter, unit_start).drop_first() =~= carriers(
        packet_identifier,
        chunks.drop_first(),
        assembler::next_counter(counter),
        false,
    ));
}

/// The state while `bytes` are in progress and `counter` was the last counter.
pub open spec fn progress(state: AssemblerState, bytes: Seq<u8>, counter: u8) -> AssemblerState {
    AssemblerState { buffered: bytes, last_continuity_counter: Some(counter), ..state }
}

/// The outcome where `bytes` are all of the packet in progress, `earlier` came
/// out before, and `counter` was the last counter: the packet comes out if it is
/// complete and is held if not.
pub open spec fn decided(
    state: AssemblerState,
    earlier: Seq<PesUnit>,
    bytes: Seq<u8>,
    counter: u8,
) -> (AssemblerState, PesResult<Seq<PesUnit>>) {
    match assembler::completed_unit(state.packet_identifier, bytes, false) {
        Ok(Some(unit)) => (progress(state, Seq::empty(), counter), Ok(earlier + seq![unit])),
        Ok(None) => (progress(state, bytes, counter), Ok(earlier)),
        Err(error) => (state.after_error(), Err(error)),
    }
}

/// One chunk that continues a packet.
proof fn lemma_continuing_step(state: AssemblerState, input: UnitInput)
    requires
        assembler::is_usable(state, input),
        in_step(state, input.continuity_counter),
        !input.payload_unit_start_indicator,
        state.buffered.len() > 0,
        (state.buffered + input.payload).len() <= state.maximum,
        assembler::start_code_possible(state.buffered + input.payload),
    ensures
        assembler::appended(state, input) == decided(
            state,
            Seq::empty(),
            state.buffered + input.payload,
            input.continuity_counter,
        ),
{
    let noted = assembler::after_continuity(state, input);
    assert(noted =~= progress(state, state.buffered, input.continuity_counter));
    let bytes = state.buffered + input.payload;
    assert(noted.holding(bytes) =~= progress(state, bytes, input.continuity_counter));
    assert(noted.holding(Seq::empty()) =~= progress(
        state,
        Seq::empty(),
        input.continuity_counter,
    ));
    assert(noted.after_error() =~= state.after_error());
    let unit = assembler::completed_unit(state.packet_identifier, bytes, false);
    if unit is Ok && unit->Ok_0 is Some {
        assert(Seq::empty() + seq![unit->Ok_0->0] =~= assembler::unit_seq(unit->Ok_0));
    }
}

/// The chunk that begins a packet.
proof fn lemma_starting_step(state: AssemblerState, input: UnitInput)
    requires
        assembler::is_usable(state, input),
        in_step(state, input.continuity_counter),
        input.payload_unit_start_indicator,
        input.payload.len() <= state.maximum,
        assembler::start_code_possible(input.payload),
        assembler::completed_unit(state.packet_identifier, state.buffered, true) is Ok,
    ensures
        assembler::appended(state, input) == decided(
            state,
            ended_units(state),
            input.payload,
            input.continuity_counter,
        ),
{
    let noted = assembler::after_continuity(state, input);
    assert(noted =~= progress(state, state.buffered, input.continuity_counter));
    let cleared = noted.holding(Seq::empty());
    assert(cleared =~= progress(state, Seq::empty(), input.continuity_counter));
    assert(cleared.buffered + input.payload =~= input.payload);
    assert(cleared.holding(input.payload) =~= progress(
        state,
        input.payload,
        input.continuity_counter,
    ));
    assert(cleared.holding(Seq::empty()) =~= cleared);
    assert(noted.after_error() =~= state.after_error());
    assert(cleared.after_error() =~= state.after_error());
    assert(ended_units(state) + assembler::unit_seq(None) =~= ended_units(state));
}

/// A step that hands out `earlier` and leaves `bytes` in progress, and then
/// packets that are decided on, are decided on together.
proof fn lemma_step_then_decided(
    state: AssemblerState,
    inputs: Seq<UnitInput>,
    earlier: Seq<PesUnit>,
    bytes: Seq<u8>,
    counter: u8,
    total: Seq<u8>,
    end: u8,
)
    requires
        inputs.len() > 0,
        assembler::appended(state, inputs[0]) == (progress(state, bytes, counter), Ok::<
            Seq<PesUnit>,
            PacketizedElementaryStreamError,
        >(earlier)),
        fed(progress(state, bytes, counter), inputs.drop_first()) == decided(
            progress(state, bytes, counter),
            Seq::empty(),
            total,
            end,
        ),
    ensures
        fed(state, inputs) == decided(state, earlier, total, end),
{
    let begun = progress(state, bytes, counter);
    assert(progress(begun, total, end) =~= progress(state, total, end));
    assert(progress(begun, Seq::empty(), end) =~= progress(state, Seq::empty(), end));
    assert(begun.after_error() =~= state.after_error());
    let unit = assembler::completed_unit(state.packet_identifier, total, false);
    assert(earlier + Seq::<PesUnit>::empty() =~= earlier);
    if unit is Ok && unit->Ok_0 is Some {
        assert(earlier + (Seq::<PesUnit>::empty() + seq![unit->Ok_0->0]) =~= earlier
            + seq![unit->Ok_0->0]);
    }
}

/// A run of one packet is that packet.
proof fn lemma_single_step(state: AssemblerState, inputs: Seq<UnitInput>)
    requires
        inputs.len() == 1,
    ensures
        fed(state, inputs) == assembler::appended(state, inputs[0]),
{
    let (next, units) = assembler::appended(state, inputs[0]);
    assert(fed(next, inputs.drop_first()) == (next, Ok::<
        Seq<PesUnit>,
        PacketizedElementaryStreamError,
    >(Seq::empty())));
    if units is Ok {
        assert(units->Ok_0 + Seq::<PesUnit>::empty() =~= units->Ok_0);
    }
}

/// The first of the packets that carry `chunks` is usable and has its counter.
proof fn lemma_first_carrier(
    state: AssemblerState,
    chunks: Seq<Seq<u8>>,
    counter: u8,
    unit_start: bool,
)
    requires
        counter < 16,
        chunks.len() > 0,
    ensures
        ({
            let inputs = carriers(state.packet_identifier, chunks, counter, unit_start);
            &&& inputs.len() == chunks.len()
            &&& assembler::is_usable(state, inputs[0])
            &&& inputs[0].continuity_counter == counter
            &&& inputs[0].payload_unit_start_indicator == unit_start
            &&& inputs[0].payload == chunks[0]
        }),
{
}

/// Chunks that come together in their first chunk and the rest.
proof fn lemma_flatten_splits(chunks: Seq<Seq<u8>>)
    requires
        chunks.len() > 0,
    ensures
        chunks.flatten() == chunks[0] + chunks.drop_first().flatten(),
        chunks.len() == 1 ==> chunks.flatten() == chunks[0],
{
    if chunks.len() == 1 {
        assert(chunks.drop_first().flatten() =~= Seq::<u8>::empty());
        assert(chunks[0] + Seq::<u8>::empty() =~= chunks[0]);
    }
}

/// Continuing a packet: until its last chunk nothing is complete, so nothing
/// comes out; the last chunk decides.
proof fn lemma_continuation(state: AssemblerState, chunks: Seq<Seq<u8>>, counter: u8)
    requires
        state.buffered.len() > 0,
        state.last_continuity_counter is Some,
        in_step(state, counter),
        chunks.len() > 0,
        (state.buffered + chunks.flatten()).len() <= state.maximum,
        assembler::start_code_possible(state.buffered + chunks.flatten()),
        forall|m: int|
            0 <= m <= (state.buffered + chunks.flatten()).len() - chunks.last().len()
                ==> #[trigger] assembler::completed_unit(
                state.packet_identifier,
                (state.buffered + chunks.flatten()).take(m),
                false,
            ) == Ok::<Option<PesUnit>, PacketizedElementaryStreamError>(None),
    ensures
        fed(state, carriers(state.packet_identifier, chunks, counter, false)) == decided(
            state,
            Seq::empty(),
            state.buffered + chunks.flatten(),
            last_counter(counter, chunks.len()),
        ),
    decreases chunks.len(),
{
    let total = state.buffered + chunks.flatten();
    let inputs = carriers(state.packet_identifier, chunks, counter, false);
    let bytes = state.buffered + chunks[0];
    let rest = chunks.drop_first();
    let end = last_counter(counter, chunks.len());
    lemma_first_carrier(state, chunks, counter, false);
    lemma_later_carriers(state.packet_identifier, chunks, counter, false);
    lemma_counters(counter, chunks.len());
    lemma_flatten_splits(chunks);
    assert(total =~= bytes + rest.flatten());
    assert(bytes =~= total.take(bytes.len() as int));
    lemma_continuing_step(state, inputs[0]);
    if chunks.len() == 1 {
        assert(bytes =~= total);
        lemma_single_step(state, inputs);
    } else {
        let begun = progress(state, bytes, counter);
        assert(rest.last() == chunks.last());
        lemma_flatten_has_last(rest);
        assert(assembler::completed_unit(
            state.packet_identifier,
            total.take(bytes.len() as int),
            false,
        ) == Ok::<Option<PesUnit>, PacketizedElementaryStreamError>(None));
        lemma_continuation(begun, rest, assembler::next_counter(counter));
        lemma_step_then_decided(state, inputs, Seq::empty(), bytes, counter, total, end);
    }
}

proof fn lemma_flatten_has_last(chunks: Seq<Seq<u8>>)
    requires
        chunks.len() > 0,
    ensures
        chunks.flatten().len() >= chunks.last().len(),
    decreases chunks.len(),
{
    if chunks.len() > 1 {
        assert(chunks.drop_first().last() == chunks.last());
        lemma_flatten_has_last(chunks.drop_first());
    }
}

/// Whether the first `m` of `bytes` leave more to come of the packet that they
/// begin: its length field is not there yet, leaves the length open, or declares
/// more.
pub open spec fn more_is_due(bytes: Seq<u8>, m: int) -> bool {
    bytes.len() < 6 || packet::declared_length(bytes) == 0 || m < 6 + packet::declared_length(bytes)
}

/// A prefix of a packet is not complete: what has come cannot tell yet, or
/// tells that more is due.
proof fn lemma_prefix_is_incomplete(packet_identifier: u16, bytes: Seq<u8>, m: int)
    requires
        0 <= m <= bytes.len(),
        more_is_due(bytes, m),
    ensures
        assembler::completed_unit(packet_identifier, bytes.take(m), false) == Ok::<
            Option<PesUnit>,
            PacketizedElementaryStreamError,
        >(None),
{
    if m >= 6 {
        assert(packet::declared_length(bytes.take(m)) == packet::declared_length(bytes));
    }
}

/// Whether `chunks` begin a packet: its first byte is in the first chunk, and
/// what there is of the start code is right.
pub open spec fn begins_packet(chunks: Seq<Seq<u8>>) -> bool {
    &&& chunks.len() > 0
    &&& chunks[0].len() > 0
    &&& assembler::start_code_possible(chunks.flatten())
}

/// Whether `chunks` carry a packet from its first byte on, as far as its length
/// field at least.
pub open spec fn carries_packet(chunks: Seq<Seq<u8>>) -> bool {
    begins_packet(chunks) && chunks.flatten().len() >= 6
}

/// What a unit start hands out of the packet before it.
pub open spec fn ended_units(state: AssemblerState) -> Seq<PesUnit> {
    assembler::unit_seq(
        assembler::completed_unit(state.packet_identifier, state.buffered, true)->Ok_0,
    )
}

/// Feeding the chunks of one packet, in step: the packet before it ends, and
/// the last chunk decides about this one.
proof fn lemma_one_packet(state: AssemblerState, chunks: Seq<Seq<u8>>, counter: u8)
    requires
        begins_packet(chunks),
        in_step(state, counter),
        chunks.flatten().len() <= state.maximum,
        more_is_due(chunks.flatten(), chunks.flatten().len() - chunks.last().len()),
        assembler::completed_unit(state.packet_identifier, state.buffered, true) is Ok,
    ensures
        fed(state, carriers(state.packet_identifier, chunks, counter, true)) == decided(
            state,
            ended_units(state),
            chunks.flatten(),
            last_counter(counter, chunks.len()),
        ),
{
    let pes = chunks.flatten();
    let rest = chunks.drop_first();
    let inputs = carriers(state.packet_identifier, chunks, counter, true);
    let end = last_counter(counter, chunks.len());
    lemma_first_carrier(state, chunks, counter, true);
    lemma_later_carriers(state.packet_identifier, chunks, counter, true);
    lemma_counters(counter, chunks.len());
    lemma_flatten_splits(chunks);
    assert(chunks[0] =~= pes.take(chunks[0].len() as int));
    lemma_starting_step(state, inputs[0]);
    if chunks.len() == 1 {
        lemma_single_step(state, inputs);
    } else {
        lemma_flatten_has_last(rest);
        assert(rest.last() == chunks.last());
        lemma_prefix_is_incomplete(state.packet_identifier, pes, chunks[0].len() as int);
        let begun = progress(state, chunks[0], counter);
        assert forall|m: int|
            0 <= m <= (begun.buffered + rest.flatten()).len()
                - rest.last().len() implies #[trigger] assembler::completed_unit(
            begun.packet_identifier,
            (begun.buffered + rest.flatten()).take(m),
            false,
        ) == Ok::<Option<PesUnit>, PacketizedElementaryStreamError>(None) by {
            lemma_prefix_is_incomplete(state.packet_identifier, pes, m);
        }
        lemma_continuation(begun, rest, assembler::next_counter(counter));
        lemma_step_then_decided(
            state,
            inputs,
            ended_units(state),
            chunks[0],
            counter,
            pes,
            end,
        );
    }
}

/// A packet that declares its length, split over transport packets in any way,
/// comes out exactly once: with the last chunk, as the parse of the bytes it
/// declares, behind whatever packet its unit start ended. A parse error comes
/// out instead and resets the assembler. Either way nothing is left to flush.
pub proof fn law_declared_packet_is_reassembled(
    state: AssemblerState,
    chunks: Seq<Seq<u8>>,
    counter: u8,
)
    requires
        carries_packet(chunks),
        in_step(state, counter),
        chunks.flatten().len() <= state.maximum,
        packet::declared_length(chunks.flatten()) > 0,
        chunks.flatten().len() - chunks.last().len() < 6 + packet::declared_length(
            chunks.flatten(),
        ) <= chunks.flatten().len(),
        assembler::completed_unit(state.packet_identifier, state.buffered, true) is Ok,
    ensures
        ({
            let packet = chunks.flatten().take(6 + packet::declared_length(chunks.flatten()));
            let inputs = carriers(state.packet_identifier, chunks, counter, true);
            match assembler::parsed_unit(state.packet_identifier, packet) {
                Ok(unit) => fed(state, inputs) == (
                    progress(state, Seq::empty(), last_counter(counter, chunks.len())),
                    Ok::<Seq<PesUnit>, PacketizedElementaryStreamError>(
                        ended_units(state) + seq![unit],
                    ),
                ),
                Err(error) => fed(state, inputs) == (
                    state.after_error(),
                    Err::<Seq<PesUnit>, PacketizedElementaryStreamError>(error),
                ),
            }
        }),
        assembler::flushed(
            fed(state, carriers(state.packet_identifier, chunks, counter, true)).0,
        ) == Ok::<Option<PesUnit>, PacketizedElementaryStreamError>(None),
{
    lemma_one_packet(state, chunks, counter);
}

/// The limit for packets that leave their length open is four mebibytes, and so
/// leaves room for every packet that declares one.
pub proof fn law_the_open_limit_is_four_mebibytes(bytes: Seq<u8>)
    ensures
        UNBOUNDED_MAX_PES == 0x40_0000,
        6 + packet::declared_length(bytes) <= UNBOUNDED_MAX_PES,
{
}

/// No packet declares more than the declared-length limit, and the longest one
/// reaches it: a smaller limit would refuse packets, a larger one changes
/// nothing.
pub proof fn law_declared_packets_fit_their_limit(bytes: Seq<u8>)
    ensures
        6 <= 6 + packet::declared_length(bytes) <= DECLARED_LENGTH_MAX_PES,
        bytes[4] == 255 && bytes[5] == 255 ==> 6 + packet::declared_length(bytes)
            == DECLARED_LENGTH_MAX_PES,
{
}

/// With the declared-length limit or more, every packet that declares its
/// length gets through, whatever the length: nothing but its own header can
/// make it fail.
pub proof fn law_every_declared_packet_gets_through(
    state: AssemblerState,
    chunks: Seq<Seq<u8>>,
    counter: u8,
)
    requires
        carries_packet(chunks),
        in_step(state, counter),
        state.buffered.len() == 0,
        state.maximum >= DECLARED_LENGTH_MAX_PES,
        packet::declared_length(chunks.flatten()) > 0,
        chunks.flatten().len() == 6 + packet::declared_length(chunks.flatten()),
        chunks.last().len() > 0,
    ensures
        fed(state, carriers(state.packet_identifier, chunks, counter, true)).1
            == match assembler::parsed_unit(state.packet_identifier, chunks.flatten()) {
            Ok(unit) => Ok::<Seq<PesUnit>, PacketizedElementaryStreamError>(seq![unit]),
            Err(error) => Err(error),
        },
{
    let pes = chunks.flatten();
    law_declared_packets_fit_their_limit(pes);
    law_declared_packet_is_reassembled(state, chunks, counter);
    assert(pes.take(6 + packet::declared_length(pes)) =~= pes);
    let unit = assembler::parsed_unit(state.packet_identifier, pes);
    if unit is Ok {
        assert(ended_units(state) + seq![unit->Ok_0] =~= seq![unit->Ok_0]);
    }
}

/// Until all of what a packet declares has come, nothing of it comes out: not
/// while its length field is still due, and not at all where that leaves the
/// length open. What has come is held.
pub proof fn law_partial_packet_is_held(state: AssemblerState, chunks: Seq<Seq<u8>>, counter: u8)
    requires
        begins_packet(chunks),
        in_step(state, counter),
        chunks.flatten().len() <= state.maximum,
        more_is_due(chunks.flatten(), chunks.flatten().len() as int),
        assembler::completed_unit(state.packet_identifier, state.buffered, true) is Ok,
    ensures
        fed(state, carriers(state.packet_identifier, chunks, counter, true)) == (
            progress(state, chunks.flatten(), last_counter(counter, chunks.len())),
            Ok::<Seq<PesUnit>, PacketizedElementaryStreamError>(ended_units(state)),
        ),
{
    lemma_one_packet(state, chunks, counter);
}

/// A packet that leaves its length open ends where the next unit start comes:
/// that start hands out all the bytes since its own start, parsed, before
/// anything of the new packet. Flushing hands out the same packet early, and
/// what follows then goes on as if nothing had been flushed.
pub proof fn law_unit_start_ends_an_open_packet(state: AssemblerState, input: UnitInput)
    requires
        state.buffered.len() >= 6,
        packet::declared_length(state.buffered) == 0,
        assembler::is_usable(state, input),
        input.payload_unit_start_indicator,
        !assembler::is_duplicate(state, input),
        !assembler::continuity_gap(state, input),
    ensures
        ({
            let (next, units) = assembler::appended(state.holding(Seq::empty()), input);
            assembler::appended(state, input) == match assembler::parsed_unit(
                state.packet_identifier,
                state.buffered,
            ) {
                Err(error) => (state.after_error(), Err(error)),
                Ok(unit) => match units {
                    Ok(units) => (next, Ok(seq![unit] + units)),
                    Err(error) => (next, Err(error)),
                },
            }
        }),
        assembler::flushed(state) == match assembler::parsed_unit(
            state.packet_identifier,
            state.buffered,
        ) {
            Ok(unit) => Ok::<Option<PesUnit>, PacketizedElementaryStreamError>(Some(unit)),
            Err(error) => Err(error),
        },
{
    let noted = assembler::after_continuity(state, input);
    assert(noted.after_error() =~= state.after_error());
    let other = assembler::after_continuity(state.holding(Seq::empty()), input);
    let cleared = noted.holding(Seq::empty());
    assert(cleared =~= other.holding(Seq::empty()));
    let begun = assembler::extended(cleared, input.payload).1;
    if begun is Ok {
        assert(assembler::unit_seq(None) + assembler::unit_seq(begun->Ok_0) =~= assembler::unit_seq(
            begun->Ok_0,
        ));
    }
}

/// Feeding a run of packets is feeding its parts one after the other.
pub proof fn law_feeding_composes(
    state: AssemblerState,
    first: Seq<UnitInput>,
    second: Seq<UnitInput>,
)
    ensures
        ({
            let (between, units) = fed(state, first);
            let (last, more) = fed(between, second);
            fed(state, first + second) == match units {
                Err(error) => (between, Err(error)),
                Ok(units) => match more {
                    Err(error) => (last, Err(error)),
                    Ok(more) => (last, Ok(units + more)),
                },
            }
        }),
    decreases first.len(),
{
    if first.len() == 0 {
        assert(first + second =~= second);
        let more = fed(state, second).1;
        if more is Ok {
            assert(Seq::<PesUnit>::empty() + more->Ok_0 =~= more->Ok_0);
        }
    } else {
        let (next, head) = assembler::appended(state, first[0]);
        assert((first + second).drop_first() =~= first.drop_first() + second);
        assert((first + second)[0] == first[0]);
        law_feeding_composes(next, first.drop_first(), second);
        let (between, tail) = fed(next, first.drop_first());
        let more = fed(between, second).1;
        if head is Ok && tail is Ok && more is Ok {
            assert(head->Ok_0 + (tail->Ok_0 + more->Ok_0) =~= (head->Ok_0 + tail->Ok_0)
                + more->Ok_0);
        }
    }
}

/// Packets of other identifiers, packets without payload and duplicates change
/// nothing and give nothing.
pub proof fn law_irrelevant_packets_change_nothing(state: AssemblerState, input: UnitInput)
    requires
        input.packet_identifier != state.packet_identifier || assembler::is_duplicate(
            state,
            input,
        ) || (!input.has_payload && !input.transport_error_indicator && input.scrambling_control
            == 0),
    ensures
        assembler::appended(state, input) == (state, Ok::<
            Seq<PesUnit>,
            PacketizedElementaryStreamError,
        >(Seq::empty())),
{
}

/// A gap in the counters loses the packet in progress and nothing else: the
/// packet behind the gap is taken as by a fresh assembler, the gap count goes up
/// by one, and the drop count does if and only if a packet was in progress.
pub proof fn law_gap_loses_the_packet_in_progress(state: AssemblerState, input: UnitInput)
    requires
        assembler::continuity_gap(state, input),
        assembler::can_count(state, input),
    ensures
        ({
            let (next, units) = assembler::appended(state, input);
            let fresh = AssemblerState::initial(state.packet_identifier, state.maximum);
            &&& next.continuity_gap_count == state.continuity_gap_count + 1
            &&& next.continuity_drop_count == state.continuity_drop_count + (
            if state.buffered.len() > 0 {
                1int
            } else {
                0int
            })
            &&& units == assembler::appended(fresh, input).1
            &&& next.buffered == assembler::appended(fresh, input).0.buffered
            &&& !input.payload_unit_start_indicator ==> next.buffered.len() == 0 && units == Ok::<
                Seq<PesUnit>,
                PacketizedElementaryStreamError,
            >(Seq::empty())
        }),
{
    let lost = AssemblerState {
        buffered: Seq::empty(),
        last_continuity_counter: None,
        continuity_gap_count: assembler::after_continuity(state, input).continuity_gap_count,
        continuity_drop_count: assembler::after_continuity(state, input).continuity_drop_count,
        ..state
    };
    let fresh = AssemblerState::initial(state.packet_identifier, state.maximum);
    assert(assembler::after_continuity(state, input) =~= assembler::after_continuity(lost, input));
    assert(assembler::appended(state, input) == assembler::appended(lost, input));
    law_counts_have_no_say(lost, fresh, input);
}

/// Whether two states agree in everything but the counts of gaps and drops.
pub open spec fn alike(a: AssemblerState, b: AssemblerState) -> bool {
    a == AssemblerState {
        continuity_gap_count: a.continuity_gap_count,
        continuity_drop_count: a.continuity_drop_count,
        ..b
    }
}

/// The counts of gaps and drops have no say in what a packet does: states that
/// agree in everything else take it alike, and agree afterwards.
pub proof fn law_counts_have_no_say(a: AssemblerState, b: AssemblerState, input: UnitInput)
    requires
        alike(a, b),
    ensures
        assembler::appended(a, input).1 == assembler::appended(b, input).1,
        alike(assembler::appended(a, input).0, assembler::appended(b, input).0),
        assembler::continuity_gap(a, input) == assembler::continuity_gap(b, input),
        assembler::gap_discards(a, input) == assembler::gap_discards(b, input),
{
}

/// What one packet can do to the rest of the state: identifier and limit stay,
/// the buffer keeps to the limit, the gap count goes up by one exactly where
/// there is a gap, the drop count exactly where a gap discards a packet in
/// progress, so that no more drops than gaps are counted, and at most two units
/// come out.
pub proof fn law_one_packet_at_a_time(state: AssemblerState, input: UnitInput)
    requires
        state.wf(),
        assembler::can_count(state, input),
    ensures
        ({
            let (next, units) = assembler::appended(state, input);
            &&& next.packet_identifier == state.packet_identifier
            &&& next.maximum == state.maximum
            &&& next.wf()
            &&& next.continuity_gap_count == state.continuity_gap_count + (
            if assembler::continuity_gap(state, input) {
                1int
            } else {
                0int
            })
            &&& next.continuity_drop_count == state.continuity_drop_count + (
            if assembler::gap_discards(state, input) {
                1int
            } else {
                0int
            })
            &&& state.continuity_drop_count <= state.continuity_gap_count
                ==> next.continuity_drop_count <= next.continuity_gap_count
            &&& units matches Ok(units) ==> units.len() <= 2
        }),
{
}

} // verus!
