//! What a router promises over whole feeds of many identifiers.

use vstd::prelude::*;

use crate::pes::assembler;
use crate::pes::assembler::AssemblerState;
use crate::pes::demux;
use crate::pes::demux::{DemuxState, StreamState};
use crate::pes::packet;
use crate::pes::packet::{PesUnit, UnitInput};
use crate::pes::timestamp::ClockReading;
use crate::pes::{PacketizedElementaryStreamError, PesResult};
use crate::ts;
use crate::ts::PacketFields;

verus! {

/// A call that changes a router.
pub enum RouterCall {
    Watch(u16),
    Push(Seq<u8>),
    PushParsed(PacketFields),
}

/// The packet that a call hands to the router, if it hands one that decodes.
pub open spec fn input_of(call: RouterCall) -> Option<UnitInput> {
    match call {
        RouterCall::Watch(_) => None,
        RouterCall::Push(bytes) => if ts::packet_defect(bytes) is None {
            Some(packet::unit_input(ts::packet_fields(bytes)))
        } else {
            None
        },
        RouterCall::PushParsed(fields) => Some(packet::unit_input(fields)),
    }
}

/// Whether a call hands over a packet of `packet_identifier`.
pub open spec fn concerns(call: RouterCall, packet_identifier: u16) -> bool {
    input_of(call) matches Some(input) && input.packet_identifier == packet_identifier
}

/// The outcome of one call; watching has nothing to return.
pub open spec fn called(state: DemuxState, call: RouterCall) -> (
    DemuxState,
    PesResult<Seq<PesUnit>>,
) {
    match call {
        RouterCall::Watch(packet_identifier) => (
            demux::watched(state, packet_identifier),
            Ok(Seq::empty()),
        ),
        RouterCall::Push(bytes) => demux::pushed(state, bytes),
        RouterCall::PushParsed(fields) => demux::routed(state, packet::unit_input(fields)),
    }
}

/// The state after a sequence of calls. Errors do not end a feed.
pub open spec fn after(state: DemuxState, calls: Seq<RouterCall>) -> DemuxState
    decreases calls.len(),
{
    if calls.len() == 0 {
        state
    } else {
        after(called(state, calls[0]).0, calls.drop_first())
    }
}

/// What the calls with packets of `packet_identifier` return, in order.
pub open spec fn outcomes_for(
    state: DemuxState,
    calls: Seq<RouterCall>,
    packet_identifier: u16,
) -> Seq<PesResult<Seq<PesUnit>>>
    decreases calls.len(),
{
    if calls.len() == 0 {
        Seq::empty()
    } else {
        let (next, outcome) = called(state, calls[0]);
        let later = outcomes_for(next, calls.drop_first(), packet_identifier);
        if concerns(calls[0], packet_identifier) {
            seq![outcome] + later
        } else {
            later
        }
    }
}

/// The packets of `packet_identifier` in a feed, in order.
pub open spec fn inputs_for(calls: Seq<RouterCall>, packet_identifier: u16) -> Seq<UnitInput>
    decreases calls.len(),
{
    if calls.len() == 0 {
        Seq::empty()
    } else {
        let later = inputs_for(calls.drop_first(), packet_identifier);
        if concerns(calls[0], packet_identifier) {
            seq![input_of(calls[0])->0] + later
        } else {
            later
        }
    }
}

/// The calls of a feed that hand over packets of `packet_identifier`, in order.
pub open spec fn calls_for(calls: Seq<RouterCall>, packet_identifier: u16) -> Seq<RouterCall>
    decreases calls.len(),
{
    if calls.len() == 0 {
        Seq::empty()
    } else {
        let later = calls_for(calls.drop_first(), packet_identifier);
        if concerns(calls[0], packet_identifier) {
            seq![calls[0]] + later
        } else {
            later
        }
    }
}

/// An assembler alone, fed one packet after the other: its state in the end,
/// and what each append returns.
pub open spec fn assembled(state: AssemblerState, inputs: Seq<UnitInput>) -> (
    AssemblerState,
    Seq<PesResult<Seq<PesUnit>>>,
)
    decreases inputs.len(),
{
    if inputs.len() == 0 {
        (state, Seq::empty())
    } else {
        let (next, outcome) = assembler::appended(state, inputs[0]);
        let (last, later) = assembled(next, inputs.drop_first());
        (last, seq![outcome] + later)
    }
}

/// One outcome put onto a clock's timeline, and where the clock then is. An
/// error stays as it is and does not touch the clock.
pub open spec fn timed_outcome(
    clock: Option<ClockReading>,
    outcome: PesResult<Seq<PesUnit>>,
) -> (Option<ClockReading>, PesResult<Seq<PesUnit>>) {
    match outcome {
        Err(error) => (clock, Err(error)),
        Ok(units) => {
            let (next, units) = demux::timed(clock, units);
            (next, Ok(units))
        },
    }
}

/// A clock alone, handed the raw presentation timestamps of all that comes out,
/// in order: where it is in the end, and the outcomes with its ticks in place of
/// the raw values.
pub open spec fn on_timeline(
    clock: Option<ClockReading>,
    outcomes: Seq<PesResult<Seq<PesUnit>>>,
) -> (Option<ClockReading>, Seq<PesResult<Seq<PesUnit>>>)
    decreases outcomes.len(),
{
    if outcomes.len() == 0 {
        (clock, Seq::empty())
    } else {
        let (next, outcome) = timed_outcome(clock, outcomes[0]);
        let (last, later) = on_timeline(next, outcomes.drop_first());
        (last, seq![outcome] + later)
    }
}

/// What is held for a watched identifier after its own assembler and clock have
/// run alongside over `inputs`.
pub open spec fn stream_after(stream: StreamState, inputs: Seq<UnitInput>) -> StreamState {
    let (assembler, outcomes) = assembled(stream.assembler, inputs);
    StreamState { assembler, clock: on_timeline(stream.clock, outcomes).0 }
}

/// What comes out for a watched identifier where its own assembler and clock run
/// alongside over `inputs`.
pub open spec fn stream_outcomes(stream: StreamState, inputs: Seq<UnitInput>) -> Seq<
    PesResult<Seq<PesUnit>>,
> {
    on_timeline(stream.clock, assembled(stream.assembler, inputs).1).1
}

/// One packet, as the assembler and the clock of its identifier take it.
spec fn stepped(stream: StreamState, input: UnitInput) -> (StreamState, PesResult<Seq<PesUnit>>) {
    let (assembler, outcome) = assembler::appended(stream.assembler, input);
    let (clock, outcome) = timed_outcome(stream.clock, outcome);
    (StreamState { assembler, clock }, outcome)
}

/// A call with a packet of a watched identifier is a step of its assembler and
/// clock.
proof fn lemma_own_packet(state: DemuxState, call: RouterCall, packet_identifier: u16)
    requires
        state.streams.contains_key(packet_identifier),
        concerns(call, packet_identifier),
    ensures
        ({
            let (next, outcome) = called(state, call);
            let stream = state.streams[packet_identifier];
            &&& next.streams.contains_key(packet_identifier)
            &&& (next.streams[packet_identifier], outcome) == stepped(stream, input_of(call)->0)
        }),
{
    assert(called(state, call) == demux::routed(state, input_of(call)->0));
}

/// A call without a packet of a watched identifier leaves what is held for it
/// alone.
proof fn lemma_foreign_call(state: DemuxState, call: RouterCall, packet_identifier: u16)
    requires
        state.streams.contains_key(packet_identifier),
        !concerns(call, packet_identifier),
    ensures
        called(state, call).0.streams.contains_key(packet_identifier),
        called(state, call).0.streams[packet_identifier] == state.streams[packet_identifier],
{
}

/// A clock takes the first outcome and then the rest.
proof fn lemma_timeline_step(
    clock: Option<ClockReading>,
    first: PesResult<Seq<PesUnit>>,
    later: Seq<PesResult<Seq<PesUnit>>>,
)
    ensures
        ({
            let (next, outcome) = timed_outcome(clock, first);
            on_timeline(clock, seq![first] + later) == (
                on_timeline(next, later).0,
                seq![outcome] + on_timeline(next, later).1,
            )
        }),
{
    assert((seq![first] + later).drop_first() =~= later);
}

/// Running over all packets is a step over the first one and then running over
/// the rest.
proof fn lemma_stream_step(stream: StreamState, inputs: Seq<UnitInput>)
    requires
        inputs.len() > 0,
    ensures
        ({
            let (next, outcome) = stepped(stream, inputs[0]);
            let rest = inputs.drop_first();
            &&& stream_after(stream, inputs) == stream_after(next, rest)
            &&& stream_outcomes(stream, inputs) == seq![outcome] + stream_outcomes(next, rest)
        }),
{
    let (next, first) = assembler::appended(stream.assembler, inputs[0]);
    let later = assembled(next, inputs.drop_first()).1;
    lemma_timeline_step(stream.clock, first, later);
}

/// Over any feed, whatever else is watched and pushed in between, a watched
/// identifier gets exactly what an assembler and a clock of its own give when
/// they run alongside: the assembler over all of the identifier's packets, the
/// clock over all presentation timestamps that the assembler brings out.
pub proof fn law_each_identifier_has_its_own_assembler_and_clock(
    state: DemuxState,
    calls: Seq<RouterCall>,
    packet_identifier: u16,
)
    requires
        state.streams.contains_key(packet_identifier),
    ensures
        ({
            let stream = state.streams[packet_identifier];
            let inputs = inputs_for(calls, packet_identifier);
            &&& after(state, calls).streams.contains_key(packet_identifier)
            &&& after(state, calls).streams[packet_identifier] == stream_after(stream, inputs)
            &&& outcomes_for(state, calls, packet_identifier) == stream_outcomes(stream, inputs)
        }),
    decreases calls.len(),
{
    let stream = state.streams[packet_identifier];
    let inputs = inputs_for(calls, packet_identifier);
    if calls.len() > 0 {
        let next = called(state, calls[0]).0;
        let rest = calls.drop_first();
        if concerns(calls[0], packet_identifier) {
            lemma_own_packet(state, calls[0], packet_identifier);
            assert(inputs.drop_first() =~= inputs_for(rest, packet_identifier));
            lemma_stream_step(stream, inputs);
        } else {
            lemma_foreign_call(state, calls[0], packet_identifier);
        }
        law_each_identifier_has_its_own_assembler_and_clock(next, rest, packet_identifier);
    }
}

/// From its first watch on, that assembler and clock are fresh ones, with the
/// router's limit.
pub proof fn law_watching_starts_afresh(
    state: DemuxState,
    calls: Seq<RouterCall>,
    packet_identifier: u16,
)
    requires
        !state.streams.contains_key(packet_identifier),
    ensures
        ({
            let fresh = StreamState {
                assembler: AssemblerState::initial(packet_identifier, state.maximum),
                clock: None,
            };
            let inputs = inputs_for(calls, packet_identifier);
            let begun = demux::watched(state, packet_identifier);
            &&& after(begun, calls).streams[packet_identifier] == stream_after(fresh, inputs)
            &&& outcomes_for(begun, calls, packet_identifier) == stream_outcomes(fresh, inputs)
        }),
{
    law_each_identifier_has_its_own_assembler_and_clock(
        demux::watched(state, packet_identifier),
        calls,
        packet_identifier,
    );
}

/// Before its first watch an identifier gets nothing, whatever its packets hold,
/// and nothing is held for it.
pub proof fn law_nothing_comes_out_before_the_first_watch(
    state: DemuxState,
    calls: Seq<RouterCall>,
    packet_identifier: u16,
)
    requires
        !state.streams.contains_key(packet_identifier),
        forall|k: int|
            0 <= k < calls.len() ==> #[trigger] calls[k] != RouterCall::Watch(packet_identifier),
    ensures
        !after(state, calls).streams.contains_key(packet_identifier),
        after(state, calls).maximum == state.maximum,
        outcomes_for(state, calls, packet_identifier).len() == inputs_for(
            calls,
            packet_identifier,
        ).len(),
        forall|k: int|
            0 <= k < outcomes_for(state, calls, packet_identifier).len()
                ==> #[trigger] outcomes_for(state, calls, packet_identifier)[k] == Ok::<
                Seq<PesUnit>,
                PacketizedElementaryStreamError,
            >(Seq::empty()),
    decreases calls.len(),
{
    if calls.len() > 0 {
        let next = called(state, calls[0]).0;
        let rest = calls.drop_first();
        assert(calls[0] != RouterCall::Watch(packet_identifier));
        assert(!next.streams.contains_key(packet_identifier));
        assert forall|k: int| 0 <= k < rest.len() implies #[trigger] rest[k] != RouterCall::Watch(
            packet_identifier,
        ) by {
            assert(rest[k] == calls[k + 1]);
        }
        law_nothing_comes_out_before_the_first_watch(next, rest, packet_identifier);
    }
}

/// Feeds that agree in the packets of a watched identifier agree in all that
/// comes out for it and in all that is held for it, the counts of gaps and drops among it.
pub proof fn law_other_identifiers_have_no_say(
    state: DemuxState,
    other: DemuxState,
    calls: Seq<RouterCall>,
    other_calls: Seq<RouterCall>,
    packet_identifier: u16,
)
    requires
        state.streams.contains_key(packet_identifier),
        other.streams.contains_key(packet_identifier),
        state.streams[packet_identifier] == other.streams[packet_identifier],
        inputs_for(calls, packet_identifier) == inputs_for(other_calls, packet_identifier),
    ensures
        outcomes_for(state, calls, packet_identifier) == outcomes_for(
            other,
            other_calls,
            packet_identifier,
        ),
        after(state, calls).streams[packet_identifier] == after(
            other,
            other_calls,
        ).streams[packet_identifier],
{
    law_each_identifier_has_its_own_assembler_and_clock(state, calls, packet_identifier);
    law_each_identifier_has_its_own_assembler_and_clock(other, other_calls, packet_identifier);
}

/// So leaving out everything but the packets of one watched identifier changes
/// nothing for it: not what comes out, and not its gap count.
pub proof fn law_other_identifiers_can_be_left_out(
    state: DemuxState,
    calls: Seq<RouterCall>,
    packet_identifier: u16,
)
    requires
        state.streams.contains_key(packet_identifier),
    ensures
        ({
            let own = calls_for(calls, packet_identifier);
            &&& outcomes_for(state, calls, packet_identifier) == outcomes_for(
                state,
                own,
                packet_identifier,
            )
            &&& after(state, calls).streams[packet_identifier] == after(
                state,
                own,
            ).streams[packet_identifier]
        }),
{
    let own = calls_for(calls, packet_identifier);
    lemma_own_calls(calls, packet_identifier);
    law_other_identifiers_have_no_say(state, state, calls, own, packet_identifier);
}

/// How many gaps an assembler meets over `inputs`.
pub open spec fn observed_gaps(state: AssemblerState, inputs: Seq<UnitInput>) -> nat
    decreases inputs.len(),
{
    if inputs.len() == 0 {
        0
    } else {
        let next = assembler::appended(state, inputs[0]).0;
        observed_gaps(next, inputs.drop_first()) + if assembler::continuity_gap(state, inputs[0]) {
            1nat
        } else {
            0
        }
    }
}

proof fn lemma_gaps_are_counted(state: AssemblerState, inputs: Seq<UnitInput>)
    requires
        state.continuity_gap_count + observed_gaps(state, inputs) <= u64::MAX,
    ensures
        assembled(state, inputs).0.continuity_gap_count == state.continuity_gap_count
            + observed_gaps(state, inputs),
    decreases inputs.len(),
{
    if inputs.len() > 0 {
        lemma_gaps_are_counted(assembler::appended(state, inputs[0]).0, inputs.drop_first());
    }
}

/// What a router counts for a watched identifier is every continuity gap among
/// the identifier's packets, whether or not a packet was in progress, over any
/// feed that the counter can hold.
pub proof fn law_router_counts_every_gap(
    state: DemuxState,
    calls: Seq<RouterCall>,
    packet_identifier: u16,
)
    requires
        state.streams.contains_key(packet_identifier),
        state.streams[packet_identifier].assembler.continuity_gap_count + observed_gaps(
            state.streams[packet_identifier].assembler,
            inputs_for(calls, packet_identifier),
        ) <= u64::MAX,
    ensures
        after(state, calls).streams[packet_identifier].assembler.continuity_gap_count
            == state.streams[packet_identifier].assembler.continuity_gap_count + observed_gaps(
            state.streams[packet_identifier].assembler,
            inputs_for(calls, packet_identifier),
        ),
{
    law_each_identifier_has_its_own_assembler_and_clock(state, calls, packet_identifier);
    lemma_gaps_are_counted(
        state.streams[packet_identifier].assembler,
        inputs_for(calls, packet_identifier),
    );
}

/// The calls for an identifier hand over all of its packets.
proof fn lemma_own_calls(calls: Seq<RouterCall>, packet_identifier: u16)
    ensures
        inputs_for(calls_for(calls, packet_identifier), packet_identifier) == inputs_for(
            calls,
            packet_identifier,
        ),
    decreases calls.len(),
{
    if calls.len() > 0 {
        let rest = calls.drop_first();
        lemma_own_calls(rest, packet_identifier);
        if concerns(calls[0], packet_identifier) {
            let own = calls_for(calls, packet_identifier);
            assert(own.drop_first() =~= calls_for(rest, packet_identifier));
            assert(own[0] == calls[0]);
        }
    }
}

} // verus!
