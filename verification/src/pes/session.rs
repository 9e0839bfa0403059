//! What an assembler promises over any sequence of calls.

use vstd::prelude::*;

use crate::pes::assembler;
use crate::pes::assembler::AssemblerState;
use crate::pes::laws;
use crate::pes::packet::{PesUnit, UnitInput};
use crate::pes::{PacketizedElementaryStreamError, PesResult};

verus! {

/// A call that changes an assembler.
pub enum Call {
    Append(UnitInput),
    Flush,
}

/// What a call returns.
pub enum Reply {
    Appended(PesResult<Seq<PesUnit>>),
    Flushed(PesResult<Option<PesUnit>>),
}

/// The outcome of one call.
pub open spec fn called(state: AssemblerState, call: Call) -> (AssemblerState, Reply) {
    match call {
        Call::Append(input) => {
            let (next, units) = assembler::appended(state, input);
            (next, Reply::Appended(units))
        },
        Call::Flush => (
            state.holding(Seq::empty()),
            Reply::Flushed(assembler::flushed(state)),
        ),
    }
}

/// The outcome of a sequence of calls: the state in the end, and all replies.
/// Errors do not end a session.
pub open spec fn session(state: AssemblerState, calls: Seq<Call>) -> (AssemblerState, Seq<Reply>)
    decreases calls.len(),
{
    if calls.len() == 0 {
        (state, Seq::empty())
    } else {
        let (next, reply) = called(state, calls[0]);
        let (last, replies) = session(next, calls.drop_first());
        (last, seq![reply] + replies)
    }
}

/// How many gaps a session meets.
pub open spec fn gaps(state: AssemblerState, calls: Seq<Call>) -> nat
    decreases calls.len(),
{
    if calls.len() == 0 {
        0
    } else {
        let first = match calls[0] {
            Call::Append(input) => assembler::continuity_gap(state, input),
            Call::Flush => false,
        };
        gaps(called(state, calls[0]).0, calls.drop_first()) + if first {
            1nat
        } else {
            0
        }
    }
}

/// How many gaps of a session discard a packet in progress.
pub open spec fn discards(state: AssemblerState, calls: Seq<Call>) -> nat
    decreases calls.len(),
{
    if calls.len() == 0 {
        0
    } else {
        let first = match calls[0] {
            Call::Append(input) => assembler::gap_discards(state, input),
            Call::Flush => false,
        };
        discards(called(state, calls[0]).0, calls.drop_first()) + if first {
            1nat
        } else {
            0
        }
    }
}

/// The gap count is the number of gaps met, over any session that the counter
/// can hold.
pub proof fn law_gap_count_counts_gaps(state: AssemblerState, calls: Seq<Call>)
    requires
        state.continuity_gap_count + gaps(state, calls) <= u64::MAX,
    ensures
        session(state, calls).0.continuity_gap_count == state.continuity_gap_count + gaps(
            state,
            calls,
        ),
    decreases calls.len(),
{
    if calls.len() > 0 {
        law_gap_count_counts_gaps(called(state, calls[0]).0, calls.drop_first());
    }
}

/// The drop count is the number of gaps that discarded a packet in progress,
/// over any session that the counter can hold.
pub proof fn law_drop_count_counts_discards(state: AssemblerState, calls: Seq<Call>)
    requires
        state.continuity_drop_count + discards(state, calls) <= u64::MAX,
    ensures
        session(state, calls).0.continuity_drop_count == state.continuity_drop_count + discards(
            state,
            calls,
        ),
    decreases calls.len(),
{
    if calls.len() > 0 {
        law_drop_count_counts_discards(called(state, calls[0]).0, calls.drop_first());
    }
}

/// States that agree in everything but the counts of gaps and drops go through
/// any session alike.
pub proof fn law_alike_states_reply_alike(a: AssemblerState, b: AssemblerState, calls: Seq<Call>)
    requires
        laws::alike(a, b),
    ensures
        session(a, calls).1 == session(b, calls).1,
        laws::alike(session(a, calls).0, session(b, calls).0),
        gaps(a, calls) == gaps(b, calls),
        discards(a, calls) == discards(b, calls),
    decreases calls.len(),
{
    if calls.len() > 0 {
        if let Call::Append(input) = calls[0] {
            laws::law_counts_have_no_say(a, b, input);
        }
        law_alike_states_reply_alike(
            called(a, calls[0]).0,
            called(b, calls[0]).0,
            calls.drop_first(),
        );
    }
}

/// After any error the assembler behaves like a fresh one for good: every
/// session of appends and flushes gets the replies that a fresh assembler gives
/// and ends alike, with the counts of gaps and drops running on from where they
/// were.
pub proof fn law_errors_reset_the_assembler(
    state: AssemblerState,
    input: UnitInput,
    calls: Seq<Call>,
)
    requires
        assembler::appended(state, input).1 is Err,
    ensures
        ({
            let next = assembler::appended(state, input).0;
            let fresh = AssemblerState::initial(state.packet_identifier, state.maximum);
            &&& laws::alike(next, fresh)
            &&& session(next, calls).1 == session(fresh, calls).1
            &&& laws::alike(session(next, calls).0, session(fresh, calls).0)
            &&& gaps(next, calls) == gaps(fresh, calls)
            &&& discards(next, calls) == discards(fresh, calls)
            &&& next.continuity_gap_count + gaps(fresh, calls) <= u64::MAX ==> session(
                next,
                calls,
            ).0.continuity_gap_count == next.continuity_gap_count + session(
                fresh,
                calls,
            ).0.continuity_gap_count
            &&& next.continuity_drop_count + discards(fresh, calls) <= u64::MAX ==> session(
                next,
                calls,
            ).0.continuity_drop_count == next.continuity_drop_count + session(
                fresh,
                calls,
            ).0.continuity_drop_count
        }),
{
    let next = assembler::appended(state, input).0;
    let fresh = AssemblerState::initial(state.packet_identifier, state.maximum);
    assert(next.buffered =~= fresh.buffered);
    law_alike_states_reply_alike(next, fresh, calls);
    if next.continuity_gap_count + gaps(fresh, calls) <= u64::MAX {
        law_gap_count_counts_gaps(next, calls);
        law_gap_count_counts_gaps(fresh, calls);
    }
    if next.continuity_drop_count + discards(fresh, calls) <= u64::MAX {
        law_drop_count_counts_discards(next, calls);
        law_drop_count_counts_discards(fresh, calls);
    }
}

/// With no packet in progress, as in a fresh assembler or after an error,
/// nothing comes out before the next unit start: clean packets are passed over
/// and there is nothing to flush.
pub proof fn law_nothing_comes_out_before_a_unit_start(
    state: AssemblerState,
    inputs: Seq<UnitInput>,
)
    requires
        state.buffered.len() == 0,
        forall|k: int|
            0 <= k < inputs.len() ==> {
                let input = #[trigger] inputs[k];
                &&& !input.payload_unit_start_indicator
                &&& !input.transport_error_indicator
                &&& input.scrambling_control == 0
            },
    ensures
        laws::fed(state, inputs).1 == Ok::<Seq<PesUnit>, PacketizedElementaryStreamError>(
            Seq::empty(),
        ),
        laws::fed(state, inputs).0.buffered.len() == 0,
        laws::fed(state, inputs).0.continuity_drop_count == state.continuity_drop_count,
        assembler::flushed(laws::fed(state, inputs).0) == Ok::<
            Option<PesUnit>,
            PacketizedElementaryStreamError,
        >(None),
    decreases inputs.len(),
{
    if inputs.len() > 0 {
        let next = assembler::appended(state, inputs[0]).0;
        assert forall|k: int| 0 <= k < inputs.drop_first().len() implies {
            let input = #[trigger] inputs.drop_first()[k];
            &&& !input.payload_unit_start_indicator
            &&& !input.transport_error_indicator
            &&& input.scrambling_control == 0
        } by {
            assert(inputs.drop_first()[k] == inputs[k + 1]);
        }
        law_nothing_comes_out_before_a_unit_start(next, inputs.drop_first());
        assert(Seq::<PesUnit>::empty() + Seq::<PesUnit>::empty() =~= Seq::empty());
    }
}

/// A fresh assembler, or one after an error, is in step with any packet: no
/// first counter makes a gap or a duplicate.
pub proof fn law_any_first_counter_is_accepted(state: AssemblerState, input: UnitInput)
    requires
        state.last_continuity_counter is None,
    ensures
        !assembler::continuity_gap(state, input),
        !assembler::is_duplicate(state, input),
{
}

} // verus!
