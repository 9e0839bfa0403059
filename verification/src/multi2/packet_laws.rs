//! What descrambling does with a packet and with a batch, in terms of the
//! packets' bytes.

use vstd::prelude::*;

use crate::descramble::DescrambleDispositionCounts;
use crate::multi2::packet;
use crate::multi2::{CipherState, ScrambleKey, TsAction};
use crate::ts::header;

verus! {

proof fn lemma_control_bits(b3: u8)
    ensures
        b3 as int / 16 % 4 >= 2 <==> b3 as int / 32 % 2 == 1,
        b3 as int / 16 % 4 % 2 == 1 <==> b3 as int / 16 % 2 == 1,
{
    assert((b3 / 16 % 4 >= 2) == (b3 / 32 % 2 == 1) && (b3 / 16 % 4 % 2 == 1) == (b3 / 16 % 2 == 1))
        by (bit_vector);
}

/// A packet is passed over for a transport error if and only if the top bit of
/// byte 1 is set, whatever else is in it.
pub proof fn law_only_the_top_bit_is_a_transport_error(pkt: Seq<u8>)
    ensures
        packet::ts_action(pkt) == TsAction::TransportError <==> pkt[1] >= 0x80,
{
}

/// Every packet without a transport error that has a non-zero scrambling control
/// and a payload of at least one byte is decrypted, whatever its identifier, and
/// no other packet is.
pub proof fn law_scrambled_payloads_are_decrypted(pkt: Seq<u8>)
    requires
        pkt.len() == 188,
    ensures
        packet::ts_action(pkt) == TsAction::Decrypted <==> {
            &&& pkt[1] < 0x80
            &&& pkt[3] >= 0x40
            &&& pkt[3] as int / 16 % 2 == 1
            &&& pkt[3] as int / 32 % 2 == 1 ==> pkt[4] <= 182
        },
{
    lemma_control_bits(pkt[3]);
}

/// A packet is broken if and only if it has no transport error and an adaptation
/// field that runs past the packet, or that fills it although a payload is
/// announced; scrambled or not.
pub proof fn law_only_bad_geometry_is_broken(pkt: Seq<u8>)
    requires
        pkt.len() == 188,
    ensures
        packet::ts_action(pkt) == TsAction::Broken <==> {
            &&& pkt[1] < 0x80
            &&& pkt[3] as int / 32 % 2 == 1
            &&& pkt[4] >= 184 || (pkt[4] == 183 && pkt[3] as int / 16 % 2 == 1)
        },
{
    lemma_control_bits(pkt[3]);
}

/// What is left of the packets is clear where its scrambling control is zero, and
/// has no payload where that is not zero.
pub proof fn law_the_rest_is_clear_or_without_payload(pkt: Seq<u8>)
    requires
        pkt.len() == 188,
        pkt[1] < 0x80,
        pkt[3] as int / 32 % 2 == 1 ==> pkt[4] <= 182 || (pkt[4] == 183 && pkt[3] as int / 16 % 2
            == 0),
    ensures
        packet::ts_action(pkt) == TsAction::Unscrambled <==> pkt[3] < 0x40,
        packet::ts_action(pkt) == TsAction::NoPayload <==> pkt[3] >= 0x40 && pkt[3] as int / 16 % 2
            == 0,
{
    lemma_control_bits(pkt[3]);
}

/// A decrypted packet, byte by byte: everything in front of the payload stays but
/// for the two scrambling-control bits, which become zero, and the payload is
/// decrypted under the even key if the scrambling control was two and under the
/// odd key if not.
pub proof fn law_decrypted_packet_by_bytes(state: CipherState, pkt: Seq<u8>)
    requires
        pkt.len() == 188,
        pkt[1] < 0x80,
        pkt[3] >= 0x40,
        pkt[3] as int / 16 % 2 == 1,
        pkt[3] as int / 32 % 2 == 1 ==> pkt[4] <= 182,
    ensures
        ({
            let start = if pkt[3] as int / 32 % 2 == 1 {
                5 + pkt[4]
            } else {
                4
            };
            let key = if 0x80 <= pkt[3] < 0xC0 {
                ScrambleKey::Even
            } else {
                ScrambleKey::Odd
            };
            let clear = packet::descrambled(state, pkt);
            &&& clear.len() == 188
            &&& clear[3] == pkt[3] as int % 64
            &&& forall|i: int|
                0 <= i < start && i != 3 ==> #[trigger] clear[i] == pkt[i]
            &&& clear.skip(start) == state.decrypted(key, pkt.skip(start))
        }),
{
    lemma_control_bits(pkt[3]);
    let start = header::payload_offset(pkt);
    packet::law_descrambling_preserves_the_header(state, pkt);
    let clear = packet::descrambled(state, pkt);
    let key = if 0x80 <= pkt[3] < 0xC0 {
        ScrambleKey::Even
    } else {
        ScrambleKey::Odd
    };
    assert(clear.skip(start) =~= state.decrypted(key, pkt.skip(start)));
}

/// A packet that is not decrypted stays as it is, but for the two
/// scrambling-control bits of one without a payload, which become zero.
pub proof fn law_other_packets_by_bytes(state: CipherState, pkt: Seq<u8>)
    requires
        pkt.len() == 188,
        packet::ts_action(pkt) != TsAction::Decrypted,
    ensures
        packet::descrambled(state, pkt).len() == 188,
        forall|i: int|
            0 <= i < 188 && i != 3 ==> #[trigger] packet::descrambled(state, pkt)[i] == pkt[i],
        packet::descrambled(state, pkt)[3] == if packet::ts_action(pkt) == TsAction::NoPayload {
            pkt[3] as int % 64
        } else {
            pkt[3] as int
        },
{
}

/// A key is lacking exactly where none is installed and the packet is a clean one
/// with a scrambled payload.
pub proof fn law_only_scrambled_payloads_need_a_key(state: CipherState, pkt: Seq<u8>)
    requires
        pkt.len() == 188,
    ensures
        packet::lacks_key(state, pkt) <==> {
            &&& !state.ready
            &&& pkt[1] < 0x80
            &&& pkt[3] >= 0x40
            &&& pkt[3] as int / 16 % 2 == 1
            &&& pkt[3] as int / 32 % 2 == 1 ==> pkt[4] <= 182
        },
{
    law_scrambled_payloads_are_decrypted(pkt);
}

/// A batch is cut into packets of 188 bytes from its first byte on, with less
/// than one packet left over.
pub proof fn law_batches_are_cut_every_188_bytes(bytes: Seq<u8>, i: int, j: int)
    requires
        0 <= i < packet::packet_count(bytes),
        0 <= j < 188,
    ensures
        packet::packet_count(bytes) * 188 <= bytes.len() < packet::packet_count(bytes) * 188 + 188,
        packet::packet_at(bytes, i).len() == 188,
        packet::packet_at(bytes, i)[j] == bytes[188 * i + j],
{
}

/// How many packets a batch has, also where it has none.
pub proof fn law_packet_count(bytes: Seq<u8>)
    ensures
        packet::packet_count(bytes) * 188 <= bytes.len() < packet::packet_count(bytes) * 188 + 188,
{
}

/// A batch stops at the first packet that lacks a key: none before it does, and
/// it does itself, unless all packets are behind.
pub proof fn law_batch_stops_at_the_first_lacking_packet(
    state: CipherState,
    bytes: Seq<u8>,
    from: int,
)
    requires
        0 <= from <= packet::packet_count(bytes),
    ensures
        ({
            let stop = packet::first_lacking_key(state, bytes, from);
            &&& from <= stop <= packet::packet_count(bytes)
            &&& forall|i: int|
                from <= i < stop ==> !packet::lacks_key(
                    state,
                    #[trigger] packet::packet_at(bytes, i),
                )
            &&& stop < packet::packet_count(bytes) ==> packet::lacks_key(
                state,
                packet::packet_at(bytes, stop),
            )
        }),
    decreases packet::packet_count(bytes) - from,
{
    if from < packet::packet_count(bytes) && !packet::lacks_key(
        state,
        packet::packet_at(bytes, from),
    ) {
        law_batch_stops_at_the_first_lacking_packet(state, bytes, from + 1);
    }
}

/// A batch keeps its length, and every byte behind the packets that are done.
pub proof fn law_bytes_behind_a_batch_stay(state: CipherState, bytes: Seq<u8>, done: int, j: int)
    requires
        0 <= done <= packet::packet_count(bytes),
        188 * done <= j < bytes.len(),
    ensures
        packet::batch_descrambled(state, bytes, done).len() == bytes.len(),
        packet::batch_descrambled(state, bytes, done)[j] == bytes[j],
{
}

/// Each packet adds one to the count of its own action and nothing to the others.
pub proof fn law_each_packet_is_counted_once(bytes: Seq<u8>, n: int, action: TsAction)
    requires
        0 <= n,
    ensures
        packet::action_count(bytes, 0, action) == 0,
        packet::action_count(bytes, n + 1, action) == packet::action_count(bytes, n, action) + (
        if packet::ts_action(packet::packet_at(bytes, n)) == action {
            1int
        } else {
            0int
        }),
{
}

/// The histogram has each count in its own field, and its fields add up to the
/// number of packets.
pub proof fn law_histogram_is_by_action(
    counts: DescrambleDispositionCounts,
    bytes: Seq<u8>,
    n: int,
)
    requires
        0 <= n,
        packet::counts_match(counts, bytes, n),
    ensures
        counts.decrypted == packet::action_count(bytes, n, TsAction::Decrypted),
        counts.unscrambled == packet::action_count(bytes, n, TsAction::Unscrambled),
        counts.no_payload == packet::action_count(bytes, n, TsAction::NoPayload),
        counts.transport_error == packet::action_count(bytes, n, TsAction::TransportError),
        counts.broken == packet::action_count(bytes, n, TsAction::Broken),
        counts.decrypted + counts.unscrambled + counts.no_payload + counts.transport_error
            + counts.broken == n,
{
    packet::law_actions_partition_the_batch(bytes, n);
}

} // verus!
