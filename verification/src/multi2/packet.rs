//! Descrambling transport packets, one at a time and in batches.

use vstd::prelude::*;

use crate::descramble::DescrambleDispositionCounts;
use crate::multi2;
use crate::multi2::{CipherState, Multi2, Multi2Error, ScrambleKey, TsAction, TS_PACKET_LEN};
use crate::ts::header;

verus! {

/// Whether the adaptation field leaves no room for what the header announces:
/// it runs past the packet end, or up to it although a payload should follow.
pub open spec fn broken_geometry(pkt: Seq<u8>) -> bool {
    header::payload_offset(pkt) > pkt.len() || (header::has_payload(pkt) && header::payload_offset(
        pkt,
    ) == pkt.len())
}

/// What is done with a packet, from its header alone. A transport error comes
/// before everything else, and broken geometry before the scrambling control.
pub open spec fn ts_action(pkt: Seq<u8>) -> TsAction {
    if header::transport_error(pkt) {
        TsAction::TransportError
    } else if broken_geometry(pkt) {
        TsAction::Broken
    } else if header::scrambling_control(pkt) == 0 {
        TsAction::Unscrambled
    } else if !header::has_payload(pkt) {
        TsAction::NoPayload
    } else {
        TsAction::Decrypted
    }
}

/// The packet with its two scrambling-control bits cleared.
pub open spec fn tsc_cleared(pkt: Seq<u8>) -> Seq<u8> {
    pkt.update(3, (pkt[3] as int % 64) as u8)
}

/// The packet after descrambling: its payload decrypted under the key that the
/// scrambling control selects and those bits cleared; only the bits cleared
/// where there is no payload; otherwise verbatim.
pub open spec fn descrambled(state: CipherState, pkt: Seq<u8>) -> Seq<u8> {
    match ts_action(pkt) {
        TsAction::Decrypted => {
            let offset = header::payload_offset(pkt);
            let key = multi2::key_of_tsc(header::scrambling_control(pkt));
            tsc_cleared(pkt).take(offset) + state.decrypted(key, pkt.skip(offset))
        },
        TsAction::NoPayload => tsc_cleared(pkt),
        _ => pkt,
    }
}

/// Whether a packet needs a scramble key that is not there.
pub open spec fn lacks_key(state: CipherState, pkt: Seq<u8>) -> bool {
    !state.ready && ts_action(pkt) == TsAction::Decrypted
}

/// How many whole packets `bytes` holds.
pub open spec fn packet_count(bytes: Seq<u8>) -> int {
    bytes.len() as int / TS_PACKET_LEN as int
}

/// Packet number `i` of `bytes`.
pub open spec fn packet_at(bytes: Seq<u8>, i: int) -> Seq<u8> {
    bytes.subrange(i * TS_PACKET_LEN, i * TS_PACKET_LEN + TS_PACKET_LEN)
}

/// The number of the first packet, from number `from` on, that needs a scramble
/// key that is not there; the number of packets where there is none.
pub open spec fn first_lacking_key(state: CipherState, bytes: Seq<u8>, from: int) -> int
    decreases packet_count(bytes) - from,
{
    if from >= packet_count(bytes) {
        packet_count(bytes)
    } else if lacks_key(state, packet_at(bytes, from)) {
        from
    } else {
        first_lacking_key(state, bytes, from + 1)
    }
}

/// `bytes` with its first `done` packets descrambled, each on its own.
pub open spec fn batch_descrambled(state: CipherState, bytes: Seq<u8>, done: int) -> Seq<u8> {
    Seq::new(
        bytes.len(),
        |j: int|
            if j < done * TS_PACKET_LEN {
                descrambled(state, packet_at(bytes, j / TS_PACKET_LEN as int))[j
                    % TS_PACKET_LEN as int]
            } else {
                bytes[j]
            },
    )
}

/// How many of the first `n` packets of `bytes` get the given action.
pub open spec fn action_count(bytes: Seq<u8>, n: int, action: TsAction) -> nat
    decreases n,
{
    if n <= 0 {
        0
    } else {
        action_count(bytes, n - 1, action) + if ts_action(packet_at(bytes, n - 1)) == action {
            1nat
        } else {
            0
        }
    }
}

/// The histogram over the first `n` packets of `bytes`.
pub open spec fn counts_match(
    counts: DescrambleDispositionCounts,
    bytes: Seq<u8>,
    n: int,
) -> bool {
    &&& counts.decrypted == action_count(bytes, n, TsAction::Decrypted)
    &&& counts.unscrambled == action_count(bytes, n, TsAction::Unscrambled)
    &&& counts.no_payload == action_count(bytes, n, TsAction::NoPayload)
    &&& counts.transport_error == action_count(bytes, n, TsAction::TransportError)
    &&& counts.broken == action_count(bytes, n, TsAction::Broken)
}

/// Every packet gets exactly one action, so the five counts add up to the
/// number of packets.
pub proof fn law_actions_partition_the_batch(bytes: Seq<u8>, n: int)
    requires
        0 <= n,
    ensures
        action_count(bytes, n, TsAction::Decrypted) + action_count(bytes, n, TsAction::Unscrambled)
            + action_count(bytes, n, TsAction::NoPayload) + action_count(
            bytes,
            n,
            TsAction::TransportError,
        ) + action_count(bytes, n, TsAction::Broken) == n,
    decreases n,
{
    if n > 0 {
        law_actions_partition_the_batch(bytes, n - 1);
    }
}

/// Descrambling keeps a packet's length, its header but for the two
/// scrambling-control bits, and its adaptation field.
pub proof fn law_descrambling_preserves_the_header(state: CipherState, pkt: Seq<u8>)
    requires
        pkt.len() == TS_PACKET_LEN,
    ensures
        descrambled(state, pkt).len() == TS_PACKET_LEN,
        forall|i: int|
            0 <= i < header::payload_offset(pkt) && i < TS_PACKET_LEN && i != 3
                ==> #[trigger] descrambled(state, pkt)[i] == pkt[i],
        descrambled(state, pkt)[3] as int % 64 == pkt[3] as int % 64,
{
    let offset = header::payload_offset(pkt);
    if ts_action(pkt) == TsAction::Decrypted {
        multi2::cbc::law_cbc_preserves_length(
            pkt.skip(offset),
            state.iv,
            state.work_key(multi2::key_of_tsc(header::scrambling_control(pkt))),
            state.round as nat,
        );
    }
}

/// A packet whose payload was decrypted or whose scrambling-control bits were
/// cleared is seen as clear from then on, and a second pass over any packet
/// changes nothing.
pub proof fn law_descrambling_is_idempotent(state: CipherState, pkt: Seq<u8>)
    requires
        pkt.len() == TS_PACKET_LEN,
    ensures
        ts_action(pkt) == TsAction::Decrypted || ts_action(pkt) == TsAction::NoPayload
            ==> ts_action(descrambled(state, pkt)) == TsAction::Unscrambled,
        descrambled(state, descrambled(state, pkt)) == descrambled(state, pkt),
{
    law_descrambling_preserves_the_header(state, pkt);
    let clear = descrambled(state, pkt);
    if ts_action(pkt) == TsAction::Decrypted || ts_action(pkt) == TsAction::NoPayload {
        assert(clear[3] as int / 64 == 0);
        assert(clear[3] as int / 16 % 4 == pkt[3] as int / 16 % 4) by {
            lemma_low_bits_decide(clear[3], pkt[3]);
        }
        assert(clear[1] == pkt[1]);
        if header::has_adaptation_field(pkt) {
            assert(clear[4] == pkt[4]);
        }
    }
}

proof fn lemma_low_bits_decide(a: u8, b: u8)
    requires
        a as int % 64 == b as int % 64,
    ensures
        a as int / 16 % 4 == b as int / 16 % 4,
{
    assert(a % 64 == b % 64 ==> a / 16 % 4 == b / 16 % 4) by (bit_vector);
}

/// `pkt`, a clear packet, as a broadcaster scrambles it: the payload encrypted
/// under the key that `tsc` selects, and `tsc` written into byte 3.
pub open spec fn scrambled(state: CipherState, pkt: Seq<u8>, tsc: int) -> Seq<u8> {
    let offset = header::payload_offset(pkt);
    pkt.update(3, (pkt[3] as int % 64 + 64 * tsc) as u8).take(offset) + state.encrypted(
        multi2::key_of_tsc(tsc),
        pkt.skip(offset),
    )
}

/// What a broadcaster scrambled, descrambling restores: for every clear packet
/// with a payload, every scrambling-control value and every key.
pub proof fn law_descrambling_undoes_scrambling(state: CipherState, pkt: Seq<u8>, tsc: int)
    requires
        pkt.len() == TS_PACKET_LEN,
        ts_action(pkt) == TsAction::Unscrambled,
        header::has_payload(pkt),
        1 <= tsc <= 3,
    ensures
        ts_action(scrambled(state, pkt, tsc)) == TsAction::Decrypted,
        descrambled(state, scrambled(state, pkt, tsc)) == pkt,
{
    let offset = header::payload_offset(pkt);
    let key = multi2::key_of_tsc(tsc);
    let w = state.work_key(key);
    let coded = scrambled(state, pkt, tsc);
    multi2::cbc::law_cbc_preserves_length(pkt.skip(offset), state.iv, w, state.round as nat);
    multi2::cbc::law_cbc_round_trip(pkt.skip(offset), state.iv, w, state.round as nat);
    assert(coded.len() == TS_PACKET_LEN);
    assert(coded[3] as int % 64 == pkt[3] as int % 64);
    assert(coded[3] as int / 64 == tsc);
    lemma_low_bits_decide(coded[3], pkt[3]);
    assert(coded[1] == pkt[1]);
    if header::has_adaptation_field(pkt) {
        assert(coded[4] == pkt[4]);
    }
    assert(header::payload_offset(coded) == offset);
    assert(coded.skip(offset) =~= state.encrypted(key, pkt.skip(offset)));
    assert(descrambled(state, coded) =~= pkt);
}

/// Every packet of a batch comes out exactly as it would on its own, up to the
/// first one that lacks a key; that one and those behind it stay as they were.
/// While a scramble key is installed no packet lacks one, so none stops a batch.
pub proof fn law_batch_packets_are_independent(state: CipherState, bytes: Seq<u8>, i: int)
    requires
        0 <= i < packet_count(bytes),
    ensures
        state.ready ==> first_lacking_key(state, bytes, 0) == packet_count(bytes),
        ({
            let done = first_lacking_key(state, bytes, 0);
            packet_at(batch_descrambled(state, bytes, done), i) == if i < done {
                descrambled(state, packet_at(bytes, i))
            } else {
                packet_at(bytes, i)
            }
        }),
{
    lemma_first_lacking_key(state, bytes, 0);
    law_descrambling_preserves_the_header(state, packet_at(bytes, i));
    let done = first_lacking_key(state, bytes, 0);
    let out = batch_descrambled(state, bytes, done);
    if i < done {
        assert(packet_at(out, i) =~= descrambled(state, packet_at(bytes, i)));
    } else {
        assert(packet_at(out, i) =~= packet_at(bytes, i));
    }
}

/// The first packet that lacks a key is one of the packets, or behind them all;
/// with a key installed it is behind them all.
proof fn lemma_first_lacking_key(state: CipherState, bytes: Seq<u8>, from: int)
    requires
        0 <= from <= packet_count(bytes),
    ensures
        from <= first_lacking_key(state, bytes, from) <= packet_count(bytes),
        state.ready ==> first_lacking_key(state, bytes, from) == packet_count(bytes),
    decreases packet_count(bytes) - from,
{
    if from < packet_count(bytes) {
        lemma_first_lacking_key(state, bytes, from + 1);
    }
}

impl Multi2 {
    /// Descrambles one 188-byte packet in place.
    ///
    /// - The caller presents a sync-aligned packet; byte 0 is not checked here.
    /// - A set transport-error indicator passes the packet through verbatim.
    /// - Broken geometry leaves it untouched, scrambled or not.
    /// - Scrambling control 0 passes it through; otherwise the payload is
    ///   decrypted with [`ScrambleKey::from_tsc`] and both control bits are
    ///   cleared. With no payload only the bits are cleared.
    ///
    /// Only a packet that has to be decrypted needs a scramble key; without one
    /// it is left as it was and [`Multi2Error::UnsetScrambleKey`] is returned.
    pub fn descramble_ts_packet(&self, pkt: &mut [u8; 188]) -> (action: Result<
        TsAction,
        Multi2Error,
    >)
        ensures
            action == (if lacks_key(self@, old(pkt)@) {
                Err::<TsAction, Multi2Error>(Multi2Error::UnsetScrambleKey)
            } else {
                Ok(ts_action(old(pkt)@))
            }),
            final(pkt)@ == (if lacks_key(self@, old(pkt)@) {
                old(pkt)@
            } else {
                descrambled(self@, old(pkt)@)
            }),
    {
        self.descramble_slice(pkt)
    }

    /// [`Multi2::descramble_ts_packet`] for a packet inside a larger buffer.
    fn descramble_slice(&self, pkt: &mut [u8]) -> (action: Result<TsAction, Multi2Error>)
        requires
            old(pkt)@.len() == TS_PACKET_LEN,
        ensures
            action == (if lacks_key(self@, old(pkt)@) {
                Err::<TsAction, Multi2Error>(Multi2Error::UnsetScrambleKey)
            } else {
                Ok(ts_action(old(pkt)@))
            }),
            final(pkt)@ == (if lacks_key(self@, old(pkt)@) {
                old(pkt)@
            } else {
                descrambled(self@, old(pkt)@)
            }),
    {
        let ghost before = pkt@;
        proof {
            header::lemma_header_bits(pkt[1], pkt[2], pkt[3]);
        }
        let tsc: u8 = pkt[3] >> 6;
        let afc: u8 = (pkt[3] >> 4) & 0x03;
        if pkt[1] & 0x80 != 0 {
            return Ok(TsAction::TransportError);
        }
        let offset: usize = if afc & 0x02 != 0 {
            5 + pkt[4] as usize
        } else {
            4
        };
        if offset > TS_PACKET_LEN || (afc & 0x01 != 0 && offset == TS_PACKET_LEN) {
            return Ok(TsAction::Broken);
        }
        if tsc == 0 {
            return Ok(TsAction::Unscrambled);
        }
        if afc & 0x01 == 0 {
            pkt[3] = pkt[3] & 0x3F;
            return Ok(TsAction::NoPayload);
        }
        let (_, payload) = pkt.split_at_mut(offset);
        self.decrypt_cbc(ScrambleKey::from_tsc(tsc), payload)?;
        pkt[3] = pkt[3] & 0x3F;
        Ok(TsAction::Decrypted)
    }

    /// Descrambles each packet of a batch on its own. A packet that is clear,
    /// damaged or adaptation-only is left as its disposition says and does
    /// **not** stop the rest. Returns the disposition histogram. Bytes behind
    /// the last whole packet are not touched.
    ///
    /// Without a scramble key the batch stops at the first packet that has to
    /// be decrypted; the packets before it are already done.
    pub fn descramble_ts_packets(&self, packets: &mut [u8]) -> (counts: Result<
        DescrambleDispositionCounts,
        Multi2Error,
    >)
        ensures
            match counts {
                Ok(counts) => {
                    &&& old(packets)@.len() > 0
                    &&& first_lacking_key(self@, old(packets)@, 0) == packet_count(old(packets)@)
                    &&& counts_match(counts, old(packets)@, packet_count(old(packets)@))
                },
                Err(Multi2Error::EmptyBuffer) => old(packets)@.len() == 0,
                Err(Multi2Error::UnsetScrambleKey) => first_lacking_key(self@, old(packets)@, 0)
                    < packet_count(old(packets)@),
            },
            final(packets)@ == batch_descrambled(
                self@,
                old(packets)@,
                first_lacking_key(self@, old(packets)@, 0),
            ),
    {
        let ghost before = packets@;
        let ghost state = self@;
        let len: usize = packets.len();
        if packets.is_empty() {
            assert(packets@ =~= batch_descrambled(state, before, 0));
            return Err(Multi2Error::EmptyBuffer);
        }
        let mut counts = DescrambleDispositionCounts::default();
        let mut done: usize = 0;
        let total: usize = len / TS_PACKET_LEN;
        assert(packets@ =~= batch_descrambled(state, before, 0));
        while done < total
            invariant
                state == self@,
                before == old(packets)@,
                len == before.len() > 0,
                done <= total == packet_count(before),
                packets@ == batch_descrambled(state, before, done as int),
                first_lacking_key(state, before, 0) == first_lacking_key(
                    state,
                    before,
                    done as int,
                ),
                counts_match(counts, before, done as int),
            decreases total - done,
        {
            let start: usize = done * TS_PACKET_LEN;
            let (_, rest) = packets.split_at_mut(start);
            let (packet, _) = rest.split_at_mut(TS_PACKET_LEN);
            proof {
                assert(packet@ =~= packet_at(before, done as int));
                law_actions_partition_the_batch(before, done as int);
                law_descrambling_preserves_the_header(state, packet@);
            }
            let action = self.descramble_slice(packet);
            proof {
                assert(packets@.len() == len);
                assert forall|j: int| 0 <= j < len implies #[trigger] packets@[j]
                    == batch_descrambled(
                    state,
                    before,
                    if lacks_key(state, packet_at(before, done as int)) {
                        done as int
                    } else {
                        done + 1
                    },
                )[j] by {
                    if start <= j < start + TS_PACKET_LEN {
                        assert(j / TS_PACKET_LEN as int == done);
                        assert(j % TS_PACKET_LEN as int == j - start);
                    }
                }
            }
            match action? {
                TsAction::Decrypted => counts.decrypted = counts.decrypted + 1,
                TsAction::Unscrambled => counts.unscrambled = counts.unscrambled + 1,
                TsAction::NoPayload => counts.no_payload = counts.no_payload + 1,
                TsAction::TransportError => counts.transport_error = counts.transport_error + 1,
                TsAction::Broken => counts.broken = counts.broken + 1,
            }
            done = done + 1;
        }
        Ok(counts)
    }
}

} // verus!
