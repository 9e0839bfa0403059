//! What decoding a packet and framing a stream give, in terms of the bytes.

use vstd::prelude::*;

use crate::ts;
use crate::ts::framer;
use crate::ts::{PacketFields, TransportStreamPacket, TransportStreamPacketError};

verus! {

/// The header bytes are put together from the decoded fields: nothing of them is
/// lost, and nothing else has a say in the fields.
pub proof fn law_fields_spell_the_header(bytes: Seq<u8>)
    ensures
        ({
            let fields = ts::packet_fields(bytes);
            let error = if fields.transport_error_indicator {
                0x80int
            } else {
                0
            };
            let start = if fields.payload_unit_start_indicator {
                0x40int
            } else {
                0
            };
            let priority = if fields.transport_priority {
                0x20int
            } else {
                0
            };
            let adaptation = if fields.has_adaptation_field {
                0x20int
            } else {
                0
            };
            let payload = if fields.has_payload {
                0x10int
            } else {
                0
            };
            &&& fields.packet_identifier < 0x2000
            &&& fields.scrambling_control < 4
            &&& fields.continuity_counter < 16
            &&& bytes[1] == error + start + priority + fields.packet_identifier as int / 0x100
            &&& bytes[2] == fields.packet_identifier as int % 0x100
            &&& bytes[3] == fields.scrambling_control * 0x40 + adaptation + payload
                + fields.continuity_counter
        }),
{
    let b1 = bytes[1];
    let b3 = bytes[3];
    assert(b1 == b1 / 128 * 128 + b1 / 64 % 2 * 64 + b1 / 32 % 2 * 32 + b1 % 32 && b1 / 128 < 2
        && b1 % 32 < 32) by (bit_vector);
    assert(b3 == b3 / 64 * 64 + b3 / 32 % 2 * 32 + b3 / 16 % 2 * 16 + b3 % 16 && (b3 / 16 % 4 >= 2)
        == (b3 / 32 % 2 == 1) && (b3 / 16 % 4 % 2 == 1) == (b3 / 16 % 2 == 1)) by (bit_vector);
}

/// The payload is everything behind the four header bytes, or behind the
/// adaptation field with its length byte; a packet that announces none has none.
pub proof fn law_payload_is_what_follows(bytes: Seq<u8>)
    requires
        ts::packet_defect(bytes) is None,
    ensures
        ({
            let fields = ts::packet_fields(bytes);
            let start = if bytes[3] as int / 32 % 2 == 1 {
                5 + bytes[4]
            } else {
                4
            };
            &&& start <= 188
            &&& fields.payload == if bytes[3] as int / 16 % 2 == 1 {
                bytes.subrange(start, 188)
            } else {
                Seq::empty()
            }
        }),
{
    let b3 = bytes[3];
    assert((b3 / 16 % 4 >= 2) == (b3 / 32 % 2 == 1) && (b3 / 16 % 4 % 2 == 1) == (b3 / 16 % 2 == 1)
        && (b3 / 16 % 4 == 0) == (b3 / 32 % 2 == 0 && b3 / 16 % 2 == 0)) by (bit_vector);
    let start = if bytes[3] as int / 32 % 2 == 1 {
        5 + bytes[4]
    } else {
        4
    };
    assert(bytes.skip(start) =~= bytes.subrange(start, 188));
}

/// Which bytes decode, and what is wrong with those that do not: the length comes
/// first, the sync byte next, then the two reserved bits, then an adaptation field
/// of more than 183 bytes.
pub proof fn law_defects_by_bytes(bytes: Seq<u8>)
    requires
        bytes.len() <= usize::MAX,
    ensures
        ts::packet_defect(bytes) is None <==> {
            &&& bytes.len() == 188
            &&& bytes[0] == 0x47
            &&& bytes[3] as int / 32 % 2 == 1 || bytes[3] as int / 16 % 2 == 1
            &&& bytes[3] as int / 32 % 2 == 1 ==> bytes[4] <= 183
        },
        bytes.len() != 188 ==> (ts::packet_defect(bytes) matches Some(
            TransportStreamPacketError::InvalidPacketLength(length),
        ) && length == bytes.len()),
        bytes.len() == 188 && bytes[0] != 0x47 ==> ts::packet_defect(bytes) == Some(
            TransportStreamPacketError::InvalidSyncByte(bytes[0]),
        ),
        bytes.len() == 188 && bytes[0] == 0x47 && bytes[3] as int / 32 % 2 == 0 && bytes[3] as int
            / 16 % 2 == 0 ==> ts::packet_defect(bytes) == Some(
            TransportStreamPacketError::ReservedAdaptationFieldControl,
        ),
        bytes.len() == 188 && bytes[0] == 0x47 && bytes[3] as int / 32 % 2 == 1 && bytes[4] > 183
            ==> (ts::packet_defect(bytes) matches Some(
            TransportStreamPacketError::AdaptationFieldTooLarge(length),
        ) && length == bytes[4]),
{
    let b3 = bytes[3];
    assert((b3 / 16 % 4 >= 2) == (b3 / 32 % 2 == 1) && (b3 / 16 % 4 == 0) == (b3 / 32 % 2 == 0 && b3
        / 16 % 2 == 0)) by (bit_vector);
}

/// The view of a decoded packet shows all of its fields.
pub proof fn law_view_shows_every_field(packet: TransportStreamPacket)
    ensures
        packet@.transport_error_indicator == packet.transport_error_indicator,
        packet@.payload_unit_start_indicator == packet.payload_unit_start_indicator,
        packet@.transport_priority == packet.transport_priority,
        packet@.packet_identifier == packet.packet_identifier,
        packet@.scrambling_control == packet.scrambling_control,
        packet@.continuity_counter == packet.continuity_counter,
        packet@.has_adaptation_field == packet.has_adaptation_field,
        packet@.has_payload == packet.has_payload,
        packet@.payload == packet.payload@,
{
}

/// The fields of a run of packets are the packets' fields, one for one.
pub proof fn law_fields_are_one_for_one(packets: Seq<TransportStreamPacket>, i: int)
    requires
        0 <= i < packets.len(),
    ensures
        framer::fields_of(packets).len() == packets.len(),
        framer::fields_of(packets)[i] == packets[i]@,
{
}

/// A run of no packets has no fields.
pub proof fn law_no_packets_have_no_fields(packets: Seq<TransportStreamPacket>)
    ensures
        framer::fields_of(packets).len() == packets.len(),
{
}

/// A packet is taken to start where a sync byte is confirmed by another one 188
/// bytes on, or where exactly one packet is buffered and starts with one.
pub proof fn law_starts_are_confirmed_sync_bytes(buffer: Seq<u8>, offset: int)
    ensures
        framer::is_packet_start(buffer, offset) <==> {
            &&& 0 <= offset < buffer.len()
            &&& buffer[offset] == 0x47
            &&& (offset == 0 && buffer.len() == 188) || (offset + 188 < buffer.len()
                && buffer[offset + 188] == 0x47)
        },
{
}

/// Less than a packet is held as it is.
pub proof fn law_less_than_a_packet_is_held(buffer: Seq<u8>)
    requires
        buffer.len() < 188,
    ensures
        framer::drained(buffer) == (Seq::<PacketFields>::empty(), buffer),
{
}

/// Where a packet or more is buffered and no packet start is found, nothing comes
/// out, and what stays begins with the last sync byte of the buffer: it is empty
/// only if there is none, and it holds no further one.
pub proof fn law_what_stays_begins_with_the_last_sync_byte(buffer: Seq<u8>)
    requires
        buffer.len() >= 188,
        forall|offset: int|
            0 <= offset < buffer.len() - 188 && #[trigger] buffer[offset] == 0x47 ==> buffer[offset
                + 188] != 0x47,
        buffer.len() == 188 ==> buffer[0] != 0x47,
    ensures
        ({
            let (packets, kept) = framer::drained(buffer);
            let start = buffer.len() - kept.len();
            &&& packets.len() == 0
            &&& 0 <= start
            &&& kept == buffer.subrange(start, buffer.len() as int)
            &&& kept.len() > 0 ==> kept[0] == 0x47
            &&& kept.len() == 0 ==> forall|j: int| 0 <= j < buffer.len() ==> buffer[j] != 0x47
            &&& forall|j: int| start < j < buffer.len() ==> buffer[j] != 0x47
        }),
{
    framer::law_first_packet_start(buffer, 0);
    assert(framer::first_packet_start(buffer, 0) is None) by {
        if let Some(start) = framer::first_packet_start(buffer, 0) {
            law_starts_are_confirmed_sync_bytes(buffer, start);
            assert(buffer[start] == 0x47);
        }
    }
    lemma_last_sync_byte(buffer, buffer.len() as int);
    let start = framer::last_sync_byte(buffer, buffer.len() as int);
    assert(buffer.skip(start) =~= buffer.subrange(start, buffer.len() as int));
}

/// The last sync byte before `end` is one, and none lies between it and `end`.
proof fn lemma_last_sync_byte(buffer: Seq<u8>, end: int)
    requires
        0 <= end <= buffer.len(),
    ensures
        ({
            let found = framer::last_sync_byte(buffer, end);
            ||| 0 <= found < end && buffer[found] == 0x47 && forall|j: int|
                found < j < end ==> buffer[j] != 0x47
            ||| found == buffer.len() && forall|j: int| 0 <= j < end ==> buffer[j] != 0x47
        }),
    decreases end,
{
    if end > 0 && buffer[end - 1] != 0x47 {
        lemma_last_sync_byte(buffer, end - 1);
    }
}

/// Where the first packet start of a buffer is, the 188 bytes from there on are
/// decoded first, and the bytes behind them are drained in turn; what lies before
/// it is dropped.
pub proof fn law_packets_are_taken_in_order(buffer: Seq<u8>, start: int)
    requires
        framer::is_packet_start(buffer, start),
        forall|earlier: int| 0 <= earlier < start ==> !framer::is_packet_start(buffer, earlier),
    ensures
        ({
            let taken = buffer.subrange(start, start + 188);
            let (later, kept) = framer::drained(buffer.skip(start + 188));
            framer::drained(buffer) == (
                if ts::packet_defect(taken) is None {
                    seq![ts::packet_fields(taken)] + later
                } else {
                    later
                },
                kept,
            )
        }),
{
    framer::law_first_packet_start(buffer, 0);
    assert(framer::first_packet_start(buffer, 0) == Some(start)) by {
        match framer::first_packet_start(buffer, 0) {
            Some(found) => {
                if found < start {
                    assert(!framer::is_packet_start(buffer, found));
                } else if start < found {
                    assert(framer::is_packet_start(buffer, start));
                }
            },
            None => {
                assert(framer::is_packet_start(buffer, start));
            },
        }
    }
    let later = framer::drained(buffer.skip(start + 188)).0;
    assert(Seq::<PacketFields>::empty() + later =~= later);
}

/// A stream is aligned if and only if every 188th byte, from the first on, is a
/// sync byte.
pub proof fn law_alignment_is_a_sync_byte_every_188(stream: Seq<u8>)
    ensures
        framer::aligned(stream) <==> forall|i: int|
            0 <= i && i * 188 < stream.len() ==> #[trigger] stream[i * 188] == 0x47,
    decreases stream.len(),
{
    if stream.len() >= 188 {
        let rest = stream.skip(188);
        law_alignment_is_a_sync_byte_every_188(rest);
        if framer::aligned(stream) {
            assert forall|i: int|
                0 <= i && i * 188 < stream.len() implies #[trigger] stream[i * 188] == 0x47 by {
                if i > 0 {
                    assert(rest[(i - 1) * 188] == 0x47);
                    assert((i - 1) * 188 + 188 == i * 188);
                } else {
                    assert(i * 188 == 0);
                }
            }
        }
        if forall|i: int| 0 <= i && i * 188 < stream.len() ==> #[trigger] stream[i * 188] == 0x47 {
            assert(stream[0int * 188] == 0x47);
            assert forall|i: int| 0 <= i && i * 188 < rest.len() implies #[trigger] rest[i * 188]
                == 0x47 by {
                assert(stream[(i + 1) * 188] == 0x47);
                assert((i + 1) * 188 == i * 188 + 188);
            }
        }
    } else if stream.len() > 0 {
        if framer::aligned(stream) {
            assert forall|i: int|
                0 <= i && i * 188 < stream.len() implies #[trigger] stream[i * 188] == 0x47 by {
                assert(i == 0) by (nonlinear_arith)
                    requires
                        0 <= i,
                        i * 188 < 188,
                ;
            }
        } else {
            assert(stream[0int * 188] != 0x47);
        }
    }
}

/// What an aligned stream leaves over is less than a packet, from its end.
pub proof fn law_aligned_stream_leaves_its_end(stream: Seq<u8>)
    ensures
        ({
            let kept = framer::partial_packet(stream);
            &&& kept.len() == stream.len() % 188
            &&& kept == stream.skip(stream.len() - kept.len())
        }),
    decreases stream.len(),
{
    if stream.len() >= 188 {
        let rest = stream.skip(188);
        law_aligned_stream_leaves_its_end(rest);
        let kept = framer::partial_packet(rest);
        assert(rest.skip(rest.len() - kept.len()) =~= stream.skip(stream.len() - kept.len()));
    } else {
        assert(stream.skip(0) =~= stream);
    }
}

/// An aligned stream whose packets all decode drains into them one for one: the
/// packet that comes out as number i is the one in the bytes from 188 i on.
pub proof fn law_aligned_stream_yields_every_packet(stream: Seq<u8>, i: int)
    requires
        framer::aligned(stream),
        forall|k: int|
            0 <= k && k * 188 + 188 <= stream.len() ==> ts::packet_defect(
                #[trigger] stream.subrange(k * 188, k * 188 + 188),
            ) is None,
        0 <= i,
        i * 188 + 188 <= stream.len(),
    ensures
        framer::drained(stream).0.len() == stream.len() as int / 188,
        framer::drained(stream).0[i] == ts::packet_fields(stream.subrange(i * 188, i * 188 + 188)),
        framer::drained(stream).1.len() == stream.len() % 188,
{
    framer::law_aligned_stream_drains_completely(stream);
    law_aligned_stream_leaves_its_end(stream);
    lemma_every_packet(stream, i);
}

proof fn lemma_every_packet(stream: Seq<u8>, i: int)
    requires
        forall|k: int|
            0 <= k && k * 188 + 188 <= stream.len() ==> ts::packet_defect(
                #[trigger] stream.subrange(k * 188, k * 188 + 188),
            ) is None,
    ensures
        framer::all_decoded(stream).len() == stream.len() as int / 188,
        0 <= i && i * 188 + 188 <= stream.len() ==> framer::all_decoded(stream)[i]
            == ts::packet_fields(stream.subrange(i * 188, i * 188 + 188)),
    decreases stream.len(),
{
    if stream.len() >= 188 {
        let rest = stream.skip(188);
        assert forall|k: int| 0 <= k && k * 188 + 188 <= rest.len() implies ts::packet_defect(
            #[trigger] rest.subrange(k * 188, k * 188 + 188),
        ) is None by {
            let next = k + 1;
            assert(next * 188 == k * 188 + 188);
            assert(rest.subrange(k * 188, k * 188 + 188) =~= stream.subrange(
                next * 188,
                next * 188 + 188,
            ));
        }
        lemma_every_packet(rest, i - 1);
        let zero: int = 0;
        assert(stream.take(188) =~= stream.subrange(zero * 188, zero * 188 + 188));
        if i > 0 && i * 188 + 188 <= stream.len() {
            assert((i - 1) * 188 + 188 == i * 188);
            assert(rest.subrange((i - 1) * 188, (i - 1) * 188 + 188) =~= stream.subrange(
                i * 188,
                i * 188 + 188,
            ));
        }
    }
}

/// Garbage without a sync byte, then more than one packet of an aligned stream:
/// in a buffer of its own this drains to all of the stream.
proof fn lemma_garbage_in_front(garbage: Seq<u8>, stream: Seq<u8>)
    requires
        forall|j: int| 0 <= j < garbage.len() ==> garbage[j] != 0x47,
        framer::aligned(stream),
        stream.len() > 188,
    ensures
        framer::drained(garbage + stream) == (
            framer::all_decoded(stream),
            framer::partial_packet(stream),
        ),
{
    let input = garbage + stream;
    assert forall|offset: int| 0 <= offset < garbage.len() implies !framer::is_packet_start(
        input,
        offset,
    ) by {
        assert(input[offset] == garbage[offset]);
    }
    framer::law_leading_garbage_is_skipped(garbage, stream);
}

/// Garbage without a sync byte and then what has come of the first packet: either
/// all of it is held, or exactly what has come of the packet.
proof fn lemma_first_packet_is_held(garbage: Seq<u8>, begun: Seq<u8>)
    requires
        forall|j: int| 0 <= j < garbage.len() ==> garbage[j] != 0x47,
        begun.len() <= 188,
        begun.len() > 0 ==> begun[0] == 0x47,
        forall|j: int| 0 < j < begun.len() ==> begun[j] != 0x47,
        garbage.len() > 0 || begun.len() < 188,
    ensures
        ({
            let (packets, kept) = framer::drained(garbage + begun);
            &&& packets.len() == 0
            &&& kept == garbage + begun || kept == begun
        }),
{
    let buffer = garbage + begun;
    if buffer.len() >= 188 {
        assert forall|offset: int|
            0 <= offset < buffer.len() - 188 && #[trigger] buffer[offset]
                == 0x47 implies buffer[offset + 188] != 0x47 by {
            if offset < garbage.len() {
                assert(buffer[offset] == garbage[offset]);
            }
        }
        if garbage.len() > 0 {
            assert(buffer[0] == garbage[0]);
        }
        law_what_stays_begins_with_the_last_sync_byte(buffer);
        let kept = framer::drained(buffer).1;
        let start = buffer.len() - kept.len();
        if begun.len() > 0 {
            assert(buffer[garbage.len() as int] == 0x47);
            if start < garbage.len() {
                assert(false);
            }
            if start > garbage.len() {
                assert(kept.len() > 0 ==> buffer[start] == begun[start - garbage.len()]);
                assert(false);
            }
        } else {
            if start < buffer.len() {
                assert(buffer[start] == garbage[start]);
                assert(false);
            }
        }
        assert(kept =~= begun);
    }
}

/// Alignment is restored wherever the input is cut in two: garbage without a sync
/// byte, then an aligned stream of more than one packet, handed over in any two
/// chunks, yields every packet of the stream. The cut may lie in the garbage, in
/// the first packet (then no further sync byte may have come of that packet yet),
/// or anywhere behind it.
pub proof fn law_garbage_is_skipped_wherever_the_input_is_cut(
    garbage: Seq<u8>,
    stream: Seq<u8>,
    cut: int,
)
    requires
        forall|j: int| 0 <= j < garbage.len() ==> garbage[j] != 0x47,
        framer::aligned(stream),
        stream.len() > 188,
        0 <= cut <= garbage.len() + stream.len(),
        cut <= garbage.len() + 188 ==> forall|j: int|
            0 < j < cut - garbage.len() ==> stream[j] != 0x47,
    ensures
        ({
            let input = garbage + stream;
            let chunks = seq![input.take(cut), input.skip(cut)];
            framer::fed(Seq::empty(), chunks) == (
                framer::all_decoded(stream),
                framer::partial_packet(stream),
            )
        }),
{
    let input = garbage + stream;
    let first = input.take(cut);
    let second = input.skip(cut);
    let chunks = seq![first, second];
    assert(Seq::<u8>::empty() + first =~= first);
    let (early, kept) = framer::drained(first);
    lemma_two_chunks(first, second);
    if garbage.len() == 0 {
        assert(input =~= stream);
        assert(chunks.flatten() =~= first + (second + Seq::<u8>::empty())) by {
            reveal_with_fuel(Seq::flatten, 3);
            assert(chunks.drop_first() =~= seq![second]);
            assert(chunks.drop_first().drop_first() =~= Seq::empty());
        }
        assert(Seq::<u8>::empty() + chunks.flatten() =~= stream);
        framer::law_chunking_does_not_matter(Seq::empty(), chunks);
    } else if cut <= garbage.len() + 188 {
        let came = if cut <= garbage.len() {
            cut
        } else {
            garbage.len() as int
        };
        let held = garbage.take(came);
        let begun = stream.take(cut - came);
        assert(first =~= held + begun);
        if cut > came {
            assert(framer::aligned(stream));
            assert(begun[0] == stream[0]);
        }
        if held.len() > 0 || begun.len() < 188 {
            lemma_first_packet_is_held(held, begun);
            assert(early =~= Seq::empty());
            if kept == held + begun {
                assert(kept + second =~= garbage + stream);
                lemma_garbage_in_front(garbage, stream);
            } else {
                let rest = garbage.skip(came);
                assert(begun + second =~= rest + stream) by {
                    if cut > garbage.len() {
                        assert(rest =~= Seq::empty());
                    } else {
                        assert(begun =~= Seq::empty());
                    }
                }
                lemma_garbage_in_front(rest, stream);
            }
        }
        let all = framer::drained(kept + second).0;
        assert(early + all =~= all);
    } else {
        let begun = stream.take(cut - garbage.len());
        let tail = stream.skip(cut - garbage.len());
        assert(first =~= garbage + begun);
        assert(stream =~= begun + tail);
        framer::lemma_aligned_prefix(begun, tail);
        lemma_garbage_in_front(garbage, begun);
        framer::lemma_aligned_remainder(begun, tail);
        framer::lemma_all_decoded_splits(begun, tail);
        framer::law_aligned_stream_drains_completely(framer::partial_packet(begun) + tail);
        assert(second =~= tail);
    }
}

/// Two chunks are drained one after the other.
proof fn lemma_two_chunks(first: Seq<u8>, second: Seq<u8>)
    ensures
        ({
            let (early, kept) = framer::drained(first);
            let (late, left) = framer::drained(kept + second);
            framer::fed(Seq::empty(), seq![first, second]) == (early + late, left)
        }),
{
    let chunks = seq![first, second];
    assert(Seq::<u8>::empty() + first =~= first);
    assert(chunks.drop_first() =~= seq![second]);
    assert(seq![second].drop_first() =~= Seq::empty());
    reveal_with_fuel(framer::fed, 3);
    let (early, kept) = framer::drained(first);
    let (late, left) = framer::drained(kept + second);
    assert(late + Seq::<PacketFields>::empty() =~= late);
}

} // verus!
