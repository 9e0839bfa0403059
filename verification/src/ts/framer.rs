//! Turning an arbitrary byte stream into transport packets.

use vstd::prelude::*;
use vstd::slice::slice_subrange;

use crate::ts;
use crate::ts::{PacketFields, TransportStreamPacket};

verus! {

/// Errors raised by the framer when its bounded buffer would be exceeded.
#[derive(Debug, Clone, PartialEq, Eq)]
pub enum TransportStreamFramerError {
    InputTooLarge { maximum: usize, actual: usize },
}

/// Whether `offset` is taken for the start of a packet: there is a sync byte,
/// and either another one a packet length further on, or exactly one packet is
/// buffered and starts here.
pub open spec fn is_packet_start(buffer: Seq<u8>, offset: int) -> bool {
    &&& 0 <= offset < buffer.len()
    &&& buffer[offset] == TransportStreamPacket::SYNC_BYTE
    &&& (offset == 0 && buffer.len() == TransportStreamPacket::BYTE_COUNT) || (offset
        + TransportStreamPacket::BYTE_COUNT < buffer.len() && buffer[offset
        + TransportStreamPacket::BYTE_COUNT] == TransportStreamPacket::SYNC_BYTE)
}

/// The first packet start from `from` on.
pub open spec fn first_packet_start(buffer: Seq<u8>, from: int) -> Option<int>
    decreases buffer.len() - from,
{
    if from >= buffer.len() {
        None
    } else if is_packet_start(buffer, from) {
        Some(from)
    } else {
        first_packet_start(buffer, from + 1)
    }
}

/// What is found is a packet start, a whole packet is there, and nothing before
/// it was one.
pub proof fn law_first_packet_start(buffer: Seq<u8>, from: int)
    requires
        0 <= from,
    ensures
        match first_packet_start(buffer, from) {
            Some(start) => {
                &&& from <= start
                &&& is_packet_start(buffer, start)
                &&& start + TransportStreamPacket::BYTE_COUNT <= buffer.len()
                &&& forall|earlier: int|
                    from <= earlier < start ==> !is_packet_start(buffer, earlier)
            },
            None => forall|offset: int| from <= offset ==> !is_packet_start(buffer, offset),
        },
    decreases buffer.len() - from,
{
    if from < buffer.len() && !is_packet_start(buffer, from) {
        law_first_packet_start(buffer, from + 1);
    }
}

/// Where the last sync byte before `end` is, as the only place where a packet
/// could still be starting; the whole length where there is none.
pub open spec fn last_sync_byte(buffer: Seq<u8>, end: int) -> int
    decreases end,
{
    if end <= 0 {
        buffer.len() as int
    } else if buffer[end - 1] == TransportStreamPacket::SYNC_BYTE {
        end - 1
    } else {
        last_sync_byte(buffer, end - 1)
    }
}

/// The packet that 188 bytes decode to, as a sequence of none or one: a
/// malformed packet is dropped.
pub open spec fn decoded(bytes: Seq<u8>) -> Seq<PacketFields> {
    if ts::packet_defect(bytes) is None {
        seq![ts::packet_fields(bytes)]
    } else {
        Seq::empty()
    }
}

/// What draining `buffer` yields: the packets, and the bytes that stay.
pub open spec fn drained(buffer: Seq<u8>) -> (Seq<PacketFields>, Seq<u8>)
    decreases buffer.len(),
{
    if buffer.len() < TransportStreamPacket::BYTE_COUNT {
        (Seq::empty(), buffer)
    } else {
        match first_packet_start(buffer, 0) {
            None => (Seq::empty(), buffer.skip(last_sync_byte(buffer, buffer.len() as int))),
            Some(start) => {
                proof {
                    law_first_packet_start(buffer, 0);
                }
                let end = start + TransportStreamPacket::BYTE_COUNT;
                let rest = drained(buffer.skip(end));
                (decoded(buffer.subrange(start, end)) + rest.0, rest.1)
            },
        }
    }
}

/// The packets' fields.
pub open spec fn fields_of(packets: Seq<TransportStreamPacket>) -> Seq<PacketFields> {
    packets.map_values(|packet: TransportStreamPacket| packet@)
}

/// Re-synchronizing framer that turns an arbitrary byte stream into packets.
///
/// The buffer is bounded so a desynchronized feed cannot grow without limit.
#[derive(Debug)]
pub struct TransportStreamFramer {
    buffered_bytes: Vec<u8>,
}

impl View for TransportStreamFramer {
    type V = Seq<u8>;

    closed spec fn view(&self) -> Seq<u8> {
        self.buffered_bytes@
    }
}

impl Default for TransportStreamFramer {
    /// A framer with nothing buffered.
    fn default() -> (framer: Self)
        ensures
            framer@ == Seq::<u8>::empty(),
            framer.wf(),
    {
        TransportStreamFramer { buffered_bytes: Vec::new() }
    }
}

impl TransportStreamFramer {
    /// The most bytes that are ever buffered: 1024 packets.
    pub const MAXIMUM_INPUT_BYTE_COUNT: usize = TransportStreamPacket::BYTE_COUNT * 1_024;

    /// The bound on the buffer.
    pub open spec fn wf(&self) -> bool {
        self@.len() <= Self::MAXIMUM_INPUT_BYTE_COUNT
    }

    pub fn new() -> (framer: Self)
        ensures
            framer@ == Seq::<u8>::empty(),
            framer.wf(),
    {
        Self::default()
    }

    /// Appends `bytes` and drains every complete, synchronized packet.
    ///
    /// A packet whose body is malformed is dropped and framing goes on behind
    /// it. Input that would exceed the bound is refused and changes nothing;
    /// the reported size is the sum of what is buffered and what was offered
    /// (`usize::MAX` should that sum not fit).
    pub fn append(&mut self, bytes: &[u8]) -> (packets: Result<
        Vec<TransportStreamPacket>,
        TransportStreamFramerError,
    >)
        ensures
            match packets {
                Ok(packets) => {
                    &&& old(self)@.len() + bytes@.len() <= Self::MAXIMUM_INPUT_BYTE_COUNT
                    &&& fields_of(packets@) == drained(old(self)@ + bytes@).0
                    &&& final(self)@ == drained(old(self)@ + bytes@).1
                    &&& final(self).wf()
                },
                Err(TransportStreamFramerError::InputTooLarge { maximum, actual }) => {
                    &&& old(self)@.len() + bytes@.len() > Self::MAXIMUM_INPUT_BYTE_COUNT
                    &&& maximum == Self::MAXIMUM_INPUT_BYTE_COUNT
                    &&& actual == if old(self)@.len() + bytes@.len() <= usize::MAX {
                        old(self)@.len() + bytes@.len()
                    } else {
                        usize::MAX as nat
                    }
                    &&& *final(self) == *old(self)
                },
            },
    {
        let combined: usize = self.buffered_bytes.len().saturating_add(bytes.len());
        if combined > Self::MAXIMUM_INPUT_BYTE_COUNT {
            return Err(
                TransportStreamFramerError::InputTooLarge {
                    maximum: Self::MAXIMUM_INPUT_BYTE_COUNT,
                    actual: combined,
                },
            );
        }
        let ghost input = self@ + bytes@;
        self.buffered_bytes.extend_from_slice(bytes);
        assert(self@ =~= input);
        let mut packets: Vec<TransportStreamPacket> = Vec::new();
        let mut consumed: usize = 0;
        proof {
            assert(input.skip(0) =~= input);
            assert(fields_of(packets@) + drained(input).0 =~= drained(input).0);
        }
        while self.buffered_bytes.len() - consumed >= TransportStreamPacket::BYTE_COUNT
            invariant_except_break
                drained(input) == (
                    fields_of(packets@) + drained(input.skip(consumed as int)).0,
                    drained(input.skip(consumed as int)).1,
                ),
            invariant
                self@ == input,
                consumed <= input.len(),
            ensures
                drained(input) == (fields_of(packets@), input.skip(consumed as int)),
            decreases input.len() - consumed,
        {
            let ghost rest = input.skip(consumed as int);
            let ghost found = fields_of(packets@);
            let offset: usize = match self.synchronized_packet_offset(consumed) {
                Some(offset) => offset,
                None => {
                    let ghost from = consumed as int;
                    consumed = self.possible_packet_prefix_offset(consumed);
                    proof {
                        assert(found + drained(rest).0 =~= found);
                        assert(rest.skip(consumed - from) =~= input.skip(consumed as int));
                    }
                    break;
                },
            };
            let end: usize = offset + TransportStreamPacket::BYTE_COUNT;
            let parsed = TransportStreamPacket::parse(
                slice_subrange(self.buffered_bytes.as_slice(), offset, end),
            );
            proof {
                assert(rest.skip(end - consumed) =~= input.skip(end as int));
                assert(rest.subrange(offset - consumed, end - consumed) =~= input.subrange(
                    offset as int,
                    end as int,
                ));
            }
            if let Ok(packet) = parsed {
                packets.push(packet);
            }
            proof {
                let packet = input.subrange(offset as int, end as int);
                assert(fields_of(packets@) =~= found + decoded(packet));
                assert(found + (decoded(packet) + drained(input.skip(end as int)).0) =~= fields_of(
                    packets@,
                ) + drained(input.skip(end as int)).0);
            }
            consumed = end;
        }
        if consumed > 0 {
            self.buffered_bytes = self.buffered_bytes.split_off(consumed);
        }
        Ok(packets)
    }

    /// The first offset from `start_offset` on that is taken for a packet
    /// start, where what lies before `start_offset` is already consumed.
    fn synchronized_packet_offset(&self, start_offset: usize) -> (offset: Option<usize>)
        requires
            start_offset <= self@.len(),
        ensures
            match offset {
                Some(offset) => first_packet_start(self@.skip(start_offset as int), 0) == Some(
                    offset - start_offset,
                ) && is_packet_start(self@.skip(start_offset as int), offset - start_offset)
                    && start_offset <= offset && offset + TransportStreamPacket::BYTE_COUNT
                    <= self@.len(),
                None => first_packet_start(self@.skip(start_offset as int), 0) is None,
            },
    {
        let buffered: usize = self.buffered_bytes.len();
        let ghost rest = self@.skip(start_offset as int);
        let mut offset: usize = start_offset;
        while offset < buffered
            invariant
                buffered == self@.len(),
                self@ == self.buffered_bytes@,
                rest == self@.skip(start_offset as int),
                start_offset <= offset <= buffered,
                first_packet_start(rest, 0) == first_packet_start(rest, offset - start_offset),
            decreases buffered - offset,
        {
            if self.buffered_bytes[offset] == TransportStreamPacket::SYNC_BYTE {
                let alone: bool = offset == start_offset && buffered - start_offset
                    == TransportStreamPacket::BYTE_COUNT;
                let followed: bool = buffered - offset > TransportStreamPacket::BYTE_COUNT
                    && self.buffered_bytes[offset + TransportStreamPacket::BYTE_COUNT]
                    == TransportStreamPacket::SYNC_BYTE;
                if alone || followed {
                    return Some(offset);
                }
            }
            offset = offset + 1;
        }
        None
    }

    /// The last sync byte from `start_offset` on, or the end of the buffer.
    fn possible_packet_prefix_offset(&self, start_offset: usize) -> (offset: usize)
        requires
            start_offset <= self@.len(),
        ensures
            start_offset <= offset <= self@.len(),
            offset - start_offset == last_sync_byte(
                self@.skip(start_offset as int),
                self@.len() - start_offset,
            ),
    {
        let ghost rest = self@.skip(start_offset as int);
        let mut end: usize = self.buffered_bytes.len();
        while end > start_offset
            invariant
                self@ == self.buffered_bytes@,
                rest == self@.skip(start_offset as int),
                start_offset <= end <= self@.len(),
                last_sync_byte(rest, rest.len() as int) == last_sync_byte(rest, end - start_offset),
            decreases end,
        {
            if self.buffered_bytes[end - 1] == TransportStreamPacket::SYNC_BYTE {
                return end - 1;
            }
            end = end - 1;
        }
        self.buffered_bytes.len()
    }
}

/// Whether `stream` consists of packets from its first byte on: a sync byte at
/// every packet boundary.
pub open spec fn aligned(stream: Seq<u8>) -> bool
    decreases stream.len(),
{
    &&& stream.len() > 0 ==> stream[0] == TransportStreamPacket::SYNC_BYTE
    &&& stream.len() >= TransportStreamPacket::BYTE_COUNT ==> aligned(
        stream.skip(TransportStreamPacket::BYTE_COUNT as int),
    )
}

/// Every whole packet of an aligned stream, decoded in order; malformed ones
/// are left out.
pub open spec fn all_decoded(stream: Seq<u8>) -> Seq<PacketFields>
    decreases stream.len(),
{
    if stream.len() < TransportStreamPacket::BYTE_COUNT {
        Seq::empty()
    } else {
        decoded(stream.take(TransportStreamPacket::BYTE_COUNT as int)) + all_decoded(
            stream.skip(TransportStreamPacket::BYTE_COUNT as int),
        )
    }
}

/// The bytes behind the last whole packet of an aligned stream.
pub open spec fn partial_packet(stream: Seq<u8>) -> Seq<u8>
    decreases stream.len(),
{
    if stream.len() < TransportStreamPacket::BYTE_COUNT {
        stream
    } else {
        partial_packet(stream.skip(TransportStreamPacket::BYTE_COUNT as int))
    }
}

/// What feeding `chunks` one after another yields from a framer that holds
/// `buffer`: all the packets, and the bytes that stay.
pub open spec fn fed(buffer: Seq<u8>, chunks: Seq<Seq<u8>>) -> (Seq<PacketFields>, Seq<u8>)
    decreases chunks.len(),
{
    if chunks.len() == 0 {
        (Seq::empty(), buffer)
    } else {
        let first = drained(buffer + chunks[0]);
        let rest = fed(first.1, chunks.drop_first());
        (first.0 + rest.0, rest.1)
    }
}

/// Draining keeps a tail of the buffer: nothing is invented or reordered, and
/// the bound on the buffer holds afterwards if it held before.
pub proof fn law_draining_keeps_a_tail(buffer: Seq<u8>)
    ensures
        drained(buffer).1.len() <= buffer.len(),
        drained(buffer).1 == buffer.skip(buffer.len() - drained(buffer).1.len()),
    decreases buffer.len(),
{
    if buffer.len() < TransportStreamPacket::BYTE_COUNT {
        assert(buffer.skip(0) =~= buffer);
    } else {
        law_first_packet_start(buffer, 0);
        match first_packet_start(buffer, 0) {
            None => {
                lemma_last_sync_byte(buffer, buffer.len() as int);
            },
            Some(start) => {
                let end = start + TransportStreamPacket::BYTE_COUNT;
                let rest = buffer.skip(end);
                law_draining_keeps_a_tail(rest);
                assert(rest.skip(rest.len() - drained(buffer).1.len()) =~= buffer.skip(
                    buffer.len() - drained(buffer).1.len(),
                ));
            },
        }
    }
}

proof fn lemma_last_sync_byte(buffer: Seq<u8>, end: int)
    requires
        0 <= end <= buffer.len(),
    ensures
        0 <= last_sync_byte(buffer, end) <= buffer.len(),
    decreases end,
{
    if end > 0 {
        lemma_last_sync_byte(buffer, end - 1);
    }
}

/// An aligned stream of a packet or more starts with one, which is found.
proof fn lemma_aligned_start(stream: Seq<u8>)
    requires
        aligned(stream),
        TransportStreamPacket::BYTE_COUNT <= stream.len(),
    ensures
        first_packet_start(stream, 0) == Some(0int),
{
    let size = TransportStreamPacket::BYTE_COUNT as int;
    let rest = stream.skip(size);
    assert(aligned(rest));
    if stream.len() > size {
        assert(rest[0] == stream[size]);
    }
    assert(is_packet_start(stream, 0));
}

/// An aligned stream drains into exactly its packets, in order, and leaves the
/// partial packet at its end.
pub proof fn law_aligned_stream_drains_completely(stream: Seq<u8>)
    requires
        aligned(stream),
    ensures
        drained(stream) == (all_decoded(stream), partial_packet(stream)),
    decreases stream.len(),
{
    let size = TransportStreamPacket::BYTE_COUNT as int;
    if stream.len() >= size {
        lemma_aligned_start(stream);
        assert(stream.subrange(0, size) =~= stream.take(size));
        law_aligned_stream_drains_completely(stream.skip(size));
    }
}

/// Cutting inside the first of two parts leaves the second alone.
proof fn lemma_skip_of_sum(head: Seq<u8>, tail: Seq<u8>, count: int)
    requires
        0 <= count <= head.len(),
    ensures
        (head + tail).skip(count) == head.skip(count) + tail,
        (head + tail).take(count) == head.take(count),
{
    assert((head + tail).skip(count) =~= head.skip(count) + tail);
    assert((head + tail).take(count) =~= head.take(count));
}

/// Decoding a stream is decoding a part that begins it, and then what that part
/// leaves over together with the rest.
pub proof fn lemma_all_decoded_splits(head: Seq<u8>, tail: Seq<u8>)
    ensures
        all_decoded(head + tail) == all_decoded(head) + all_decoded(partial_packet(head) + tail),
        partial_packet(head + tail) == partial_packet(partial_packet(head) + tail),
    decreases head.len(),
{
    let size = TransportStreamPacket::BYTE_COUNT as int;
    let later = all_decoded(partial_packet(head) + tail);
    if head.len() < size {
        assert(all_decoded(head) + later =~= later);
    } else {
        let rest = head.skip(size);
        lemma_all_decoded_splits(rest, tail);
        lemma_skip_of_sum(head, tail, size);
        let first = decoded(head.take(size));
        assert(first + (all_decoded(rest) + later) =~= (first + all_decoded(rest)) + later);
    }
}

/// What begins an aligned stream is aligned.
pub proof fn lemma_aligned_prefix(head: Seq<u8>, tail: Seq<u8>)
    requires
        aligned(head + tail),
    ensures
        aligned(head),
    decreases head.len(),
{
    let size = TransportStreamPacket::BYTE_COUNT as int;
    if head.len() > 0 {
        assert((head + tail)[0] == head[0]);
    }
    if head.len() >= size {
        lemma_skip_of_sum(head, tail, size);
        lemma_aligned_prefix(head.skip(size), tail);
    }
}

/// An aligned stream stays aligned without the whole packets that begin it.
pub proof fn lemma_aligned_remainder(head: Seq<u8>, tail: Seq<u8>)
    requires
        aligned(head + tail),
    ensures
        aligned(partial_packet(head) + tail),
    decreases head.len(),
{
    let size = TransportStreamPacket::BYTE_COUNT as int;
    if head.len() >= size {
        lemma_skip_of_sum(head, tail, size);
        lemma_aligned_remainder(head.skip(size), tail);
    }
}

/// What is left over of whole packets is less than one.
proof fn lemma_partial_packet_is_short(stream: Seq<u8>)
    ensures
        partial_packet(stream).len() < TransportStreamPacket::BYTE_COUNT,
    decreases stream.len(),
{
    if stream.len() >= TransportStreamPacket::BYTE_COUNT {
        lemma_partial_packet_is_short(stream.skip(TransportStreamPacket::BYTE_COUNT as int));
    }
}

/// How an aligned stream is cut into chunks does not matter: fed piece by piece
/// it yields the same packets as in one go, and the framer ends up holding the
/// same bytes.
pub proof fn law_chunking_does_not_matter(buffer: Seq<u8>, chunks: Seq<Seq<u8>>)
    requires
        buffer.len() < TransportStreamPacket::BYTE_COUNT,
        aligned(buffer + chunks.flatten()),
    ensures
        fed(buffer, chunks) == drained(buffer + chunks.flatten()),
        fed(buffer, chunks) == (
            all_decoded(buffer + chunks.flatten()),
            partial_packet(buffer + chunks.flatten()),
        ),
    decreases chunks.len(),
{
    let stream = buffer + chunks.flatten();
    law_aligned_stream_drains_completely(stream);
    if chunks.len() == 0 {
        assert(stream =~= buffer);
    } else {
        let head = buffer + chunks[0];
        let tail = chunks.drop_first().flatten();
        assert(stream =~= head + tail);
        lemma_aligned_prefix(head, tail);
        law_aligned_stream_drains_completely(head);
        lemma_all_decoded_splits(head, tail);
        lemma_aligned_remainder(head, tail);
        lemma_partial_packet_is_short(head);
        law_chunking_does_not_matter(partial_packet(head), chunks.drop_first());
    }
}

/// Alignment is restored behind garbage: where nothing in the leading bytes
/// looks like a packet start, an aligned stream of more than one packet behind
/// them drains as if they were not there.
pub proof fn law_leading_garbage_is_skipped(garbage: Seq<u8>, stream: Seq<u8>)
    requires
        forall|offset: int|
            0 <= offset < garbage.len() ==> !is_packet_start(garbage + stream, offset),
        aligned(stream),
        stream.len() > TransportStreamPacket::BYTE_COUNT,
    ensures
        drained(garbage + stream) == drained(stream),
        drained(garbage + stream) == (all_decoded(stream), partial_packet(stream)),
{
    let input = garbage + stream;
    let start = garbage.len() as int;
    let size = TransportStreamPacket::BYTE_COUNT as int;
    assert(aligned(stream.skip(size)));
    assert(stream.skip(size)[0] == stream[size]);
    assert(is_packet_start(input, start));
    law_first_packet_start(input, 0);
    lemma_aligned_start(stream);
    assert(input.skip(start + size) =~= stream.skip(size));
    assert(input.subrange(start, start + size) =~= stream.subrange(0, size));
    law_aligned_stream_drains_completely(stream);
}

} // verus!
