//! 33-bit 90 kHz timestamps: their wire layout, their wrap rule, and unwrapping
//! them onto a continuous timeline.

use vstd::prelude::*;

use crate::pes::{PacketizedElementaryStreamError, PesResult};

verus! {

/// Timestamps are 33-bit values split across five marker-interleaved bytes.
pub const TIMESTAMP_BYTE_COUNT: usize = 5;

/// The timestamp modulus: 33 bits of 90 kHz ticks, or about 26.5 hours.
pub const PTS_MODULUS: u64 = 0x2_0000_0000;

/// Half of the 33-bit range. At exactly this distance the signed-delta
/// convention selects the negative interpretation.
pub const PTS_HALF_RANGE: u64 = 0x1_0000_0000;

/// The shortest signed step from `previous` to `current` around the 33-bit
/// circle; at exactly half the circle, the negative one.
pub open spec fn pts_delta(current: int, previous: int) -> int {
    let forward = (current - previous) % PTS_MODULUS as int;
    if forward >= PTS_HALF_RANGE {
        forward - PTS_MODULUS
    } else {
        forward
    }
}

/// The value of a five-byte field: 3, 15 and 15 bits from the top down, each
/// run followed by a marker bit.
pub open spec fn field_value(bytes: Seq<u8>) -> int {
    bytes[0] as int / 2 % 8 * 0x4000_0000 + bytes[1] * 0x40_0000 + bytes[2] as int / 2 * 0x8000
        + bytes[3] * 0x80 + bytes[4] as int / 2
}

/// The field that holds `ticks` (33 bits of it) behind the four-bit prefix 2.
pub open spec fn field_bytes(ticks: int) -> Seq<u8> {
    let raw = ticks % PTS_MODULUS as int;
    seq![
        (0x21 + raw / 0x4000_0000 * 2) as u8,
        (raw / 0x40_0000 % 256) as u8,
        (raw / 0x8000 % 128 * 2 + 1) as u8,
        (raw / 0x80 % 256) as u8,
        (raw % 128 * 2 + 1) as u8,
    ]
}

/// Whether five bytes are a timestamp field: the four-bit prefix is the
/// expected one and all three marker bits are set.
pub open spec fn is_field(bytes: Seq<u8>, prefix: u8) -> bool {
    &&& bytes.len() == TIMESTAMP_BYTE_COUNT
    &&& bytes[0] as int / 16 == prefix
    &&& bytes[0] as int % 2 == 1
    &&& bytes[2] as int % 2 == 1
    &&& bytes[4] as int % 2 == 1
}

/// The shortest signed delta from `previous` to `current` in the 33-bit domain.
///
/// Both inputs are normalized to 33 bits. A forward distance below half the
/// range is positive; a distance at or above it is the corresponding negative
/// step. This is the single wrap rule shared by timestamp unwrapping and
/// presentation-clock projection.
pub fn signed_pts_delta(current: u64, previous: u64) -> (delta: i64)
    ensures
        delta == pts_delta(current as int, previous as int),
{
    let difference: u64 = current.wrapping_sub(previous);
    assert(difference & 0x1_FFFF_FFFF == difference % 0x2_0000_0000) by (bit_vector);
    let forward: u64 = difference & 0x1_FFFF_FFFF;
    assert(forward == (current - previous) % PTS_MODULUS as int);
    if forward >= PTS_HALF_RANGE {
        forward as i64 - PTS_MODULUS as i64
    } else {
        forward as i64
    }
}

/// The 33-bit value out of a five-byte timestamp field, in 90 kHz ticks.
///
/// Marker bits and prefix are not looked at; strict parsing checks them first.
/// Bytes behind the first five are ignored.
pub fn pts_ticks(bytes: &[u8]) -> (ticks: u64)
    requires
        TIMESTAMP_BYTE_COUNT <= bytes@.len(),
    ensures
        ticks == field_value(bytes@),
        ticks < PTS_MODULUS,
{
    proof {
        lemma_field_bits(bytes[0], bytes[1], bytes[2], bytes[3], bytes[4]);
    }
    ((((bytes[0] >> 1) & 0x07) as u64) << 30) | ((bytes[1] as u64) << 22) | ((((bytes[2] >> 1)
        & 0x7F) as u64) << 15) | ((bytes[3] as u64) << 7) | (((bytes[4] >> 1) & 0x7F) as u64)
}

proof fn lemma_field_bits(b0: u8, b1: u8, b2: u8, b3: u8, b4: u8)
    ensures
        ((((b0 >> 1) & 0x07) as u64) << 30) | ((b1 as u64) << 22) | ((((b2 >> 1) & 0x7F) as u64)
            << 15) | ((b3 as u64) << 7) | (((b4 >> 1) & 0x7F) as u64) == b0 as int / 2 % 8
            * 0x4000_0000 + b1 * 0x40_0000 + b2 as int / 2 * 0x8000 + b3 * 0x80 + b4 as int / 2,
{
    let x0 = ((b0 >> 1) & 0x07) as u64;
    let x2 = ((b2 >> 1) & 0x7F) as u64;
    let x4 = ((b4 >> 1) & 0x7F) as u64;
    let x1 = b1 as u64;
    let x3 = b3 as u64;
    assert((b0 >> 1) & 0x07 == b0 / 2 % 8 && (b2 >> 1) & 0x7F == b2 / 2 && (b4 >> 1) & 0x7F == b4
        / 2) by (bit_vector);
    assert((x0 << 30) | (x1 << 22) | (x2 << 15) | (x3 << 7) | x4 == x0 * 0x4000_0000 + x1
        * 0x40_0000 + x2 * 0x8000 + x3 * 0x80 + x4) by (bit_vector)
        requires
            x0 < 8,
            x1 < 256,
            x2 < 128,
            x3 < 256,
            x4 < 128,
    ;
}

/// Encodes a raw 33-bit timestamp as its five-byte marker-interleaved field,
/// with the prefix of a field that stands alone.
pub fn pts_field(ticks: u64) -> (bytes: [u8; TIMESTAMP_BYTE_COUNT])
    ensures
        bytes@ == field_bytes(ticks as int),
{
    let raw: u64 = ticks % PTS_MODULUS;
    let bytes: [u8; TIMESTAMP_BYTE_COUNT] = [
        0x21 + (raw / 0x4000_0000) as u8 * 2,
        (raw / 0x40_0000 % 256) as u8,
        (raw / 0x8000 % 128) as u8 * 2 + 1,
        (raw / 0x80 % 256) as u8,
        (raw % 128) as u8 * 2 + 1,
    ];
    assert(bytes@ =~= field_bytes(ticks as int));
    bytes
}

/// Decodes a 33-bit timestamp from its five marker-interleaved bytes, checking
/// the prefix and the markers.
pub fn parse_timestamp(bytes: &[u8], expected_prefix: u8) -> (ticks: PesResult<u64>)
    ensures
        match ticks {
            Ok(ticks) => is_field(bytes@, expected_prefix) && ticks == field_value(bytes@),
            Err(error) => !is_field(bytes@, expected_prefix) && error
                == PacketizedElementaryStreamError::InvalidTimestamp,
        },
{
    if bytes.len() != TIMESTAMP_BYTE_COUNT {
        return Err(PacketizedElementaryStreamError::InvalidTimestamp);
    }
    if bytes[0] / 16 != expected_prefix || bytes[0] % 2 != 1 || bytes[2] % 2 != 1 || bytes[4] % 2
        != 1 {
        return Err(PacketizedElementaryStreamError::InvalidTimestamp);
    }
    Ok(pts_ticks(bytes))
}

/// The whole milliseconds in 90 kHz ticks.
pub open spec fn milliseconds(ticks: int) -> int {
    ticks / 90
}

/// The whole microseconds in 90 kHz ticks.
pub open spec fn microseconds(ticks: int) -> int {
    ticks * 100 / 9
}

/// A millisecond is 90 ticks: the whole milliseconds fit the ticks, and one more
/// would not.
pub proof fn law_a_millisecond_is_ninety_ticks(ticks: int)
    ensures
        milliseconds(ticks) * 90 <= ticks < (milliseconds(ticks) + 1) * 90,
{
}

/// Nine ticks are a hundred microseconds: the whole microseconds fit the ticks,
/// and one more would not; so nothing of the fraction of a millisecond is lost.
pub proof fn law_nine_ticks_are_a_hundred_microseconds(ticks: int)
    ensures
        microseconds(ticks) * 9 <= ticks * 100 < (microseconds(ticks) + 1) * 9,
{
}

/// Converts 90 kHz ticks to milliseconds.
pub fn ticks_to_ms(ticks: u64) -> (ms: u64)
    ensures
        ms == milliseconds(ticks as int),
        ms * 90 <= ticks < ms * 90 + 90,
{
    ticks / 90
}

/// Converts 90 kHz ticks to microseconds without first losing the fractional
/// millisecond portion.
pub fn ticks_to_us(ticks: u64) -> (us: u64)
    requires
        ticks * 100 <= u64::MAX,
    ensures
        us == microseconds(ticks as int),
        us * 9 <= ticks * 100 < us * 9 + 9,
{
    ticks * 100 / 9
}

/// Decodes one five-byte timestamp field into milliseconds.
pub fn pts_to_ms(bytes: &[u8]) -> (ms: u64)
    requires
        TIMESTAMP_BYTE_COUNT <= bytes@.len(),
    ensures
        ms == milliseconds(field_value(bytes@)),
        ms * 90 <= field_value(bytes@) < ms * 90 + 90,
{
    ticks_to_ms(pts_ticks(bytes))
}

/// Decodes one five-byte timestamp field into microseconds.
pub fn pts_to_us(bytes: &[u8]) -> (us: u64)
    requires
        TIMESTAMP_BYTE_COUNT <= bytes@.len(),
    ensures
        us == microseconds(field_value(bytes@)),
        us * 9 <= field_value(bytes@) * 100 < us * 9 + 9,
{
    ticks_to_us(pts_ticks(bytes))
}

/// Result of unwrapping one raw timestamp.
#[derive(Debug, Clone, Copy, PartialEq, Eq)]
pub struct PtsUnwrapOutcome {
    /// Continuous 90 kHz ticks, or the normalized raw value when a new epoch
    /// had to be established.
    pub ticks: u64,
    /// True when applying the signed delta would leave the public `u64` domain,
    /// so the unwrapper safely discarded its prior epoch and re-baselined.
    pub epoch_reset: bool,
}

/// The last timestamp of an epoch: as it came, and on the continuous timeline.
pub struct ClockReading {
    pub raw: u64,
    pub extended: u64,
}

/// The outcome of folding `raw` into the timeline that `last` belongs to. The
/// first timestamp of an epoch starts the timeline; a later one moves it by the
/// signed delta, unless that leaves the `u64` range, which starts a new epoch.
pub open spec fn unwrap_outcome(last: Option<ClockReading>, raw: u64) -> PtsUnwrapOutcome {
    let normalized = (raw % PTS_MODULUS) as u64;
    match last {
        None => PtsUnwrapOutcome { ticks: normalized, epoch_reset: false },
        Some(last) => {
            let extended = last.extended + pts_delta(normalized as int, last.raw as int);
            if 0 <= extended <= u64::MAX {
                PtsUnwrapOutcome { ticks: extended as u64, epoch_reset: false }
            } else {
                PtsUnwrapOutcome { ticks: normalized, epoch_reset: true }
            }
        },
    }
}

/// The reading that is remembered after folding in `raw`.
pub open spec fn next_reading(last: Option<ClockReading>, raw: u64) -> ClockReading {
    ClockReading { raw: (raw % PTS_MODULUS) as u64, extended: unwrap_outcome(last, raw).ticks }
}

/// Rolling 33-bit unwrapper for one packet identifier.
///
/// Each raw value is folded into the continuous timeline by adding
/// [`signed_pts_delta`] to the last extended value. Small reverse steps
/// therefore remain reverse steps instead of being mistaken for a jump of
/// nearly 26.5 hours.
///
/// Unwrapping deliberately happens in ticks: the modulus is not a whole number
/// of microseconds, so a microsecond modulus would add an error at every wrap.
#[derive(Debug)]
pub struct PtsUnwrap {
    last_raw: Option<u64>,
    last_extended: Option<u64>,
}

impl View for PtsUnwrap {
    type V = Option<ClockReading>;

    closed spec fn view(&self) -> Option<ClockReading> {
        match (self.last_raw, self.last_extended) {
            (Some(raw), Some(extended)) => Some(ClockReading { raw, extended }),
            _ => None,
        }
    }
}

impl Default for PtsUnwrap {
    /// An unwrapper that has seen nothing yet.
    fn default() -> (clock: Self)
        ensures
            clock@ is None,
    {
        PtsUnwrap { last_raw: None, last_extended: None }
    }
}

impl PtsUnwrap {
    /// Raw and extended value come and go together, and differ by whole turns
    /// of the 33-bit circle.
    #[verifier::type_invariant]
    spec fn reading_is_consistent(self) -> bool {
        match (self.last_raw, self.last_extended) {
            (Some(raw), Some(extended)) => raw == extended as int % PTS_MODULUS as int,
            (None, None) => true,
            _ => false,
        }
    }

    /// Explicitly starts a new timestamp epoch.
    pub fn reset(&mut self)
        ensures
            final(self)@ is None,
    {
        *self = PtsUnwrap { last_raw: None, last_extended: None };
    }

    /// Folds one raw 33-bit timestamp into a continuous tick count and reports
    /// if the previous epoch had to be discarded.
    ///
    /// If a valid signed delta would produce a negative value or overflow
    /// `u64`, wrapping or saturation would silently corrupt time. Instead the
    /// raw value is taken as the first observation of a new epoch and
    /// [`PtsUnwrapOutcome::epoch_reset`] is set.
    pub fn unwrap_ticks_with_status(&mut self, raw: u64) -> (outcome: PtsUnwrapOutcome)
        ensures
            outcome == unwrap_outcome(old(self)@, raw),
            final(self)@ == Some(next_reading(old(self)@, raw)),
            outcome.ticks as int % PTS_MODULUS as int == raw as int % PTS_MODULUS as int,
    {
        proof {
            use_type_invariant(&*self);
        }
        let raw: u64 = raw % PTS_MODULUS;
        let (last_raw, last_extended) = match (self.last_raw, self.last_extended) {
            (Some(last_raw), Some(last_extended)) => (last_raw, last_extended),
            _ => {
                *self = PtsUnwrap { last_raw: Some(raw), last_extended: Some(raw) };
                return PtsUnwrapOutcome { ticks: raw, epoch_reset: false };
            },
        };
        let extended: i128 = last_extended as i128 + signed_pts_delta(raw, last_raw) as i128;
        if extended < 0 || extended > u64::MAX as i128 {
            *self = PtsUnwrap { last_raw: Some(raw), last_extended: Some(raw) };
            return PtsUnwrapOutcome { ticks: raw, epoch_reset: true };
        }
        let ticks: u64 = extended as u64;
        assert(ticks as int % PTS_MODULUS as int == raw);
        *self = PtsUnwrap { last_raw: Some(raw), last_extended: Some(ticks) };
        PtsUnwrapOutcome { ticks, epoch_reset: false }
    }

    /// Folds one raw 33-bit timestamp into a continuous tick count.
    ///
    /// Call [`Self::unwrap_ticks_with_status`] when the owner must flush
    /// dependent state after an automatic epoch reset.
    pub fn unwrap_ticks(&mut self, raw: u64) -> (ticks: u64)
        ensures
            ticks == unwrap_outcome(old(self)@, raw).ticks,
            final(self)@ == Some(next_reading(old(self)@, raw)),
            ticks as int % PTS_MODULUS as int == raw as int % PTS_MODULUS as int,
    {
        self.unwrap_ticks_with_status(raw).ticks
    }
}

/// The signed delta is the one step of less than half the circle (or exactly
/// half of it backwards) that leads from `previous` to `current`.
pub proof fn law_signed_delta_is_the_shortest_step(current: int, previous: int)
    ensures
        -PTS_HALF_RANGE <= pts_delta(current, previous) < PTS_HALF_RANGE,
        (previous + pts_delta(current, previous)) % PTS_MODULUS as int == current
            % PTS_MODULUS as int,
{
}

/// The ways round the circle in both directions make a full turn, or none.
proof fn lemma_both_ways_make_a_turn(x: int)
    ensures
        x % 0x2_0000_0000 == 0 ==> (-x) % 0x2_0000_0000 == 0,
        x % 0x2_0000_0000 != 0 ==> (-x) % 0x2_0000_0000 == 0x2_0000_0000 - x % 0x2_0000_0000,
{
}

/// Stepping back is the opposite of stepping forward, except across exactly half
/// the circle, which is a backward step both ways.
pub proof fn law_signed_delta_is_antisymmetric(current: int, previous: int)
    ensures
        pts_delta(current, previous) != -PTS_HALF_RANGE ==> pts_delta(previous, current)
            == -pts_delta(current, previous),
        pts_delta(current, previous) == -PTS_HALF_RANGE ==> pts_delta(previous, current)
            == -PTS_HALF_RANGE,
{
    lemma_both_ways_make_a_turn(current - previous);
}

/// Encoding a timestamp gives a well-formed field that decodes to its 33 bits.
pub proof fn law_field_round_trip(ticks: int)
    ensures
        is_field(field_bytes(ticks), 2),
        field_value(field_bytes(ticks)) == ticks % PTS_MODULUS as int,
{
    let raw = (ticks % PTS_MODULUS as int) as u64;
    let bytes = field_bytes(ticks);
    lemma_digits_of_value(raw);
    lemma_marked_digit((raw / 0x8000 % 128) as int);
    lemma_marked_digit((raw % 128) as int);
    let top = raw as int / 0x4000_0000;
    assert(bytes[0] == 0x21 + top * 2);
    assert(bytes[0] as int / 2 % 8 == top && bytes[0] as int / 16 == 2 && bytes[0] as int % 2 == 1);
}

/// A 33-bit value is put together from its 3, 8, 7, 8 and 7 bit digits.
proof fn lemma_digits_of_value(raw: u64)
    requires
        raw < PTS_MODULUS,
    ensures
        raw / 0x4000_0000 < 8,
        raw / 0x4000_0000 * 0x4000_0000 + raw / 0x40_0000 % 256 * 0x40_0000 + raw / 0x8000 % 128
            * 0x8000 + raw / 0x80 % 256 * 0x80 + raw % 128 == raw,
{
    assert(raw < 0x2_0000_0000 ==> raw / 0x4000_0000 < 8 && raw / 0x4000_0000 * 0x4000_0000 + raw
        / 0x40_0000 % 256 * 0x40_0000 + raw / 0x8000 % 128 * 0x8000 + raw / 0x80 % 256 * 0x80 + raw
        % 128 == raw) by (bit_vector);
}

/// The digits of a 33-bit value are the ones that it was put together from.
proof fn lemma_value_of_digits(d0: u64, d1: u64, d2: u64, d3: u64, d4: u64)
    requires
        d0 < 8,
        d1 < 256,
        d2 < 128,
        d3 < 256,
        d4 < 128,
    ensures
        ({
            let raw = d0 * 0x4000_0000 + d1 * 0x40_0000 + d2 * 0x8000 + d3 * 0x80 + d4;
            &&& 0 <= raw < PTS_MODULUS
            &&& raw / 0x4000_0000 == d0
            &&& raw / 0x40_0000 % 256 == d1
            &&& raw / 0x8000 % 128 == d2
            &&& raw / 0x80 % 256 == d3
            &&& raw % 128 == d4
        }),
{
    let raw = (d0 * 0x4000_0000 + d1 * 0x40_0000 + d2 * 0x8000 + d3 * 0x80 + d4) as u64;
    assert(raw / 0x4000_0000 == d0 && raw / 0x40_0000 % 256 == d1 && raw / 0x8000 % 128 == d2 && raw
        / 0x80 % 256 == d3 && raw % 128 == d4) by (bit_vector)
        requires
            raw == d0 * 0x4000_0000 + d1 * 0x40_0000 + d2 * 0x8000 + d3 * 0x80 + d4,
            d0 < 8,
            d1 < 256,
            d2 < 128,
            d3 < 256,
            d4 < 128,
    ;
}

/// A seven-bit digit with its marker bit below it.
proof fn lemma_marked_digit(digit: int)
    requires
        0 <= digit < 128,
    ensures
        0 <= digit * 2 + 1 < 256,
        (digit * 2 + 1) / 2 == digit,
        (digit * 2 + 1) % 2 == 1,
{
}

/// Decoding a well-formed field that stands alone and encoding its value gives
/// the field back.
pub proof fn law_value_round_trip(bytes: Seq<u8>)
    requires
        is_field(bytes, 2),
    ensures
        0 <= field_value(bytes) < PTS_MODULUS,
        field_bytes(field_value(bytes)) == bytes,
{
    let top = bytes[0] as int / 2 % 8;
    assert(bytes[0] as int == 0x21 + top * 2);
    lemma_value_of_digits(
        top as u64,
        bytes[1] as u64,
        (bytes[2] / 2) as u64,
        bytes[3] as u64,
        (bytes[4] / 2) as u64,
    );
    let raw = field_value(bytes);
    assert(raw % PTS_MODULUS as int == raw);
    assert(field_bytes(raw) =~= bytes);
}

/// Only 33 bits of a timestamp have a say in the signed delta.
proof fn lemma_delta_of_normalized(raw: int, previous: int)
    ensures
        pts_delta(raw % PTS_MODULUS as int, previous) == pts_delta(raw, previous),
{
}

/// Adding the signed delta to a reading gives the new raw value, up to whole
/// turns.
proof fn lemma_delta_keeps_the_phase(extended: int, last_raw: int, raw: int)
    requires
        last_raw == extended % PTS_MODULUS as int,
    ensures
        (extended + pts_delta(raw, last_raw)) % PTS_MODULUS as int == raw % PTS_MODULUS as int,
{
}

/// Without an epoch reset the timeline moves by exactly the signed delta, so by
/// less than half the circle; and every tick count agrees with the raw value up
/// to whole turns.
pub proof fn law_unwrapping_follows_the_signed_delta(last: ClockReading, raw: u64)
    requires
        last.raw == last.extended as int % PTS_MODULUS as int,
    ensures
        ({
            let outcome = unwrap_outcome(Some(last), raw);
            &&& outcome.ticks as int % PTS_MODULUS as int == raw as int % PTS_MODULUS as int
            &&& !outcome.epoch_reset ==> outcome.ticks - last.extended == pts_delta(
                raw as int,
                last.raw as int,
            )
            &&& outcome.epoch_reset <==> !(0 <= last.extended + pts_delta(
                raw as int,
                last.raw as int,
            ) <= u64::MAX)
        }),
{
    lemma_delta_of_normalized(raw as int, last.raw as int);
    lemma_delta_keeps_the_phase(last.extended as int, last.raw as int, raw as int);
}

/// A small step forward followed by the same step back ends where it began, also
/// across a rollover of the raw value.
pub proof fn law_reverse_step_returns(last: ClockReading, raw: u64)
    requires
        last.raw == last.extended as int % PTS_MODULUS as int,
        !unwrap_outcome(Some(last), raw).epoch_reset,
        pts_delta(raw as int, last.raw as int) != -PTS_HALF_RANGE,
    ensures
        unwrap_outcome(Some(next_reading(Some(last), raw)), last.raw) == (PtsUnwrapOutcome {
            ticks: last.extended,
            epoch_reset: false,
        }),
{
    law_signed_delta_is_antisymmetric((raw % PTS_MODULUS) as int, last.raw as int);
}

/// The 33 bits of a field in three runs: bits 3 to 1 of its first byte, then 15
/// bits from the next two bytes and 15 from the last two, each run without the
/// marker bit that ends it.
pub proof fn law_field_value_in_runs(bytes: Seq<u8>)
    ensures
        0 <= field_value(bytes) < PTS_MODULUS,
        field_value(bytes) / 0x4000_0000 == bytes[0] as int / 2 % 8,
        field_value(bytes) / 0x8000 % 0x8000 == bytes[1] * 128 + bytes[2] as int / 2,
        field_value(bytes) % 0x8000 == bytes[3] * 128 + bytes[4] as int / 2,
{
    let d0 = (bytes[0] / 2 % 8) as u64;
    let d1 = bytes[1] as u64;
    let d2 = (bytes[2] / 2) as u64;
    let d3 = bytes[3] as u64;
    let d4 = (bytes[4] / 2) as u64;
    let raw = field_value(bytes) as u64;
    lemma_value_of_digits(d0, d1, d2, d3, d4);
    assert(raw / 0x8000 % 0x8000 == d1 * 128 + d2 && raw % 0x8000 == d3 * 128 + d4) by (bit_vector)
        requires
            raw == d0 * 0x4000_0000 + d1 * 0x40_0000 + d2 * 0x8000 + d3 * 0x80 + d4,
            d0 < 8,
            d1 < 256,
            d2 < 128,
            d3 < 256,
            d4 < 128,
    ;
}

/// A field is recognised by five bytes, the prefix in the top four bits, and a one
/// at the end of each run; the values have no say.
pub proof fn law_fields_are_recognised_by_prefix_and_markers(bytes: Seq<u8>, prefix: u8)
    ensures
        is_field(bytes, prefix) <==> {
            &&& bytes.len() == 5
            &&& prefix * 16 <= bytes[0] < prefix * 16 + 16
            &&& bytes[0] & 1 == 1
            &&& bytes[2] & 1 == 1
            &&& bytes[4] & 1 == 1
        },
{
    let b0 = bytes[0];
    let b2 = bytes[2];
    let b4 = bytes[4];
    assert(b0 & 1 == b0 % 2 && b2 & 1 == b2 % 2 && b4 & 1 == b4 % 2) by (bit_vector);
}

/// The field that holds `ticks` behind another prefix than the one of a field that
/// stands alone.
pub open spec fn prefixed_field(ticks: int, prefix: int) -> Seq<u8> {
    field_bytes(ticks).update(0, (field_bytes(ticks)[0] + (prefix - 2) * 16) as u8)
}

/// Such a field is recognised by its own prefix and holds the same 33 bits.
pub proof fn law_prefixed_field_round_trip(ticks: int, prefix: u8)
    requires
        prefix < 16,
    ensures
        is_field(prefixed_field(ticks, prefix as int), prefix),
        field_value(prefixed_field(ticks, prefix as int)) == ticks % PTS_MODULUS as int,
{
    law_field_round_trip(ticks);
    let plain = field_bytes(ticks);
    let bytes = prefixed_field(ticks, prefix as int);
    let b0 = plain[0];
    assert(0x20 <= b0 < 0x30);
    assert(bytes[0] == b0 + (prefix - 2) * 16);
    assert(bytes[0] as int / 2 % 8 == b0 as int / 2 % 8);
}

/// The first timestamp of an epoch starts the timeline at its own 33 bits, and so
/// does one that would leave the `u64` range.
pub proof fn law_an_epoch_starts_at_the_raw_value(last: Option<ClockReading>, raw: u64)
    requires
        last matches Some(last) ==> {
            ||| last.extended + pts_delta(raw as int, last.raw as int) < 0
            ||| last.extended + pts_delta(raw as int, last.raw as int) > u64::MAX
        },
    ensures
        unwrap_outcome(last, raw).ticks == raw as int % PTS_MODULUS as int,
        unwrap_outcome(last, raw).epoch_reset == last is Some,
{
    if let Some(last) = last {
        lemma_delta_of_normalized(raw as int, last.raw as int);
    }
}

/// Inside an epoch the timeline moves by exactly the signed delta from the last
/// raw value, whatever the readings are, and no reset is reported.
pub proof fn law_inside_an_epoch_ticks_move_by_the_delta(last: ClockReading, raw: u64)
    requires
        0 <= last.extended + pts_delta(raw as int, last.raw as int) <= u64::MAX,
    ensures
        unwrap_outcome(Some(last), raw).ticks - last.extended == pts_delta(
            raw as int,
            last.raw as int,
        ),
        !unwrap_outcome(Some(last), raw).epoch_reset,
{
    lemma_delta_of_normalized(raw as int, last.raw as int);
}

/// What is remembered is the 33 bits that came and the ticks that were given out.
pub proof fn law_the_reading_is_what_came_and_what_was_given(
    last: Option<ClockReading>,
    raw: u64,
)
    ensures
        next_reading(last, raw).raw == raw as int % PTS_MODULUS as int,
        next_reading(last, raw).extended == unwrap_outcome(last, raw).ticks,
{
}

/// The circle has 33 bits, and half of it is half of it.
pub proof fn law_the_circle_has_33_bits()
    ensures
        PTS_MODULUS == 0x2_0000_0000,
        PTS_HALF_RANGE + PTS_HALF_RANGE == PTS_MODULUS,
{
}

} // verus!
