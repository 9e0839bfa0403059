use tuner_codec::pes::{
    parse_timestamp, pts_field, signed_pts_delta, ticks_to_us, PacketizedElementaryStreamAssembler,
    PacketizedElementaryStreamError, PesDemux, PtsUnwrap, PtsUnwrapOutcome,
    DECLARED_LENGTH_MAX_PES, PTS_HALF_RANGE, PTS_MODULUS, TIMESTAMP_BYTE_COUNT, UNBOUNDED_MAX_PES,
};
use tuner_codec::ts::TransportStreamPacket;

fn timestamp_bytes(value: u64, prefix: u8) -> [u8; TIMESTAMP_BYTE_COUNT] {
    let mut bytes = pts_field(value);
    bytes[0] = (prefix << 4) | (bytes[0] & 0x0F);
    bytes
}

/// Builds a PES packet with an optional PTS (and DTS), then a payload.
fn pes_packet(
    stream_identifier: u8,
    pts: Option<u64>,
    dts: Option<u64>,
    payload: &[u8],
) -> Vec<u8> {
    let mut optional = Vec::new();
    let flags = match (pts, dts) {
        (Some(pts), Some(dts)) => {
            optional.extend_from_slice(&timestamp_bytes(pts, 3));
            optional.extend_from_slice(&timestamp_bytes(dts, 1));
            0xC0
        }
        (Some(pts), None) => {
            optional.extend_from_slice(&timestamp_bytes(pts, 2));
            0x80
        }
        _ => 0x00,
    };

    let mut bytes = vec![0x00, 0x00, 0x01, stream_identifier];
    let body_length = 3 + optional.len() + payload.len();
    bytes.push(((body_length >> 8) & 0xFF) as u8);
    bytes.push((body_length & 0xFF) as u8);
    bytes.push(0x80); // marker bits '10'
    bytes.push(flags);
    bytes.push(optional.len() as u8);
    bytes.extend_from_slice(&optional);
    bytes.extend_from_slice(payload);
    bytes
}

fn transport_packets(pid: u16, pes: &[u8], first_continuity: u8) -> Vec<TransportStreamPacket> {
    pes.chunks(184)
        .enumerate()
        .map(|(index, chunk)| {
            let mut bytes = vec![0xFFu8; TransportStreamPacket::BYTE_COUNT];
            bytes[0] = TransportStreamPacket::SYNC_BYTE;
            bytes[1] = ((pid >> 8) & 0x1F) as u8;
            if index == 0 {
                bytes[1] |= 0x40;
            }
            bytes[2] = (pid & 0xFF) as u8;
            bytes[3] = 0x10 | ((first_continuity + index as u8) & 0x0F);
            bytes[4..4 + chunk.len()].copy_from_slice(chunk);
            TransportStreamPacket::parse(&bytes).unwrap()
        })
        .collect()
}

#[test]
fn decodes_a_33_bit_timestamp_round_trip() {
    let value = 0x123_4567;
    assert_eq!(
        parse_timestamp(&timestamp_bytes(value, 2), 2).unwrap(),
        value
    );
}

#[test]
fn decodes_the_maximum_33_bit_timestamp() {
    let value = (1u64 << 33) - 1;
    assert_eq!(
        parse_timestamp(&timestamp_bytes(value, 2), 2).unwrap(),
        value
    );
}

#[test]
fn signed_pts_delta_uses_the_modulus_and_half_range() {
    assert_eq!(signed_pts_delta(45_000, PTS_MODULUS - 45_000), 90_000);
    assert_eq!(signed_pts_delta(PTS_MODULUS - 45_000, 45_000), -90_000);
    assert_eq!(
        signed_pts_delta(PTS_HALF_RANGE - 1, 0),
        PTS_HALF_RANGE as i64 - 1
    );
    assert_eq!(
        signed_pts_delta(PTS_HALF_RANGE, 0),
        -(PTS_HALF_RANGE as i64)
    );
}

#[test]
fn unwrapping_before_scaling_preserves_the_exact_frame_delta() {
    let before = PTS_MODULUS - 1_500;
    let after = 1_503;
    let mut clock = PtsUnwrap::default();

    let unwrapped_before = clock.unwrap_ticks(before);
    let unwrapped_after = clock.unwrap_ticks(after);

    assert_eq!(unwrapped_after - unwrapped_before, 3_003);
    assert_eq!(
        ticks_to_us(unwrapped_after) - ticks_to_us(unwrapped_before),
        3_003 * 100 / 9
    );
}

#[test]
fn unwrapping_preserves_a_small_reverse_step_across_the_rollover() {
    let before = PTS_MODULUS - 45_000;
    let after = 45_000;
    let mut clock = PtsUnwrap::default();

    assert_eq!(clock.unwrap_ticks(before), before);
    assert_eq!(clock.unwrap_ticks(after), PTS_MODULUS + after);
    assert_eq!(clock.unwrap_ticks(before), before);
}

#[test]
fn resetting_the_unwrapper_starts_a_new_epoch() {
    let mut clock = PtsUnwrap::default();
    clock.unwrap_ticks(PTS_MODULUS - 45_000);
    assert_eq!(clock.unwrap_ticks(45_000), PTS_MODULUS + 45_000);

    clock.reset();

    assert_eq!(clock.unwrap_ticks(45_000), 45_000);
}

#[test]
fn an_unrepresentable_reverse_step_rebaselines_without_wrapping_u64() {
    let mut clock = PtsUnwrap::default();
    assert_eq!(clock.unwrap_ticks(100), 100);

    let outcome = clock.unwrap_ticks_with_status(PTS_MODULUS - 100);

    assert_eq!(
        outcome,
        PtsUnwrapOutcome {
            ticks: PTS_MODULUS - 100,
            epoch_reset: true,
        }
    );
    assert_eq!(clock.unwrap_ticks(100), PTS_MODULUS + 100);
}

#[test]
fn rejects_a_timestamp_with_a_cleared_marker_bit() {
    let mut bytes = timestamp_bytes(90_000, 2);
    bytes[2] &= 0xFE;
    assert_eq!(
        parse_timestamp(&bytes, 2),
        Err(PacketizedElementaryStreamError::InvalidTimestamp)
    );
}

#[test]
fn rejects_a_timestamp_with_the_wrong_prefix() {
    let bytes = timestamp_bytes(90_000, 2);
    assert_eq!(
        parse_timestamp(&bytes, 3),
        Err(PacketizedElementaryStreamError::InvalidTimestamp)
    );
}

#[test]
fn assembles_a_bounded_packet_with_pts_only() {
    // Arrange
    let payload = [0xAA; 32];
    let pes = pes_packet(0xE0, Some(90_000), None, &payload);
    let packets = transport_packets(0x0100, &pes, 0);
    let mut assembler = PacketizedElementaryStreamAssembler::new(0x0100);

    // Act
    let completed: Vec<_> = packets
        .iter()
        .flat_map(|packet| assembler.append(packet).unwrap())
        .collect();

    // Assert
    assert_eq!(completed.len(), 1);
    assert_eq!(completed[0].stream_identifier, 0xE0);
    assert_eq!(completed[0].presentation_timestamp_90khz, Some(90_000));
    assert_eq!(completed[0].decoding_timestamp_90khz, None);
    assert_eq!(completed[0].elementary_bytes, payload);
    assert_eq!(completed[0].payload_byte_count(), 32);
}

#[test]
fn assembles_a_packet_carrying_both_pts_and_dts() {
    let payload = [0x5A; 16];
    let pes = pes_packet(0xE0, Some(126_000), Some(90_000), &payload);
    let packets = transport_packets(0x0100, &pes, 3);
    let mut assembler = PacketizedElementaryStreamAssembler::new(0x0100);

    let completed: Vec<_> = packets
        .iter()
        .flat_map(|packet| assembler.append(packet).unwrap())
        .collect();

    assert_eq!(completed.len(), 1);
    assert_eq!(completed[0].presentation_timestamp_90khz, Some(126_000));
    assert_eq!(completed[0].decoding_timestamp_90khz, Some(90_000));
}

#[test]
fn reassembles_a_packet_spanning_several_transport_packets() {
    let payload = vec![0x3C; 700];
    let pes = pes_packet(0xE0, Some(45_000), None, &payload);
    let packets = transport_packets(0x0100, &pes, 0);
    assert!(packets.len() > 3, "fixture must span multiple packets");
    let mut assembler = PacketizedElementaryStreamAssembler::new(0x0100);

    let completed: Vec<_> = packets
        .iter()
        .flat_map(|packet| assembler.append(packet).unwrap())
        .collect();

    assert_eq!(completed.len(), 1);
    assert_eq!(completed[0].elementary_bytes, payload);
}

#[test]
fn ignores_packets_for_another_packet_identifier() {
    let pes = pes_packet(0xE0, None, None, &[0x01, 0x02]);
    let packets = transport_packets(0x0200, &pes, 0);
    let mut assembler = PacketizedElementaryStreamAssembler::new(0x0100);

    assert!(assembler.append(&packets[0]).unwrap().is_empty());
}

#[test]
fn rejects_a_scrambled_packet() {
    let pes = pes_packet(0xE0, None, None, &[0x01]);
    let mut packet = transport_packets(0x0100, &pes, 0)[0].clone();
    packet.scrambling_control = 2;
    let mut assembler = PacketizedElementaryStreamAssembler::new(0x0100);

    assert_eq!(
        assembler.append(&packet),
        Err(PacketizedElementaryStreamError::ScrambledPacket {
            packet_identifier: 0x0100
        })
    );
}

#[test]
fn rejects_a_packet_flagged_with_a_transport_error() {
    let pes = pes_packet(0xE0, None, None, &[0x01]);
    let mut packet = transport_packets(0x0100, &pes, 0)[0].clone();
    packet.transport_error_indicator = true;
    let mut assembler = PacketizedElementaryStreamAssembler::new(0x0100);

    assert_eq!(
        assembler.append(&packet),
        Err(PacketizedElementaryStreamError::TransportError {
            packet_identifier: 0x0100
        })
    );
}

#[test]
fn rejects_a_payload_without_the_start_code_prefix() {
    let mut pes = pes_packet(0xE0, None, None, &[0x01]);
    pes[2] = 0x02; // 00 00 02 is not a PES start code
    let packets = transport_packets(0x0100, &pes, 0);
    let mut assembler = PacketizedElementaryStreamAssembler::new(0x0100);

    assert_eq!(
        assembler.append(&packets[0]),
        Err(PacketizedElementaryStreamError::InvalidStartCodePrefix)
    );
}

#[test]
fn reports_the_per_instance_packet_limit() {
    let pes = pes_packet(0xE0, None, None, &[0x01]);
    let packet = &transport_packets(0x0100, &pes, 0)[0];
    let mut assembler = PacketizedElementaryStreamAssembler::with_max(0x0100, 128);

    assert_eq!(
        assembler.append(packet),
        Err(PacketizedElementaryStreamError::PacketTooLarge {
            maximum: 128,
            actual: 184,
        })
    );
}

#[test]
fn accepts_the_maximum_declared_length_packet() {
    let payload = vec![0x5A; usize::from(u16::MAX) - 3];
    let pes = pes_packet(0xBD, None, None, &payload);
    assert_eq!(pes.len(), 6 + usize::from(u16::MAX));
    let packets = pes
        .chunks(184)
        .enumerate()
        .map(|(index, chunk)| TransportStreamPacket {
            transport_error_indicator: false,
            payload_unit_start_indicator: index == 0,
            transport_priority: false,
            packet_identifier: 0x0100,
            scrambling_control: 0,
            continuity_counter: index as u8 & 0x0F,
            has_adaptation_field: chunk.len() < 184,
            has_payload: true,
            payload: chunk.to_vec(),
        })
        .collect::<Vec<_>>();
    let mut assembler =
        PacketizedElementaryStreamAssembler::with_max(0x0100, DECLARED_LENGTH_MAX_PES);

    let completed = packets
        .iter()
        .flat_map(|packet| assembler.append(packet).unwrap())
        .collect::<Vec<_>>();

    assert_eq!(completed.len(), 1);
    assert_eq!(completed[0].elementary_bytes, payload);
}

#[test]
fn rejects_an_optional_header_without_its_marker_bits() {
    let mut pes = pes_packet(0xE0, None, None, &[0x01, 0x02, 0x03]);
    pes[6] = 0x40; // marker bits must be '10'
    let packets = transport_packets(0x0100, &pes, 0);
    let mut assembler = PacketizedElementaryStreamAssembler::new(0x0100);

    assert_eq!(
        assembler.append(&packets[0]),
        Err(PacketizedElementaryStreamError::InvalidOptionalHeader)
    );
}

#[test]
fn an_error_resets_the_assembler_for_the_next_unit_start() {
    let good = pes_packet(0xE0, Some(90_000), None, &[0x11; 8]);
    let mut bad = pes_packet(0xE0, None, None, &[0x01]);
    bad[6] = 0x40;
    let mut assembler = PacketizedElementaryStreamAssembler::new(0x0100);

    assert!(assembler
        .append(&transport_packets(0x0100, &bad, 0)[0])
        .is_err());
    let completed: Vec<_> = transport_packets(0x0100, &good, 0)
        .iter()
        .flat_map(|packet| assembler.append(packet).unwrap())
        .collect();

    assert_eq!(completed.len(), 1);
    assert_eq!(completed[0].presentation_timestamp_90khz, Some(90_000));
}

#[test]
fn an_unbounded_packet_completes_on_the_next_unit_start() {
    // Declared length 0 (legal for video): terminated by the next start.
    // The payload is sized to fill the 184-byte transport payload exactly
    // (9 PES header + 5 PTS bytes + 170), because an unbounded packet has
    // no length to stop at and would otherwise absorb the trailing filler.
    let payload = [0x77; 170];
    let mut unbounded = pes_packet(0xE0, Some(90_000), None, &payload);
    unbounded[4] = 0;
    unbounded[5] = 0;
    let mut assembler = PacketizedElementaryStreamAssembler::new(0x0100);

    let first = transport_packets(0x0100, &unbounded, 0);
    let completed_before: Vec<_> = first
        .iter()
        .flat_map(|packet| assembler.append(packet).unwrap())
        .collect();
    assert!(completed_before.is_empty());

    // The next unit start both flushes the unbounded packet and completes
    // its own bounded packet, so a single append yields two.
    let next = pes_packet(0xE0, Some(93_000), None, &[0x22; 8]);
    let continuity = first.len() as u8;
    let completed = assembler
        .append(&transport_packets(0x0100, &next, continuity)[0])
        .unwrap();

    assert_eq!(completed.len(), 2);
    assert_eq!(completed[0].presentation_timestamp_90khz, Some(90_000));
    assert_eq!(completed[0].elementary_bytes, payload);
    assert_eq!(completed[1].presentation_timestamp_90khz, Some(93_000));
    assert_eq!(completed[1].elementary_bytes, [0x22; 8]);
}

#[test]
fn rewatching_a_pid_does_not_reset_routing_mid_packet() {
    let payload = vec![0x3C; 700];
    let pes = pes_packet(0xE0, Some(45_000), None, &payload);
    let packets = transport_packets(0x0100, &pes, 0);
    let mut demux = PesDemux::with_max(UNBOUNDED_MAX_PES);
    let mut completed = Vec::new();

    for packet in &packets {
        demux.watch(0x0100);
        completed.extend(demux.push_parsed(packet).unwrap());
    }

    assert!(demux.watching(0x0100));
    assert_eq!(completed.len(), 1);
    assert_eq!(completed[0].elementary_bytes, payload);
}

#[test]
fn routing_preserves_the_assemblers_scrambled_packet_error() {
    let pes = pes_packet(0xE0, None, None, &[0x01]);
    let mut packet = transport_packets(0x0100, &pes, 0)[0].clone();
    packet.scrambling_control = 2;
    let mut demux = PesDemux::new();
    demux.watch(0x0100);

    assert_eq!(
        demux.push_parsed(&packet),
        Err(PacketizedElementaryStreamError::ScrambledPacket {
            packet_identifier: 0x0100,
        })
    );
}

/// Builds a video-style PES packet with `PES_packet_length` fixed at
/// zero, as a video elementary stream may whose access unit is too large
/// to declare up front. Termination then depends entirely on the next unit-start
/// packet, which is exactly the case [`UNBOUNDED_MAX_PES`] exists to
/// accept and [`DECLARED_LENGTH_MAX_PES`] cannot.
fn unbounded_video_pes_packet(stream_identifier: u8, pts: u64, payload: &[u8]) -> Vec<u8> {
    let optional = timestamp_bytes(pts, 2);
    let mut bytes = vec![0x00, 0x00, 0x01, stream_identifier];
    bytes.push(0x00); // PES_packet_length high byte -- zero declares "unbounded"
    bytes.push(0x00); // PES_packet_length low byte
    bytes.push(0x80); // marker bits '10'
    bytes.push(0x80); // PTS-only flag
    bytes.push(optional.len() as u8);
    bytes.extend_from_slice(&optional);
    bytes.extend_from_slice(payload);
    bytes
}

#[test]
fn synthetic_unbounded_video_pes_needs_the_unbounded_cap() {
    const VIDEO_PID: u16 = 0x0111;
    // `unbounded_video_pes_packet` writes a 9-byte PES prefix (start
    // code, stream id, zeroed PES_packet_length, marker byte, flags
    // byte, optional-header length byte) plus a `TIMESTAMP_BYTE_COUNT`
    // PTS field before the payload. Round the minimum payload down to
    // whatever header-plus-payload total lands on an exact 184-byte TS
    // packet boundary, so no final TS packet is ever partial --
    // `transport_packets` then never pads a short last chunk, so no
    // filler byte can be folded into the reassembled PES, and the byte
    // count asserted below is honestly every byte this test put on the
    // wire.
    const PES_HEADER_BYTE_COUNT: usize = 9 + TIMESTAMP_BYTE_COUNT;
    const MINIMUM_PAYLOAD_BYTE_COUNT: usize = DECLARED_LENGTH_MAX_PES + 4_096;
    const UNALIGNED_TOTAL_BYTE_COUNT: usize =
        PES_HEADER_BYTE_COUNT + MINIMUM_PAYLOAD_BYTE_COUNT;
    const ALIGNED_TOTAL_BYTE_COUNT: usize =
        UNALIGNED_TOTAL_BYTE_COUNT - (UNALIGNED_TOTAL_BYTE_COUNT % 184);
    const PAYLOAD_BYTE_COUNT: usize = ALIGNED_TOTAL_BYTE_COUNT - PES_HEADER_BYTE_COUNT;
    let payload: Vec<u8> = (0..PAYLOAD_BYTE_COUNT)
        .map(|index| (index % 256) as u8)
        .collect();
    let pes = unbounded_video_pes_packet(0xE0, 90_000, &payload);
    let video_packets = transport_packets(VIDEO_PID, &pes, 0);

    // A real capture opens with a run of transport-scrambled packets
    // before the descrambler is armed; the router must surface each as
    // `ScrambledPacket` rather than folding it into the elementary
    // stream, and must recover cleanly once clear packets resume.
    let junk_pes = pes_packet(0xE0, None, None, &[0u8; 512]);
    let mut scrambled_prefix_packets = transport_packets(VIDEO_PID, &junk_pes, 0);
    for packet in &mut scrambled_prefix_packets {
        packet.scrambling_control = 2;
    }

    // A trailing unit-start packet is what actually flushes an
    // unbounded (declared-length-zero) PES: the assembler has no other
    // signal that the access unit ended.
    let closing_pes = pes_packet(0xE0, Some(90_100), None, &[0xAB; 8]);
    let closing_packets = transport_packets(VIDEO_PID, &closing_pes, video_packets.len() as u8);

    let mut unbounded = PesDemux::with_max(UNBOUNDED_MAX_PES);
    unbounded.watch(VIDEO_PID);
    let mut unbounded_units = Vec::new();
    let mut scrambled_packet_count = 0usize;
    for packet in scrambled_prefix_packets
        .iter()
        .chain(video_packets.iter())
        .chain(closing_packets.iter())
    {
        match unbounded.push_parsed(packet) {
            Ok(units) => unbounded_units.extend(units),
            Err(PacketizedElementaryStreamError::ScrambledPacket { packet_identifier }) => {
                assert_eq!(packet_identifier, VIDEO_PID);
                scrambled_packet_count += 1;
            }
            Err(error) => panic!("unexpected unbounded-cap error: {error:?}"),
        }
    }
    assert_eq!(scrambled_packet_count, scrambled_prefix_packets.len());
    assert_eq!(unbounded_units.len(), 2);
    assert_eq!(unbounded_units[0].payload_byte_count(), PAYLOAD_BYTE_COUNT);
    assert_eq!(unbounded_units[1].payload_byte_count(), 8);
}

#[test]
fn synthetic_unbounded_video_pes_exceeds_the_declared_length_cap() {
    const VIDEO_PID: u16 = 0x0111;
    // `unbounded_video_pes_packet` writes a 9-byte PES prefix (start
    // code, stream id, zeroed PES_packet_length, marker byte, flags
    // byte, optional-header length byte) plus a `TIMESTAMP_BYTE_COUNT`
    // PTS field before the payload. Round the minimum payload down to
    // whatever header-plus-payload total lands on an exact 184-byte TS
    // packet boundary, so no final TS packet is ever partial --
    // `transport_packets` then never pads a short last chunk, so no
    // filler byte can be folded into the reassembled PES, and the byte
    // count asserted below is honestly every byte this test put on the
    // wire.
    const PES_HEADER_BYTE_COUNT: usize = 9 + TIMESTAMP_BYTE_COUNT;
    const MINIMUM_PAYLOAD_BYTE_COUNT: usize = DECLARED_LENGTH_MAX_PES + 4_096;
    const UNALIGNED_TOTAL_BYTE_COUNT: usize =
        PES_HEADER_BYTE_COUNT + MINIMUM_PAYLOAD_BYTE_COUNT;
    const ALIGNED_TOTAL_BYTE_COUNT: usize =
        UNALIGNED_TOTAL_BYTE_COUNT - (UNALIGNED_TOTAL_BYTE_COUNT % 184);
    const PAYLOAD_BYTE_COUNT: usize = ALIGNED_TOTAL_BYTE_COUNT - PES_HEADER_BYTE_COUNT;
    let payload: Vec<u8> = (0..PAYLOAD_BYTE_COUNT)
        .map(|index| (index % 256) as u8)
        .collect();
    let pes = unbounded_video_pes_packet(0xE0, 90_000, &payload);
    let video_packets = transport_packets(VIDEO_PID, &pes, 0);

    let mut declared = PesDemux::with_max(DECLARED_LENGTH_MAX_PES);
    declared.watch(VIDEO_PID);
    let error = video_packets
        .iter()
        .find_map(|packet| declared.push_parsed(packet).err())
        .expect("a PES this large must exceed the declared-length cap before the feed ends");

    let PacketizedElementaryStreamError::PacketTooLarge { maximum, actual } = error else {
        panic!("expected PacketTooLarge, got {error:?}");
    };
    assert_eq!(maximum, DECLARED_LENGTH_MAX_PES);
    assert!(actual > maximum);
}
