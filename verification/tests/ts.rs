use tuner_codec::ts::{
    TransportStreamFramer, TransportStreamFramerError, TransportStreamPacket,
    TransportStreamPacketError,
};

fn packet(pid: u16, adaptation_field_control: u8) -> Vec<u8> {
    let mut bytes = vec![0u8; TransportStreamPacket::BYTE_COUNT];
    bytes[0] = TransportStreamPacket::SYNC_BYTE;
    bytes[1] = ((pid >> 8) & 0x1F) as u8;
    bytes[2] = (pid & 0xFF) as u8;
    bytes[3] = (adaptation_field_control & 0x03) << 4;
    bytes
}

#[test]
fn parses_header_fields() {
    // Arrange
    let mut bytes = packet(0x0100, 0x01);
    bytes[1] |= 0xE0; // error + unit-start + priority
    bytes[3] |= 0xC0 | 0x0B; // scrambling control 3, continuity 11

    // Act
    let parsed = TransportStreamPacket::parse(&bytes).unwrap();

    // Assert
    assert!(parsed.transport_error_indicator);
    assert!(parsed.payload_unit_start_indicator);
    assert!(parsed.transport_priority);
    assert_eq!(parsed.packet_identifier, 0x0100);
    assert_eq!(parsed.scrambling_control, 3);
    assert_eq!(parsed.continuity_counter, 11);
    assert!(!parsed.has_adaptation_field);
    assert!(parsed.has_payload);
    assert_eq!(parsed.payload.len(), 184);
}

#[test]
fn rejects_wrong_length() {
    assert_eq!(
        TransportStreamPacket::parse(&[0x47; 187]),
        Err(TransportStreamPacketError::InvalidPacketLength(187))
    );
}

#[test]
fn rejects_bad_sync_byte() {
    let mut bytes = packet(0x0100, 0x01);
    bytes[0] = 0x46;
    assert_eq!(
        TransportStreamPacket::parse(&bytes),
        Err(TransportStreamPacketError::InvalidSyncByte(0x46))
    );
}

#[test]
fn rejects_reserved_adaptation_field_control() {
    assert_eq!(
        TransportStreamPacket::parse(&packet(0x0100, 0x00)),
        Err(TransportStreamPacketError::ReservedAdaptationFieldControl)
    );
}

#[test]
fn rejects_oversized_adaptation_field() {
    let mut bytes = packet(0x0100, 0x03);
    bytes[4] = 200; // longer than the remaining packet
    assert_eq!(
        TransportStreamPacket::parse(&bytes),
        Err(TransportStreamPacketError::AdaptationFieldTooLarge(200))
    );
}

#[test]
fn adaptation_only_packet_has_no_payload() {
    let mut bytes = packet(0x0100, 0x02);
    bytes[4] = 10;
    let parsed = TransportStreamPacket::parse(&bytes).unwrap();
    assert!(parsed.has_adaptation_field);
    assert!(!parsed.has_payload);
    assert!(parsed.payload.is_empty());
}

#[test]
fn framer_drains_whole_packets_and_keeps_remainder() {
    // Arrange
    let mut framer = TransportStreamFramer::new();
    let mut feed = packet(0x0100, 0x01);
    feed.extend_from_slice(&packet(0x0101, 0x01));
    feed.extend_from_slice(&[0x47, 0x00]); // partial third packet

    // Act
    let packets = framer.append(&feed).unwrap();

    // Assert
    assert_eq!(packets.len(), 2);
    assert_eq!(packets[0].packet_identifier, 0x0100);
    assert_eq!(packets[1].packet_identifier, 0x0101);
}

#[test]
fn framer_resynchronizes_after_leading_garbage() {
    let mut framer = TransportStreamFramer::new();
    let mut feed = vec![0xFFu8; 7];
    feed.extend_from_slice(&packet(0x0160, 0x01));
    feed.extend_from_slice(&packet(0x0160, 0x01));

    let packets = framer.append(&feed).unwrap();

    assert_eq!(packets.len(), 2);
    assert!(packets.iter().all(|p| p.packet_identifier == 0x0160));
}

#[test]
fn framer_rejects_input_beyond_its_bound() {
    let mut framer = TransportStreamFramer::new();
    let oversized = vec![0u8; TransportStreamFramer::MAXIMUM_INPUT_BYTE_COUNT + 1];

    assert_eq!(
        framer.append(&oversized),
        Err(TransportStreamFramerError::InputTooLarge {
            maximum: 192_512,
            actual: TransportStreamFramer::MAXIMUM_INPUT_BYTE_COUNT + 1,
        })
    );
}

#[test]
fn framer_accepts_input_across_multiple_appends() {
    let mut framer = TransportStreamFramer::new();
    let one = packet(0x1FFF, 0x01);

    assert_eq!(framer.append(&one[..100]).unwrap().len(), 0);
    let mut rest = one[100..].to_vec();
    rest.extend_from_slice(&packet(0x1FFF, 0x01));
    let packets = framer.append(&rest).unwrap();

    assert_eq!(packets.len(), 2);
}
