use tuner_codec::descramble::DescrambleDispositionCounts;
use tuner_codec::multi2::cipher::{
    core_decrypt, core_encrypt, core_schedule, pi1, pi2, pi3, pi4, word, CoreData,
};
use tuner_codec::multi2::{ScrambleKey, TsAction, DEFAULT_ROUND, TS_PACKET_LEN};
use tuner_codec::{Multi2, Multi2Error};

const SYSTEM_KEY: [u8; 32] = [0x5A; 32];
const VECTOR: [u8; 8] = [1, 2, 3, 4, 5, 6, 7, 8];
const KEY_A: [u8; 16] = [
    0x10, 0x11, 0x12, 0x13, 0x14, 0x15, 0x16, 0x17, 0x28, 0x29, 0x2A, 0x2B, 0x2C, 0x2D, 0x2E, 0x2F,
];
const KEY_B: [u8; 16] = [
    0xF0, 0xE1, 0xD2, 0xC3, 0xB4, 0xA5, 0x96, 0x87, 0x78, 0x69, 0x5A, 0x4B, 0x3C, 0x2D, 0x1E, 0x0F,
];
const BLOCK: [u8; 8] = [0xDE, 0xAD, 0xBE, 0xEF, 0x01, 0x23, 0x45, 0x67];

fn cipher_a() -> Multi2 {
    Multi2::with_scramble_key(&SYSTEM_KEY, &VECTOR, &KEY_A)
}

fn xor(a: &[u8], b: &[u8]) -> [u8; 8] {
    let mut mixed = [0u8; 8];
    for index in 0..8 {
        mixed[index] = a[index] ^ b[index];
    }
    mixed
}

/// A packet with the given fourth header byte, no adaptation field and a
/// counting payload.
fn plain_packet(control: u8) -> [u8; TS_PACKET_LEN] {
    let mut packet = [0u8; TS_PACKET_LEN];
    packet[0] = 0x47;
    packet[1] = 0x01;
    packet[3] = control;
    for (index, byte) in packet.iter_mut().enumerate().skip(4) {
        *byte = index as u8;
    }
    packet
}

#[test]
fn messages_tell_the_errors_apart() {
    assert_eq!(Multi2Error::UnsetScrambleKey.to_string(), "scramble key is not set");
    assert_eq!(Multi2Error::EmptyBuffer.to_string(), "buffer must be at least 1 byte");
}

#[test]
fn only_control_value_two_is_even() {
    assert_eq!(ScrambleKey::from_tsc(0), ScrambleKey::Odd);
    assert_eq!(ScrambleKey::from_tsc(1), ScrambleKey::Odd);
    assert_eq!(ScrambleKey::from_tsc(2), ScrambleKey::Even);
    assert_eq!(ScrambleKey::from_tsc(3), ScrambleKey::Odd);
    assert_eq!(ScrambleKey::from_tsc(255), ScrambleKey::Odd);
}

#[test]
fn steps_undo_themselves() {
    let block = CoreData { l: 0x0123_4567, r: 0x89AB_CDEF };
    let (a, b) = (0xFFFF_FFFF, 0x8000_0001);
    assert_eq!(pi1(pi1(block)), block);
    assert_eq!(pi2(pi2(block, a), a), block);
    assert_eq!(pi3(pi3(block, a, b), a, b), block);
    assert_eq!(pi4(pi4(block, a), a), block);
    assert_eq!(pi1(block), CoreData { l: 0x0123_4567, r: 0x8888_8888 });
}

#[test]
fn steps_on_zero_give_their_constants() {
    let zero = CoreData::default();
    // Second step: t1 = -1, rotated it is itself, so they cancel.
    assert_eq!(pi2(zero, 0), zero);
    // Third step: t1 = 1, t2 = 0x101, t4 = 0x101, mask = 0x0101_0000 ^ 0x101.
    assert_eq!(pi3(zero, 0, 0), CoreData { l: 0, r: 0x0101_0101 });
    // Fourth step: the mask is one.
    assert_eq!(pi4(zero, 0), CoreData { l: 1, r: 0 });
}

#[test]
fn blocks_and_bytes_convert_both_ways() {
    assert_eq!(word(0x01, 0x23, 0x45, 0x67), 0x0123_4567);
    let block = CoreData::from_be(&BLOCK);
    assert_eq!(block, CoreData { l: 0xDEAD_BEEF, r: 0x0123_4567 });
    assert_eq!(block.to_be(), BLOCK);
    assert_eq!(block.xor(block), CoreData::default());
}

#[test]
fn block_operations_undo_each_other_for_every_round_count() {
    let sys = [1u32, 2, 3, 4, 5, 6, 7, 8];
    let work = core_schedule(&sys, CoreData { l: 9, r: 10 });
    let block = CoreData { l: 0xCAFE_F00D, r: 0x0BAD_BEEF };
    assert_eq!(core_encrypt(block, &work, 0), block);
    for rounds in 1..20u32 {
        let coded = core_encrypt(block, &work, rounds);
        assert_ne!(coded, block);
        assert_eq!(core_decrypt(coded, &work, rounds), block);
        assert_eq!(core_encrypt(core_decrypt(block, &work, rounds), &work, rounds), block);
    }
}

#[test]
fn decrypting_first_is_undone_by_encrypting() {
    let cipher = cipher_a();
    for key in [ScrambleKey::Odd, ScrambleKey::Even] {
        let clear = cipher.decrypt_block(key, &BLOCK).unwrap();
        assert_eq!(cipher.encrypt_block(key, &clear).unwrap(), BLOCK);
        for len in 1..40usize {
            let bytes: Vec<u8> = (0..len).map(|index| (index * 7) as u8).collect();
            let mut buffer = bytes.clone();
            cipher.decrypt_cbc(key, &mut buffer).unwrap();
            assert_eq!(buffer.len(), len);
            cipher.encrypt_cbc(key, &mut buffer).unwrap();
            assert_eq!(buffer, bytes);
        }
    }
}

#[test]
fn whole_blocks_are_chained_and_tails_are_masked() {
    let cipher = cipher_a();
    let plain: Vec<u8> = (0..19).map(|index| 0xC0 ^ index as u8).collect();
    let mut coded = plain.clone();
    cipher.encrypt_cbc(ScrambleKey::Odd, &mut coded).unwrap();

    let first = cipher
        .encrypt_block(ScrambleKey::Odd, &xor(&plain[..8], &VECTOR))
        .unwrap();
    assert_eq!(coded[..8], first);
    let second = cipher
        .encrypt_block(ScrambleKey::Odd, &xor(&plain[8..16], &first))
        .unwrap();
    assert_eq!(coded[8..16], second);
    let stream = cipher.encrypt_block(ScrambleKey::Odd, &second).unwrap();
    for index in 0..3 {
        assert_eq!(coded[16 + index], plain[16 + index] ^ stream[index]);
    }
}

#[test]
fn a_short_buffer_is_masked_with_the_encrypted_vector_both_ways() {
    let cipher = cipher_a();
    let stream = cipher.encrypt_block(ScrambleKey::Even, &VECTOR).unwrap();
    let mut buffer = [0u8; 5];
    cipher.encrypt_cbc(ScrambleKey::Even, &mut buffer).unwrap();
    assert_eq!(buffer, stream[..5]);
    let mut buffer = [0u8; 5];
    cipher.decrypt_cbc(ScrambleKey::Even, &mut buffer).unwrap();
    assert_eq!(buffer, stream[..5]);
}

#[test]
fn a_new_key_replaces_the_old_one_without_a_trace() {
    let fresh = Multi2::with_scramble_key(&SYSTEM_KEY, &VECTOR, &KEY_B);
    let mut reused = cipher_a();
    assert!(reused.is_ready());
    reused.set_scramble_key(&KEY_B);
    let mut cleared = cipher_a();
    cleared.clear_scramble_key();
    assert!(!cleared.is_ready());
    assert_eq!(cleared.work_key(ScrambleKey::Odd), Err(Multi2Error::UnsetScrambleKey));
    cleared.set_scramble_key(&KEY_B);
    for key in [ScrambleKey::Odd, ScrambleKey::Even] {
        let expected = fresh.encrypt_block(key, &BLOCK).unwrap();
        assert_eq!(reused.encrypt_block(key, &BLOCK).unwrap(), expected);
        assert_eq!(cleared.encrypt_block(key, &BLOCK).unwrap(), expected);
        assert_eq!(reused.work_key(key), fresh.work_key(key));
    }
    assert_ne!(fresh.work_key(ScrambleKey::Odd), fresh.work_key(ScrambleKey::Even));
}

#[test]
fn the_round_count_outlives_key_changes() {
    let mut cipher = Multi2::new(&SYSTEM_KEY, &VECTOR);
    assert_eq!(cipher.round(), DEFAULT_ROUND);
    cipher.set_round(9);
    cipher.set_scramble_key(&KEY_A);
    assert_eq!(cipher.round(), 9);
    cipher.clear_scramble_key();
    assert_eq!(cipher.round(), 9);
    cipher.set_scramble_key(&KEY_A);
    cipher.set_round(0);
    assert_eq!(cipher.encrypt_block(ScrambleKey::Odd, &BLOCK).unwrap(), BLOCK);
}

#[test]
fn an_unset_key_is_reported_before_an_empty_buffer() {
    let cipher = Multi2::new(&SYSTEM_KEY, &VECTOR);
    assert_eq!(
        cipher.encrypt_cbc(ScrambleKey::Odd, &mut []),
        Err(Multi2Error::UnsetScrambleKey)
    );
    assert_eq!(
        cipher.decrypt_block(ScrambleKey::Odd, &BLOCK),
        Err(Multi2Error::UnsetScrambleKey)
    );
    let mut buffer = [7u8; 9];
    assert_eq!(
        cipher.encrypt_cbc(ScrambleKey::Even, &mut buffer),
        Err(Multi2Error::UnsetScrambleKey)
    );
    assert_eq!(buffer, [7u8; 9]);
}

#[test]
fn descrambling_undoes_scrambling_and_is_idempotent() {
    let cipher = cipher_a();
    for (control, key) in [(0x80, ScrambleKey::Even), (0xC0, ScrambleKey::Odd)] {
        let clear = plain_packet(0x15);
        let mut packet = clear;
        cipher.encrypt_cbc(key, &mut packet[4..]).unwrap();
        packet[3] |= control;
        assert_ne!(packet, clear);
        assert_eq!(cipher.descramble_ts_packet(&mut packet), Ok(TsAction::Decrypted));
        assert_eq!(packet, clear);
        assert_eq!(cipher.descramble_ts_packet(&mut packet), Ok(TsAction::Unscrambled));
        assert_eq!(packet, clear);
    }
}

#[test]
fn a_payload_of_one_byte_is_decrypted_and_an_empty_one_is_broken() {
    let cipher = cipher_a();
    let mut one = plain_packet(0xB0);
    one[4] = 182;
    let before = one;
    let stream = cipher.encrypt_block(ScrambleKey::Even, &VECTOR).unwrap();
    assert_eq!(cipher.descramble_ts_packet(&mut one), Ok(TsAction::Decrypted));
    assert_eq!(one[187], before[187] ^ stream[0]);
    assert_eq!(one[..3], before[..3]);
    assert_eq!(one[3], 0x30);
    assert_eq!(one[4..187], before[4..187]);

    let mut none = plain_packet(0xB0);
    none[4] = 183;
    let before = none;
    assert_eq!(cipher.descramble_ts_packet(&mut none), Ok(TsAction::Broken));
    assert_eq!(none, before);
}

#[test]
fn packets_that_need_no_key_are_handled_without_one() {
    let cipher = Multi2::new(&SYSTEM_KEY, &VECTOR);
    let mut error = plain_packet(0x90);
    error[1] |= 0x80;
    assert_eq!(cipher.descramble_ts_packet(&mut error), Ok(TsAction::TransportError));
    let mut clear = plain_packet(0x10);
    assert_eq!(cipher.descramble_ts_packet(&mut clear), Ok(TsAction::Unscrambled));
    let mut scrambled = plain_packet(0x90);
    let before = scrambled;
    assert_eq!(
        cipher.descramble_ts_packet(&mut scrambled),
        Err(Multi2Error::UnsetScrambleKey)
    );
    assert_eq!(scrambled, before);
}

#[test]
fn a_batch_counts_each_disposition() {
    let cipher = cipher_a();
    let mut error = plain_packet(0x90);
    error[1] |= 0x80;
    let mut broken = plain_packet(0x30);
    broken[4] = 184;
    let mut adaptation_only = plain_packet(0xE0);
    adaptation_only[4] = 183;
    let mut batch = Vec::new();
    for packet in [
        plain_packet(0x90),
        plain_packet(0x10),
        adaptation_only,
        error,
        broken,
        plain_packet(0xD0),
    ] {
        batch.extend_from_slice(&packet);
    }
    batch.extend_from_slice(&[0x47, 0x01, 0x02]);
    let before = batch.clone();

    let counts = cipher.descramble_ts_packets(&mut batch).unwrap();

    assert_eq!(
        counts,
        DescrambleDispositionCounts {
            decrypted: 2,
            unscrambled: 1,
            no_payload: 1,
            transport_error: 1,
            broken: 1,
        }
    );
    assert_eq!(batch[6 * TS_PACKET_LEN..], before[6 * TS_PACKET_LEN..]);
    for index in 0..6 {
        let range = index * TS_PACKET_LEN..(index + 1) * TS_PACKET_LEN;
        let mut alone = [0u8; TS_PACKET_LEN];
        alone.copy_from_slice(&before[range.clone()]);
        cipher.descramble_ts_packet(&mut alone).unwrap();
        assert_eq!(batch[range], alone);
    }
}

#[test]
fn a_batch_stops_at_the_first_packet_that_lacks_a_key() {
    let cipher = Multi2::new(&SYSTEM_KEY, &VECTOR);
    let mut adaptation_only = plain_packet(0xE0);
    adaptation_only[4] = 183;
    let mut batch = Vec::new();
    for packet in [adaptation_only, plain_packet(0x90), adaptation_only] {
        batch.extend_from_slice(&packet);
    }
    let before = batch.clone();

    assert_eq!(
        cipher.descramble_ts_packets(&mut batch),
        Err(Multi2Error::UnsetScrambleKey)
    );

    assert_eq!(batch[3], 0x20);
    assert_eq!(batch[4..], before[4..]);
}

#[test]
fn an_empty_batch_is_an_error_and_a_short_one_is_not() {
    let cipher = cipher_a();
    assert_eq!(
        cipher.descramble_ts_packets(&mut []),
        Err(Multi2Error::EmptyBuffer)
    );
    let mut short = [0x47u8; 187];
    assert_eq!(
        cipher.descramble_ts_packets(&mut short),
        Ok(DescrambleDispositionCounts::default())
    );
    assert_eq!(short, [0x47u8; 187]);
}
