use tuner_codec::descramble::DescrambleDispositionCounts;
use tuner_codec::multi2::{ScrambleKey, TsAction, TS_PACKET_LEN};
use tuner_codec::{Multi2, Multi2Error};

fn oracle_input(len: usize) -> Vec<u8> {
    (0..len)
        .map(|index| (index * 13 + (index >> 1) + 0x31) as u8)
        .collect()
}

fn synthetic_oracle_cipher() -> Multi2 {
    let system_key = std::array::from_fn(|index| index as u8);
    let cbc_init = std::array::from_fn(|index| 0xa0 + index as u8);
    let scramble_key = std::array::from_fn(|index| 0x40 + index as u8);
    Multi2::with_scramble_key(&system_key, &cbc_init, &scramble_key)
}

fn unhex(value: &str) -> Vec<u8> {
    (0..value.len() / 2)
        .map(|index| {
            u8::from_str_radix(&value[index * 2..index * 2 + 2], 16).expect("hex byte")
        })
        .collect()
}

// ------------------------------------------------------------------
// Known-answer vectors.
// Setup A (schedule + block KATs): sys = 00..1f, init_cbc = a0..a7,
//   scramble key = 00..0f (odd CW 00..07, even CW 08..0f).
// Setup B (CBC + TS KATs): same sys/cbc, scramble key = 30..3f
//   (odd CW 30..37, even CW 38..3f), round = 4.
// ------------------------------------------------------------------

const SCHED_ODD_SYS00_1F: [u32; 8] = [
    0xccff3157, 0x1021f5d1, 0x40142236, 0x5035d7e7, 0x6d8b4109, 0x97d97d03, 0xee5a46a4,
    0x79833ba7,
];
const SCHED_EVEN_SYS00_1F: [u32; 8] = [
    0xc4f7395f, 0x80027422, 0x78bab3a7, 0xf8b8c785, 0xc73ff311, 0xfca7c5a9, 0xbce781f8,
    0x40404451,
];

const BLK_IN: [u8; 8] = [0x00, 0x01, 0x02, 0x03, 0x04, 0x05, 0x06, 0x07];
const BLK_ENC_R1: [u8; 8] = [0x6c, 0xda, 0x85, 0xfc, 0x63, 0xb1, 0x6f, 0x2c];
const BLK_ENC_R2: [u8; 8] = [0xbb, 0x81, 0x49, 0x5c, 0xe3, 0x36, 0x2b, 0x1f];
const BLK_ENC_R4: [u8; 8] = [0xcc, 0x9d, 0xc3, 0x9f, 0xd0, 0x05, 0xa3, 0x2b];
const BLK_ENC_R8: [u8; 8] = [0xfb, 0x86, 0xcd, 0x85, 0x37, 0x4f, 0xb3, 0x36];

const CBC_PT48: [u8; 48] = [
    0x00, 0x01, 0x02, 0x03, 0x04, 0x05, 0x06, 0x07, 0x08, 0x09, 0x0a, 0x0b, 0x0c, 0x0d, 0x0e,
    0x0f, 0x10, 0x11, 0x12, 0x13, 0x14, 0x15, 0x16, 0x17, 0x18, 0x19, 0x1a, 0x1b, 0x1c, 0x1d,
    0x1e, 0x1f, 0x20, 0x21, 0x22, 0x23, 0x24, 0x25, 0x26, 0x27, 0x28, 0x29, 0x2a, 0x2b, 0x2c,
    0x2d, 0x2e, 0x2f,
];
const CBC_PT27: [u8; 27] = [
    0xf0, 0xf1, 0xf2, 0xf3, 0xf4, 0xf5, 0xf6, 0xf7, 0xf8, 0xf9, 0xfa, 0xfb, 0xfc, 0xfd, 0xfe,
    0xff, 0x00, 0x01, 0x02, 0x03, 0x04, 0x05, 0x06, 0x07, 0x08, 0x09, 0x0a,
];
const CBC_ENC_ODD_48: [u8; 48] = [
    0x44, 0x1d, 0x9f, 0x22, 0x04, 0xa3, 0xde, 0x53, 0x54, 0xf6, 0x0c, 0x49, 0x29, 0xb0, 0xf7,
    0x4e, 0xb6, 0xe7, 0x65, 0x99, 0x47, 0x09, 0x3b, 0x46, 0xfb, 0x92, 0xaf, 0xa3, 0x91, 0xf8,
    0x2c, 0xfb, 0x36, 0xb6, 0x62, 0x76, 0xff, 0x11, 0x11, 0x07, 0x95, 0x63, 0x6e, 0x9e, 0x16,
    0xa4, 0x3b, 0x96,
];
const CBC_ENC_EVEN_48: [u8; 48] = [
    0x9e, 0xdd, 0xb2, 0x45, 0x1b, 0xa0, 0x11, 0x63, 0xf6, 0xff, 0x3f, 0x91, 0x31, 0x67, 0x93,
    0x6b, 0xb7, 0xef, 0x02, 0x2c, 0xd7, 0x9e, 0x04, 0x54, 0x23, 0xf8, 0xdb, 0xc3, 0x4d, 0x2c,
    0x9e, 0xea, 0xb3, 0x3e, 0x39, 0x88, 0x4d, 0xb2, 0xde, 0x3d, 0xff, 0xf4, 0x04, 0x9e, 0xbb,
    0xbd, 0xcd, 0xeb,
];
const CBC_ENC_ODD_27: [u8; 27] = [
    0xcd, 0xbe, 0xe0, 0x5b, 0x98, 0x74, 0xb1, 0x9e, 0x4e, 0xf0, 0x0a, 0xdf, 0x2a, 0xa3, 0xfc,
    0xb6, 0x75, 0xbf, 0xdb, 0xa1, 0x9d, 0x03, 0x4e, 0x27, 0xcd, 0xf3, 0x19,
];
const CBC_ENC_EVEN_27: [u8; 27] = [
    0x8a, 0x71, 0xac, 0xf7, 0xbe, 0xd0, 0xe4, 0x74, 0x86, 0x25, 0x32, 0x45, 0x9b, 0x72, 0xe1,
    0x9b, 0xf8, 0x1c, 0x9e, 0x94, 0x7f, 0x87, 0x68, 0x0c, 0x19, 0xaa, 0x84,
];

fn sys_a() -> [u8; 32] {
    let mut k = [0u8; 32];
    for (i, b) in k.iter_mut().enumerate() {
        *b = i as u8;
    }
    k
}

fn cbc_a() -> [u8; 8] {
    let mut k = [0u8; 8];
    for (i, b) in k.iter_mut().enumerate() {
        *b = 0xa0 + i as u8;
    }
    k
}

/// Setup A: schedule/block KAT cipher (scr = 00..0f).
fn cipher_setup_a() -> Multi2 {
    let mut m2 = Multi2::new(&sys_a(), &cbc_a());
    let mut scr = [0u8; 16];
    for (i, b) in scr.iter_mut().enumerate() {
        *b = i as u8;
    }
    m2.set_scramble_key(&scr);
    m2
}

/// Setup B: CBC/TS KAT cipher (scr = 30..3f, round = 4).
fn cipher_setup_b() -> Multi2 {
    let mut m2 = Multi2::new(&sys_a(), &cbc_a());
    let mut scr = [0u8; 16];
    for (i, b) in scr.iter_mut().enumerate() {
        *b = 0x30 + i as u8;
    }
    m2.set_scramble_key(&scr);
    m2
}

#[test]
fn default_round_is_4() {
    assert_eq!(Multi2::new(&[0u8; 32], &[0u8; 8]).round(), 4);
}

#[test]
fn key_schedule_kat() {
    let m2 = cipher_setup_a();
    assert_eq!(*m2.work_key(ScrambleKey::Odd).unwrap(), SCHED_ODD_SYS00_1F);
    assert_eq!(*m2.work_key(ScrambleKey::Even).unwrap(), SCHED_EVEN_SYS00_1F);
}

#[test]
fn block_encrypt_kat_rounds() {
    let mut m2 = cipher_setup_a();
    for (round, expect) in [
        (1, BLK_ENC_R1),
        (2, BLK_ENC_R2),
        (4, BLK_ENC_R4),
        (8, BLK_ENC_R8),
    ] {
        m2.set_round(round);
        let ct = m2.encrypt_block(ScrambleKey::Odd, &BLK_IN).unwrap();
        assert_eq!(ct, expect, "round {round} encrypt");
        let pt = m2.decrypt_block(ScrambleKey::Odd, &ct).unwrap();
        assert_eq!(pt, BLK_IN, "round {round} decrypt inverts");
    }
}

#[test]
fn cbc_encrypt_kat() {
    let m2 = cipher_setup_b();
    let mut buf = CBC_PT48;
    m2.encrypt_cbc(ScrambleKey::Odd, &mut buf).unwrap();
    assert_eq!(buf, CBC_ENC_ODD_48);

    let mut buf = CBC_PT48;
    m2.encrypt_cbc(ScrambleKey::Even, &mut buf).unwrap();
    assert_eq!(buf, CBC_ENC_EVEN_48);

    // 27 bytes: exercises the CFB-style partial tail.
    let mut buf = CBC_PT27;
    m2.encrypt_cbc(ScrambleKey::Odd, &mut buf).unwrap();
    assert_eq!(buf, CBC_ENC_ODD_27);

    let mut buf = CBC_PT27;
    m2.encrypt_cbc(ScrambleKey::Even, &mut buf).unwrap();
    assert_eq!(buf, CBC_ENC_EVEN_27);
}

#[test]
fn cbc_decrypt_kat() {
    let m2 = cipher_setup_b();
    let mut buf = CBC_ENC_ODD_48;
    m2.decrypt_cbc(ScrambleKey::Odd, &mut buf).unwrap();
    assert_eq!(buf, CBC_PT48);

    let mut buf = CBC_ENC_EVEN_48;
    m2.decrypt_cbc(ScrambleKey::Even, &mut buf).unwrap();
    assert_eq!(buf, CBC_PT48);

    let mut buf = CBC_ENC_ODD_27;
    m2.decrypt_cbc(ScrambleKey::Odd, &mut buf).unwrap();
    assert_eq!(buf, CBC_PT27);

    let mut buf = CBC_ENC_EVEN_27;
    m2.decrypt_cbc(ScrambleKey::Even, &mut buf).unwrap();
    assert_eq!(buf, CBC_PT27);
}

#[test]
fn cbc_iv_does_not_chain_across_calls() {
    // Every CBC call restarts from init_cbc: two separate single-block
    // encryptions equal the first two blocks of one combined encryption
    // ONLY for block 0; block 1 differs (IV vs chained ciphertext).
    let m2 = cipher_setup_b();
    let mut two = CBC_PT48;
    m2.encrypt_cbc(ScrambleKey::Odd, &mut two[..16]).unwrap();

    let mut blk0 = CBC_PT48;
    m2.encrypt_cbc(ScrambleKey::Odd, &mut blk0[..8]).unwrap();
    let mut blk1 = CBC_PT48;
    m2.encrypt_cbc(ScrambleKey::Odd, &mut blk1[8..16]).unwrap();

    assert_eq!(two[..8], blk0[..8]);
    assert_ne!(two[8..16], blk1[8..16]);
}

#[test]
fn cbc_roundtrip_all_lengths() {
    // Deterministic xorshift generator: encrypt, then decrypt, for lengths 1..=64 (covers 0..8 byte partial tails) and
    // rounds 1..=8, both keys.
    let mut state = 0x9e3779b97f4a7c15u64;
    let mut next = move || {
        state ^= state << 13;
        state ^= state >> 7;
        state ^= state << 17;
        state
    };
    for round in 1..=8u32 {
        let mut m2r = cipher_setup_b();
        m2r.set_round(round);
        for len in 1..=64usize {
            let mut pt = vec![0u8; len];
            for b in pt.iter_mut() {
                *b = next() as u8;
            }
            for key in [ScrambleKey::Odd, ScrambleKey::Even] {
                let mut buf = pt.clone();
                m2r.encrypt_cbc(key, &mut buf).unwrap();
                if round == 4 && len > 8 {
                    assert_ne!(buf, pt, "ciphertext should differ from plaintext");
                }
                m2r.decrypt_cbc(key, &mut buf).unwrap();
                assert_eq!(buf, pt, "round {round} len {len} key {key:?}");
            }
        }
    }
}

#[test]
fn unset_scramble_key_errors() {
    let mut m2 = Multi2::new(&sys_a(), &cbc_a());
    let mut buf = [0u8; 8];
    assert_eq!(
        m2.decrypt_cbc(ScrambleKey::Odd, &mut buf),
        Err(Multi2Error::UnsetScrambleKey)
    );
    assert_eq!(
        m2.encrypt_block(ScrambleKey::Even, &buf),
        Err(Multi2Error::UnsetScrambleKey)
    );
    m2.set_scramble_key(&[0u8; 16]);
    m2.decrypt_cbc(ScrambleKey::Odd, &mut buf).unwrap();
    m2.clear_scramble_key();
    assert_eq!(
        m2.decrypt_cbc(ScrambleKey::Odd, &mut buf),
        Err(Multi2Error::UnsetScrambleKey)
    );
}

#[test]
fn empty_buffer_errors() {
    let m2 = cipher_setup_b();
    assert_eq!(
        m2.encrypt_cbc(ScrambleKey::Odd, &mut []),
        Err(Multi2Error::EmptyBuffer)
    );
    assert_eq!(
        m2.decrypt_cbc(ScrambleKey::Even, &mut []),
        Err(Multi2Error::EmptyBuffer)
    );
}

#[test]
fn matches_synthetic_oracle_for_full_and_partial_blocks() {
    let cipher = synthetic_oracle_cipher();
    let vectors = [
        (2, 1, "e2"),
        (3, 7, "6aceaf7d9f5591"),
        (2, 8, "28e0541bff168c2d"),
        (3, 9, "27d7dd4a1517304d0f"),
        (2, 17, "28e0541bff168c2d081f8edce75f4acc0f"),
        (
            3,
            33,
            "27d7dd4a1517304d279f5517da42689473e44e86ac6e280d688d5b0ebd187606a5",
        ),
    ];
    for (scrambling_control, len, expected) in vectors {
        let mut actual = oracle_input(len);
        cipher
            .decrypt_cbc(ScrambleKey::from_tsc(scrambling_control), &mut actual)
            .expect("decrypt vector");
        assert_eq!(actual, unhex(expected));
    }
}

#[test]
fn ts_packet_descrambling_preserves_header_and_clears_control_bits() {
    let cipher = synthetic_oracle_cipher();
    let mut packet = [0u8; TS_PACKET_LEN];
    packet[0..4].copy_from_slice(&[0x47, 0x01, 0x23, 0xb5]);
    packet[4] = 3;
    packet[5..8].copy_from_slice(&[0x10, 0x20, 0x30]);
    packet[8..].copy_from_slice(&oracle_input(180));
    let header = packet[..8].to_vec();
    let mut expected_payload = oracle_input(180);
    cipher
        .decrypt_cbc(ScrambleKey::Even, &mut expected_payload)
        .expect("expected payload");

    assert_eq!(
        cipher.descramble_ts_packet(&mut packet),
        Ok(TsAction::Decrypted)
    );
    assert_eq!(&packet[..3], &header[..3]);
    assert_eq!(packet[3], header[3] & 0x3f);
    assert_eq!(&packet[4..8], &header[4..8]);
    assert_eq!(&packet[8..], expected_payload);
    assert_eq!(
        cipher.descramble_ts_packet(&mut packet),
        Ok(TsAction::Unscrambled)
    );
}

#[test]
fn malformed_packet_does_not_stop_other_packets_in_batch() {
    let cipher = synthetic_oracle_cipher();

    let mut decryptable = [0u8; TS_PACKET_LEN];
    decryptable[0] = 0x47;
    decryptable[3] = 0x90;
    let mut expected_decrypted = decryptable;
    assert_eq!(
        cipher.descramble_ts_packet(&mut expected_decrypted),
        Ok(TsAction::Decrypted)
    );

    let mut malformed = decryptable;
    malformed[3] = 0xb0;
    malformed[4] = 200;
    let original_malformed = malformed;

    let mut packets = Vec::with_capacity(TS_PACKET_LEN * 2);
    packets.extend_from_slice(&malformed);
    packets.extend_from_slice(&decryptable);

    assert_eq!(
        cipher.descramble_ts_packets(&mut packets),
        Ok(DescrambleDispositionCounts {
            decrypted: 1,
            broken: 1,
            ..DescrambleDispositionCounts::default()
        })
    );
    assert_eq!(&packets[..TS_PACKET_LEN], original_malformed.as_slice());
    assert_eq!(&packets[TS_PACKET_LEN..], expected_decrypted.as_slice());
}

// ------------------------------------------------------------------
// TS-packet KATs: full 188-byte packets. Setup B keys, round 4.
// ------------------------------------------------------------------

const TS_EVEN_AFC3_IN: [u8; 188] = [
    0x47, 0x00, 0x51, 0xb7, 0x07, 0x24, 0x5b, 0x92, 0xc9, 0x00, 0x37, 0x6e, 0xa5, 0xdc, 0x13,
    0x4a, 0x81, 0xb8, 0xef, 0x26, 0x5d, 0x94, 0xcb, 0x02, 0x39, 0x70, 0xa7, 0xde, 0x15, 0x4c,
    0x83, 0xba, 0xf1, 0x28, 0x5f, 0x96, 0xcd, 0x04, 0x3b, 0x72, 0xa9, 0xe0, 0x17, 0x4e, 0x85,
    0xbc, 0xf3, 0x2a, 0x61, 0x98, 0xcf, 0x06, 0x3d, 0x74, 0xab, 0xe2, 0x19, 0x50, 0x87, 0xbe,
    0xf5, 0x2c, 0x63, 0x9a, 0xd1, 0x08, 0x3f, 0x76, 0xad, 0xe4, 0x1b, 0x52, 0x89, 0xc0, 0xf7,
    0x2e, 0x65, 0x9c, 0xd3, 0x0a, 0x41, 0x78, 0xaf, 0xe6, 0x1d, 0x54, 0x8b, 0xc2, 0xf9, 0x30,
    0x67, 0x9e, 0xd5, 0x0c, 0x43, 0x7a, 0xb1, 0xe8, 0x1f, 0x56, 0x8d, 0xc4, 0xfb, 0x32, 0x69,
    0xa0, 0xd7, 0x0e, 0x45, 0x7c, 0xb3, 0xea, 0x21, 0x58, 0x8f, 0xc6, 0xfd, 0x34, 0x6b, 0xa2,
    0xd9, 0x10, 0x47, 0x7e, 0xb5, 0xec, 0x23, 0x5a, 0x91, 0xc8, 0xff, 0x36, 0x6d, 0xa4, 0xdb,
    0x12, 0x49, 0x80, 0xb7, 0xee, 0x25, 0x5c, 0x93, 0xca, 0x01, 0x38, 0x6f, 0xa6, 0xdd, 0x14,
    0x4b, 0x82, 0xb9, 0xf0, 0x27, 0x5e, 0x95, 0xcc, 0x03, 0x3a, 0x71, 0xa8, 0xdf, 0x16, 0x4d,
    0x84, 0xbb, 0xf2, 0x29, 0x60, 0x97, 0xce, 0x05, 0x3c, 0x73, 0xaa, 0xe1, 0x18, 0x4f, 0x86,
    0xbd, 0xf4, 0x2b, 0x62, 0x99, 0xd0, 0x07, 0x3e,
];
const TS_EVEN_AFC3_OUT: [u8; 188] = [
    0x47, 0x00, 0x51, 0x37, 0x07, 0x24, 0x5b, 0x92, 0xc9, 0x00, 0x37, 0x6e, 0xee, 0xca, 0xb9,
    0x36, 0x43, 0x0b, 0x37, 0x37, 0x07, 0xc8, 0xb9, 0x06, 0xa4, 0x63, 0xda, 0xfe, 0x97, 0xe4,
    0xf3, 0x00, 0xe9, 0x4d, 0xa2, 0x37, 0x12, 0x9a, 0x18, 0xf7, 0x6c, 0xde, 0xc9, 0x6f, 0xec,
    0x54, 0x82, 0xb7, 0x3b, 0x2d, 0x48, 0xda, 0x18, 0x59, 0x7f, 0x5e, 0x36, 0xa8, 0x08, 0x2f,
    0xbe, 0x55, 0x1e, 0xc7, 0x7c, 0x4f, 0xf3, 0x0e, 0xcb, 0xa3, 0xb1, 0x87, 0x0d, 0xc8, 0x7b,
    0xb7, 0x08, 0x57, 0x59, 0xab, 0x4e, 0xc7, 0xe5, 0x9a, 0xe4, 0xab, 0x14, 0x1d, 0xe9, 0xb4,
    0x10, 0x7a, 0x83, 0x43, 0x84, 0xa0, 0xc1, 0x7d, 0x53, 0x1d, 0xf4, 0x59, 0x7d, 0xac, 0xd5,
    0xd9, 0x49, 0xc6, 0x79, 0xae, 0x6e, 0xfe, 0x87, 0x5b, 0x15, 0x01, 0x1c, 0x4d, 0xab, 0x6f,
    0x22, 0x2b, 0x7d, 0x10, 0xff, 0xd9, 0xe4, 0xdb, 0x5a, 0xb7, 0x15, 0xe6, 0x54, 0x41, 0x45,
    0x91, 0xe6, 0x74, 0xb5, 0x42, 0x63, 0xaf, 0x7c, 0xc0, 0x83, 0xbc, 0x27, 0x3f, 0xac, 0x63,
    0xd7, 0x62, 0x3e, 0xd4, 0x81, 0xf3, 0x36, 0xe2, 0xe1, 0xa7, 0x40, 0xae, 0x79, 0x28, 0xbb,
    0x92, 0xbe, 0x1b, 0x19, 0x2b, 0x27, 0xbe, 0x16, 0x0e, 0x8b, 0x04, 0x7f, 0x2b, 0xcd, 0x14,
    0xb6, 0xd8, 0x56, 0xe6, 0x23, 0x00, 0x27, 0x2f,
];
const TS_ODD_AFC1_IN: [u8; 188] = [
    0x47, 0x40, 0x51, 0xd3, 0xed, 0x24, 0x5b, 0x92, 0xc9, 0x00, 0x37, 0x6e, 0xa5, 0xdc, 0x13,
    0x4a, 0x81, 0xb8, 0xef, 0x26, 0x5d, 0x94, 0xcb, 0x02, 0x39, 0x70, 0xa7, 0xde, 0x15, 0x4c,
    0x83, 0xba, 0xf1, 0x28, 0x5f, 0x96, 0xcd, 0x04, 0x3b, 0x72, 0xa9, 0xe0, 0x17, 0x4e, 0x85,
    0xbc, 0xf3, 0x2a, 0x61, 0x98, 0xcf, 0x06, 0x3d, 0x74, 0xab, 0xe2, 0x19, 0x50, 0x87, 0xbe,
    0xf5, 0x2c, 0x63, 0x9a, 0xd1, 0x08, 0x3f, 0x76, 0xad, 0xe4, 0x1b, 0x52, 0x89, 0xc0, 0xf7,
    0x2e, 0x65, 0x9c, 0xd3, 0x0a, 0x41, 0x78, 0xaf, 0xe6, 0x1d, 0x54, 0x8b, 0xc2, 0xf9, 0x30,
    0x67, 0x9e, 0xd5, 0x0c, 0x43, 0x7a, 0xb1, 0xe8, 0x1f, 0x56, 0x8d, 0xc4, 0xfb, 0x32, 0x69,
    0xa0, 0xd7, 0x0e, 0x45, 0x7c, 0xb3, 0xea, 0x21, 0x58, 0x8f, 0xc6, 0xfd, 0x34, 0x6b, 0xa2,
    0xd9, 0x10, 0x47, 0x7e, 0xb5, 0xec, 0x23, 0x5a, 0x91, 0xc8, 0xff, 0x36, 0x6d, 0xa4, 0xdb,
    0x12, 0x49, 0x80, 0xb7, 0xee, 0x25, 0x5c, 0x93, 0xca, 0x01, 0x38, 0x6f, 0xa6, 0xdd, 0x14,
    0x4b, 0x82, 0xb9, 0xf0, 0x27, 0x5e, 0x95, 0xcc, 0x03, 0x3a, 0x71, 0xa8, 0xdf, 0x16, 0x4d,
    0x84, 0xbb, 0xf2, 0x29, 0x60, 0x97, 0xce, 0x05, 0x3c, 0x73, 0xaa, 0xe1, 0x18, 0x4f, 0x86,
    0xbd, 0xf4, 0x2b, 0x62, 0x99, 0xd0, 0x07, 0x3e,
];
const TS_ODD_AFC1_OUT: [u8; 188] = [
    0x47, 0x40, 0x51, 0x13, 0x38, 0xab, 0x3a, 0x21, 0xcd, 0xd1, 0x58, 0xfb, 0x78, 0x1b, 0xb1,
    0xb9, 0xb1, 0x56, 0x19, 0x2a, 0x34, 0x07, 0x1d, 0x4f, 0x9c, 0xa3, 0x55, 0x14, 0x75, 0xdb,
    0x0e, 0x1a, 0x38, 0x42, 0xe3, 0x28, 0x6e, 0x8a, 0xa2, 0xef, 0x4b, 0x6e, 0x36, 0xb3, 0x7e,
    0x69, 0xcb, 0xa7, 0x77, 0xa0, 0x8e, 0xc2, 0xa3, 0xfd, 0x14, 0x3f, 0x9d, 0x5e, 0x39, 0xf6,
    0x78, 0xab, 0x43, 0xb2, 0xf6, 0xeb, 0x6f, 0x57, 0x10, 0xa6, 0x35, 0xa1, 0x9b, 0xf7, 0x97,
    0x81, 0x1d, 0x47, 0x75, 0x10, 0xd6, 0x36, 0x4a, 0x08, 0x85, 0xa9, 0x43, 0x43, 0x51, 0xf4,
    0xcc, 0x14, 0xb4, 0x97, 0xe6, 0x17, 0xf7, 0xf0, 0x24, 0x4f, 0x24, 0x3f, 0xe4, 0x8f, 0xe0,
    0x2b, 0x56, 0x79, 0x91, 0xd2, 0x6d, 0xfb, 0x5c, 0x7b, 0x07, 0x48, 0x64, 0x75, 0x48, 0xf0,
    0x55, 0x6a, 0xf5, 0xd5, 0xcf, 0xc7, 0x7b, 0x81, 0xe3, 0x41, 0x24, 0xa5, 0x1c, 0x9f, 0x6c,
    0xd5, 0xe0, 0xe1, 0x92, 0xb8, 0xbe, 0x85, 0x52, 0x56, 0x62, 0x95, 0xac, 0x85, 0x1b, 0xf3,
    0xe1, 0xaf, 0x57, 0xb1, 0x6e, 0x5b, 0x1f, 0x50, 0x0e, 0xe8, 0xc2, 0x5e, 0x0e, 0x9b, 0x3f,
    0x82, 0x3b, 0x08, 0x21, 0x1c, 0x63, 0x54, 0x54, 0xee, 0x3d, 0x82, 0xfc, 0xa1, 0x64, 0x23,
    0xf0, 0x6b, 0x35, 0x3d, 0xe3, 0x7b, 0x0d, 0x6c,
];
const TS_EVEN_TAIL_IN: [u8; 188] = [
    0x47, 0x00, 0x51, 0xb9, 0x08, 0x24, 0x5b, 0x92, 0xc9, 0x00, 0x37, 0x6e, 0xa5, 0xdc, 0x13,
    0x4a, 0x81, 0xb8, 0xef, 0x26, 0x5d, 0x94, 0xcb, 0x02, 0x39, 0x70, 0xa7, 0xde, 0x15, 0x4c,
    0x83, 0xba, 0xf1, 0x28, 0x5f, 0x96, 0xcd, 0x04, 0x3b, 0x72, 0xa9, 0xe0, 0x17, 0x4e, 0x85,
    0xbc, 0xf3, 0x2a, 0x61, 0x98, 0xcf, 0x06, 0x3d, 0x74, 0xab, 0xe2, 0x19, 0x50, 0x87, 0xbe,
    0xf5, 0x2c, 0x63, 0x9a, 0xd1, 0x08, 0x3f, 0x76, 0xad, 0xe4, 0x1b, 0x52, 0x89, 0xc0, 0xf7,
    0x2e, 0x65, 0x9c, 0xd3, 0x0a, 0x41, 0x78, 0xaf, 0xe6, 0x1d, 0x54, 0x8b, 0xc2, 0xf9, 0x30,
    0x67, 0x9e, 0xd5, 0x0c, 0x43, 0x7a, 0xb1, 0xe8, 0x1f, 0x56, 0x8d, 0xc4, 0xfb, 0x32, 0x69,
    0xa0, 0xd7, 0x0e, 0x45, 0x7c, 0xb3, 0xea, 0x21, 0x58, 0x8f, 0xc6, 0xfd, 0x34, 0x6b, 0xa2,
    0xd9, 0x10, 0x47, 0x7e, 0xb5, 0xec, 0x23, 0x5a, 0x91, 0xc8, 0xff, 0x36, 0x6d, 0xa4, 0xdb,
    0x12, 0x49, 0x80, 0xb7, 0xee, 0x25, 0x5c, 0x93, 0xca, 0x01, 0x38, 0x6f, 0xa6, 0xdd, 0x14,
    0x4b, 0x82, 0xb9, 0xf0, 0x27, 0x5e, 0x95, 0xcc, 0x03, 0x3a, 0x71, 0xa8, 0xdf, 0x16, 0x4d,
    0x84, 0xbb, 0xf2, 0x29, 0x60, 0x97, 0xce, 0x05, 0x3c, 0x73, 0xaa, 0xe1, 0x18, 0x4f, 0x86,
    0xbd, 0xf4, 0x2b, 0x62, 0x99, 0xd0, 0x07, 0x3e,
];
const TS_EVEN_TAIL_OUT: [u8; 188] = [
    0x47, 0x00, 0x51, 0x39, 0x08, 0x24, 0x5b, 0x92, 0xc9, 0x00, 0x37, 0x6e, 0xa5, 0x0e, 0xe4,
    0xae, 0x28, 0x72, 0xa5, 0x71, 0x80, 0xd4, 0x37, 0x04, 0xa3, 0x8f, 0x20, 0x1b, 0x68, 0xcf,
    0xbc, 0x4e, 0xaf, 0xb2, 0x12, 0xed, 0x91, 0x0f, 0x16, 0x17, 0xa2, 0x01, 0x49, 0xdb, 0xd6,
    0xcd, 0x2b, 0xb6, 0xb3, 0x63, 0x7c, 0xed, 0xc6, 0x91, 0x57, 0x39, 0x63, 0x99, 0xdc, 0x50,
    0x25, 0x8b, 0xf2, 0xc8, 0x3e, 0x13, 0xbb, 0x9e, 0xba, 0xf4, 0xd8, 0xa1, 0x6c, 0xc9, 0x95,
    0x97, 0xec, 0x9b, 0x6d, 0x2a, 0xf9, 0x50, 0x41, 0x2e, 0x9c, 0x96, 0xe6, 0x77, 0x68, 0xae,
    0x5a, 0xd0, 0x48, 0x9e, 0xef, 0xeb, 0xb2, 0x94, 0x54, 0x9e, 0x0c, 0x53, 0x7f, 0xbd, 0x1b,
    0xfe, 0x24, 0x47, 0x91, 0xf8, 0x71, 0x30, 0xfe, 0x0d, 0x82, 0x7f, 0x0d, 0xcd, 0x20, 0x57,
    0x45, 0xef, 0xb9, 0x34, 0xa3, 0xd4, 0x8b, 0xbb, 0x8b, 0x73, 0xfb, 0x45, 0x52, 0xd7, 0xa8,
    0xfd, 0x80, 0x0f, 0x9e, 0x35, 0xce, 0x60, 0x62, 0x61, 0xf6, 0x8c, 0x71, 0x34, 0xc0, 0x43,
    0x31, 0xfa, 0xf6, 0x29, 0x8b, 0x71, 0xdd, 0xc2, 0x3b, 0xd4, 0x17, 0x8b, 0x04, 0xd2, 0xa9,
    0x57, 0x22, 0x70, 0x5a, 0x16, 0x07, 0xaf, 0xbc, 0x3d, 0xa0, 0x2f, 0xd2, 0x35, 0x4d, 0x22,
    0x13, 0x7d, 0x45, 0xac, 0x71, 0xc4, 0x5e, 0x8d,
];
const TS_RSV_TSC1_IN: [u8; 188] = [
    0x47, 0x00, 0x51, 0x5e, 0xed, 0x24, 0x5b, 0x92, 0xc9, 0x00, 0x37, 0x6e, 0xa5, 0xdc, 0x13,
    0x4a, 0x81, 0xb8, 0xef, 0x26, 0x5d, 0x94, 0xcb, 0x02, 0x39, 0x70, 0xa7, 0xde, 0x15, 0x4c,
    0x83, 0xba, 0xf1, 0x28, 0x5f, 0x96, 0xcd, 0x04, 0x3b, 0x72, 0xa9, 0xe0, 0x17, 0x4e, 0x85,
    0xbc, 0xf3, 0x2a, 0x61, 0x98, 0xcf, 0x06, 0x3d, 0x74, 0xab, 0xe2, 0x19, 0x50, 0x87, 0xbe,
    0xf5, 0x2c, 0x63, 0x9a, 0xd1, 0x08, 0x3f, 0x76, 0xad, 0xe4, 0x1b, 0x52, 0x89, 0xc0, 0xf7,
    0x2e, 0x65, 0x9c, 0xd3, 0x0a, 0x41, 0x78, 0xaf, 0xe6, 0x1d, 0x54, 0x8b, 0xc2, 0xf9, 0x30,
    0x67, 0x9e, 0xd5, 0x0c, 0x43, 0x7a, 0xb1, 0xe8, 0x1f, 0x56, 0x8d, 0xc4, 0xfb, 0x32, 0x69,
    0xa0, 0xd7, 0x0e, 0x45, 0x7c, 0xb3, 0xea, 0x21, 0x58, 0x8f, 0xc6, 0xfd, 0x34, 0x6b, 0xa2,
    0xd9, 0x10, 0x47, 0x7e, 0xb5, 0xec, 0x23, 0x5a, 0x91, 0xc8, 0xff, 0x36, 0x6d, 0xa4, 0xdb,
    0x12, 0x49, 0x80, 0xb7, 0xee, 0x25, 0x5c, 0x93, 0xca, 0x01, 0x38, 0x6f, 0xa6, 0xdd, 0x14,
    0x4b, 0x82, 0xb9, 0xf0, 0x27, 0x5e, 0x95, 0xcc, 0x03, 0x3a, 0x71, 0xa8, 0xdf, 0x16, 0x4d,
    0x84, 0xbb, 0xf2, 0x29, 0x60, 0x97, 0xce, 0x05, 0x3c, 0x73, 0xaa, 0xe1, 0x18, 0x4f, 0x86,
    0xbd, 0xf4, 0x2b, 0x62, 0x99, 0xd0, 0x07, 0x3e,
];
const TS_RSV_TSC1_OUT: [u8; 188] = [
    0x47, 0x00, 0x51, 0x1e, 0x38, 0xab, 0x3a, 0x21, 0xcd, 0xd1, 0x58, 0xfb, 0x78, 0x1b, 0xb1,
    0xb9, 0xb1, 0x56, 0x19, 0x2a, 0x34, 0x07, 0x1d, 0x4f, 0x9c, 0xa3, 0x55, 0x14, 0x75, 0xdb,
    0x0e, 0x1a, 0x38, 0x42, 0xe3, 0x28, 0x6e, 0x8a, 0xa2, 0xef, 0x4b, 0x6e, 0x36, 0xb3, 0x7e,
    0x69, 0xcb, 0xa7, 0x77, 0xa0, 0x8e, 0xc2, 0xa3, 0xfd, 0x14, 0x3f, 0x9d, 0x5e, 0x39, 0xf6,
    0x78, 0xab, 0x43, 0xb2, 0xf6, 0xeb, 0x6f, 0x57, 0x10, 0xa6, 0x35, 0xa1, 0x9b, 0xf7, 0x97,
    0x81, 0x1d, 0x47, 0x75, 0x10, 0xd6, 0x36, 0x4a, 0x08, 0x85, 0xa9, 0x43, 0x43, 0x51, 0xf4,
    0xcc, 0x14, 0xb4, 0x97, 0xe6, 0x17, 0xf7, 0xf0, 0x24, 0x4f, 0x24, 0x3f, 0xe4, 0x8f, 0xe0,
    0x2b, 0x56, 0x79, 0x91, 0xd2, 0x6d, 0xfb, 0x5c, 0x7b, 0x07, 0x48, 0x64, 0x75, 0x48, 0xf0,
    0x55, 0x6a, 0xf5, 0xd5, 0xcf, 0xc7, 0x7b, 0x81, 0xe3, 0x41, 0x24, 0xa5, 0x1c, 0x9f, 0x6c,
    0xd5, 0xe0, 0xe1, 0x92, 0xb8, 0xbe, 0x85, 0x52, 0x56, 0x62, 0x95, 0xac, 0x85, 0x1b, 0xf3,
    0xe1, 0xaf, 0x57, 0xb1, 0x6e, 0x5b, 0x1f, 0x50, 0x0e, 0xe8, 0xc2, 0x5e, 0x0e, 0x9b, 0x3f,
    0x82, 0x3b, 0x08, 0x21, 0x1c, 0x63, 0x54, 0x54, 0xee, 0x3d, 0x82, 0xfc, 0xa1, 0x64, 0x23,
    0xf0, 0x6b, 0x35, 0x3d, 0xe3, 0x7b, 0x0d, 0x6c,
];

#[test]
fn ts_even_afc3_kat() {
    // tsc=2 (even), adaptation field len 7 -> payload at 12, n=176.
    let m2 = cipher_setup_b();
    let mut pkt = TS_EVEN_AFC3_IN;
    let action = m2.descramble_ts_packet(&mut pkt).unwrap();
    assert_eq!(action, TsAction::Decrypted);
    assert_eq!(pkt, TS_EVEN_AFC3_OUT);
}

#[test]
fn ts_odd_afc1_kat() {
    // tsc=3 (odd), no adaptation field -> payload at 4, n=184.
    let m2 = cipher_setup_b();
    let mut pkt = TS_ODD_AFC1_IN;
    let action = m2.descramble_ts_packet(&mut pkt).unwrap();
    assert_eq!(action, TsAction::Decrypted);
    assert_eq!(pkt, TS_ODD_AFC1_OUT);
}

#[test]
fn ts_even_partial_tail_kat() {
    // tsc=2, adaptation field len 8 -> payload at 13, n=175 (not a
    // multiple of 8: exercises the CBC partial-tail keystream).
    let m2 = cipher_setup_b();
    let mut pkt = TS_EVEN_TAIL_IN;
    let action = m2.descramble_ts_packet(&mut pkt).unwrap();
    assert_eq!(action, TsAction::Decrypted);
    assert_eq!(pkt, TS_EVEN_TAIL_OUT);
}

#[test]
fn ts_reserved_tsc1_decrypts_with_odd_key() {
    // tsc=1 (reserved 0x40) is not passed through: everything but tsc=2 goes
    // to the odd work key. The payload comes out as the odd-key packet's.
    let m2 = cipher_setup_b();
    let mut pkt = TS_RSV_TSC1_IN;
    let action = m2.descramble_ts_packet(&mut pkt).unwrap();
    assert_eq!(action, TsAction::Decrypted);
    assert_eq!(pkt, TS_RSV_TSC1_OUT);
    assert_eq!(pkt[4..], TS_ODD_AFC1_OUT[4..]);
}

#[test]
fn ts_unscrambled_passthrough() {
    let m2 = cipher_setup_b();
    let mut pkt = TS_ODD_AFC1_IN;
    pkt[3] = 0x13; // tsc=0, afc=1, cc=3
    let orig = pkt;
    let action = m2.descramble_ts_packet(&mut pkt).unwrap();
    assert_eq!(action, TsAction::Unscrambled);
    assert_eq!(pkt, orig);
}

#[test]
fn ts_no_payload_clears_tsc_only() {
    let m2 = cipher_setup_b();
    let mut pkt = TS_EVEN_AFC3_IN;
    pkt[3] = 0xa7; // tsc=2, afc=2 (adaptation only), cc=7
    pkt[4] = 100; // adaptation field ends at 105; no payload follows
    let action = m2.descramble_ts_packet(&mut pkt).unwrap();
    assert_eq!(action, TsAction::NoPayload);
    let mut expect = TS_EVEN_AFC3_IN;
    expect[3] = 0x27; // only the TSC bits cleared
    expect[4] = 100;
    assert_eq!(pkt, expect);
}

#[test]
fn ts_adaptation_only_full_packet() {
    // afc=2 with adaptation_field_length=183: n=0, not broken since no payload
    // is claimed, TSC bits cleared.
    let m2 = cipher_setup_b();
    let mut pkt = TS_EVEN_AFC3_IN;
    pkt[3] = 0xe3; // tsc=3, afc=2, cc=3
    pkt[4] = 183;
    let action = m2.descramble_ts_packet(&mut pkt).unwrap();
    assert_eq!(action, TsAction::NoPayload);
    assert_eq!(pkt[3] & 0xc0, 0);
}

#[test]
fn ts_broken_adaptation_geometry() {
    let m2 = cipher_setup_b();
    // adaptation_field_length=200 with afc=3 -> n = 188-205 < 0 -> broken,
    // packet left byte-for-byte intact.
    let mut pkt = TS_EVEN_AFC3_IN;
    pkt[4] = 200;
    let orig = pkt;
    let action = m2.descramble_ts_packet(&mut pkt).unwrap();
    assert_eq!(action, TsAction::Broken);
    assert_eq!(pkt, orig);

    // Broken check happens before the TSC check: even tsc=0 is Broken.
    let mut pkt = TS_EVEN_AFC3_IN;
    pkt[3] = 0x37; // tsc=0, afc=3
    pkt[4] = 200;
    let action = m2.descramble_ts_packet(&mut pkt).unwrap();
    assert_eq!(action, TsAction::Broken);
}

#[test]
fn ts_tei_passthrough() {
    let m2 = cipher_setup_b();
    let mut pkt = TS_ODD_AFC1_IN;
    pkt[1] |= 0x80; // transport_error_indicator
    let orig = pkt;
    let action = m2.descramble_ts_packet(&mut pkt).unwrap();
    assert_eq!(action, TsAction::TransportError);
    assert_eq!(pkt, orig);
}
