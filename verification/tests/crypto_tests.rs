use kquickview::crypto::{
    build_tx_block, decrypt_aes_ecb, encrypt_aes_ecb, parse_rx_frame, procesa_rx, procesa_rx_checked,
    procesa_tx, procesa_tx_at,
};

fn key() -> Vec<u8> {
    (0u8..16).collect()
}

fn fips_plain() -> Vec<u8> {
    vec![0x00, 0x11, 0x22, 0x33, 0x44, 0x55, 0x66, 0x77, 0x88, 0x99, 0xaa, 0xbb, 0xcc, 0xdd, 0xee, 0xff]
}

fn fips_cipher() -> Vec<u8> {
    vec![0x69, 0xc4, 0xe0, 0xd8, 0x6a, 0x7b, 0x04, 0x30, 0xd8, 0xcd, 0xb7, 0x80, 0x70, 0xb4, 0xc5, 0x5a]
}

#[test]
fn encrypt_matches_fips197_vector() {
    assert_eq!(encrypt_aes_ecb(&fips_plain(), &key()), fips_cipher());
}

#[test]
fn decrypt_matches_fips197_vector() {
    assert_eq!(decrypt_aes_ecb(&fips_cipher(), &key()), fips_plain());
}

#[test]
fn decrypt_works_block_by_block() {
    let mut two = fips_cipher();
    two.extend(fips_cipher());
    let mut expected = fips_plain();
    expected.extend(fips_plain());
    assert_eq!(decrypt_aes_ecb(&two, &key()), expected);
}

#[test]
fn decrypt_of_empty_data_is_empty() {
    assert_eq!(decrypt_aes_ecb(&[], &key()), Vec::<u8>::new());
}

#[test]
fn decrypt_leaves_partial_blocks_alone() {
    let data = vec![1u8, 2, 3, 4, 5];
    assert_eq!(decrypt_aes_ecb(&data, &[9u8; 3]), data);
}

#[test]
fn encrypt_leaves_other_lengths_alone() {
    let data = vec![7u8; 32];
    assert_eq!(encrypt_aes_ecb(&data, &[1u8; 5]), data);
    assert_eq!(encrypt_aes_ecb(&[], &key()), Vec::<u8>::new());
}

#[test]
fn encrypt_then_decrypt_round_trip() {
    let block: Vec<u8> = b"0123456789abcdef".to_vec();
    let k = vec![0x5au8; 16];
    let c = encrypt_aes_ecb(&block, &k);
    assert_ne!(c, block);
    assert_eq!(decrypt_aes_ecb(&c, &k), block);
}

fn plain_frame(len_byte: u8, payload: &[u8]) -> Vec<u8> {
    let mut f = vec![b' '; 32];
    f[0] = b'B';
    f[1] = len_byte;
    f[6..6 + payload.len()].copy_from_slice(payload);
    f
}

fn encrypt_frame(plain: &[u8], k: &[u8]) -> Vec<u8> {
    let mut out = encrypt_aes_ecb(&plain[0..16], k);
    out.extend(encrypt_aes_ecb(&plain[16..32], k));
    out
}

#[test]
fn rx_accepts_a_frame_and_returns_the_message() {
    let frame = encrypt_frame(&plain_frame(9, b"123"), &key());
    assert_eq!(procesa_rx(frame, &key()), (b"@123".to_vec(), true));
}

#[test]
fn rx_payload_may_reach_the_second_block() {
    let payload = b"abcdefghijklmnopqrstuvwxy";
    let frame = encrypt_frame(&plain_frame(31, payload), &key());
    let mut expected = vec![b'@'];
    expected.extend_from_slice(payload);
    assert_eq!(procesa_rx(frame, &key()), (expected, true));
}

#[test]
fn rx_rejects_wrong_length() {
    let data = vec![1u8, 2, 3];
    assert_eq!(procesa_rx(data.clone(), &key()), (data, false));
}

#[test]
fn rx_rejects_frame_without_mark() {
    let mut plain = plain_frame(9, b"123");
    plain[0] = b'A';
    let frame = encrypt_frame(&plain, &key());
    assert_eq!(procesa_rx(frame.clone(), &key()), (frame, false));
}

#[test]
fn rx_rejects_overlong_payload() {
    let frame = encrypt_frame(&plain_frame(32, b""), &key());
    assert_eq!(procesa_rx(frame.clone(), &key()), (frame, false));
}

#[test]
fn rx_checked_refuses_short_length_byte() {
    let frame = encrypt_frame(&plain_frame(5, b""), &key());
    assert_eq!(procesa_rx_checked(frame, &key()), None);
}

#[test]
fn rx_checked_refuses_bad_key_length() {
    assert_eq!(procesa_rx_checked(vec![0u8; 32], &[1u8; 8]), None);
}

#[test]
fn rx_checked_agrees_with_rx_elsewhere() {
    let frame = encrypt_frame(&plain_frame(6, b""), &key());
    assert_eq!(procesa_rx_checked(frame, &key()), Some((b"@".to_vec(), true)));
    assert_eq!(procesa_rx_checked(vec![4u8; 7], &[]), Some((vec![4u8; 7], false)));
}

#[test]
fn parse_frame_reads_payload() {
    assert_eq!(parse_rx_frame(&plain_frame(8, b"xy")), Some(b"@xy".to_vec()));
    assert_eq!(parse_rx_frame(&[]), None);
    assert_eq!(parse_rx_frame(b"Z"), None);
}

#[test]
fn tx_block_layout() {
    let block = build_tx_block(b"@1234", 120);
    assert_eq!(block, vec![b'B', 10, 0, 2, 0, 0, b'1', b'2', b'3', b'4', b' ', b' ', b' ', b' ', b' ', b' ']);
}

#[test]
fn tx_block_timer_wraps_and_rounds_toward_zero() {
    assert_eq!(&build_tx_block(b"@", -61)[0..6], &[b'B', 6, 0xff, 0xff, 0, 0]);
    assert_eq!(&build_tx_block(b"@", -59)[0..6], &[b'B', 6, 0, 0, 0, 0]);
    let ts: i64 = 60 * (65536 + 258);
    assert_eq!(&build_tx_block(b"@", ts)[0..6], &[b'B', 6, 1, 2, 0, 0]);
}

#[test]
fn tx_block_keeps_ten_payload_bytes() {
    let msg: Vec<u8> = std::iter::once(b'@').chain((0..299).map(|i| (i % 200) as u8 + 30)).collect();
    let block = build_tx_block(&msg, 0);
    assert_eq!(block[1], ((300 + 5) % 256) as u8);
    assert_eq!(&block[6..16], &msg[1..11]);
}

#[test]
fn tx_plain_or_empty_is_unchanged() {
    assert_eq!(procesa_tx(b"@12".to_vec(), &[], false), b"@12".to_vec());
    assert_eq!(procesa_tx(Vec::new(), &[], true), Vec::<u8>::new());
    assert_eq!(procesa_tx_at(b"@12".to_vec(), &[], false, 5), b"@12".to_vec());
}

#[test]
fn tx_at_encrypts_the_block() {
    let out = procesa_tx_at(b"@77".to_vec(), &key(), true, 600);
    assert_eq!(out.len(), 16);
    assert_eq!(decrypt_aes_ecb(&out, &key()), build_tx_block(b"@77", 600));
}

#[test]
fn tx_now_decrypts_to_a_block_for_the_message() {
    let out = procesa_tx(b"@4567".to_vec(), &key(), true);
    let block = decrypt_aes_ecb(&out, &key());
    assert_eq!(block[0], b'B');
    assert_eq!(block[1], 10);
    assert_eq!(&block[4..10], &[0, 0, b'4', b'5', b'6', b'7']);
}

#[test]
fn rx_reads_back_what_tx_packs() {
    let msg = b"@0123456789".to_vec();
    let first = procesa_tx_at(msg.clone(), &key(), true, 123456);
    let mut frame = first;
    frame.extend(encrypt_aes_ecb(&[b' '; 16], &key()));
    assert_eq!(procesa_rx(frame, &key()), (msg, true));
}

#[test]
fn tx_output_is_one_block_for_any_first_byte() {
    let out = procesa_tx_at(b"X12".to_vec(), &key(), true, 60);
    assert_eq!(out.len(), 16);
    let mut frame = out;
    frame.extend(encrypt_aes_ecb(&[0u8; 16], &key()));
    assert_eq!(procesa_rx(frame, &key()), (b"@12".to_vec(), true));
}

#[test]
fn tx_ignores_first_byte_and_bytes_past_ten() {
    let a = procesa_tx_at(b"@0123456789AB".to_vec(), &key(), true, 120);
    let b = procesa_tx_at(b"#0123456789ZZ".to_vec(), &key(), true, 179);
    assert_eq!(a, b);
}

#[test]
fn decrypt_block_by_block_matches_single_blocks() {
    let plain: Vec<u8> = (0u8..48).collect();
    let mut cipher = Vec::new();
    for chunk in plain.chunks(16) {
        cipher.extend(encrypt_aes_ecb(chunk, &key()));
    }
    let out = decrypt_aes_ecb(&cipher, &key());
    for b in 0..3 {
        assert_eq!(&out[16 * b..16 * b + 16], &decrypt_aes_ecb(&cipher[16 * b..16 * b + 16], &key())[..]);
    }
    assert_eq!(out, plain);
}
