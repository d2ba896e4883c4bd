use cypher_aes::{
    decrypt_aes256, encrypt_aes256, pkcs7_encode, process, CryptoError, Direction,
};

#[test]
fn round_trip_empty_under_zero_key() {
    let key = [0u8; 32];
    let ct = encrypt_aes256(&[], &key);
    assert_eq!(ct.len(), 16);
    assert_eq!(decrypt_aes256(&ct, &key), Ok(Vec::new()));
}

#[test]
fn round_trip_short_input() {
    let key = [3u8; 32];
    let data = b"hello";
    let ct = encrypt_aes256(data, &key);
    assert_eq!(decrypt_aes256(&ct, &key), Ok(data.to_vec()));
}

#[test]
fn round_trip_exactly_one_block() {
    let key = [0x55u8; 32];
    let data = [0x41u8; 16];
    let ct = encrypt_aes256(&data, &key);
    assert_eq!(ct.len(), 32);
    assert_eq!(decrypt_aes256(&ct, &key), Ok(data.to_vec()));
}

#[test]
fn round_trip_large_input() {
    let key = [0xabu8; 32];
    let data: Vec<u8> = (0..200_000u32).map(|i| (i % 251) as u8).collect();
    let ct = encrypt_aes256(&data, &key);
    assert_eq!(ct.len(), data.len() + 16 - data.len() % 16);
    assert_eq!(decrypt_aes256(&ct, &key), Ok(data));
}

#[test]
fn ciphertext_differs_from_the_padded_input() {
    let key = [1u8; 32];
    let data = [0x41u8; 16];
    let ct = encrypt_aes256(&data, &key);
    assert_ne!(ct, pkcs7_encode(&data));
}

#[test]
fn process_preserves_length_both_ways() {
    let key = [9u8; 32];
    for blocks in 0..5usize {
        let buf = vec![0x33u8; blocks * 16];
        let enc = process(&buf, &key, Direction::Encrypt).unwrap();
        assert_eq!(enc.len(), buf.len());
        let dec = process(&buf, &key, Direction::Decrypt).unwrap();
        assert_eq!(dec.len(), buf.len());
    }
}

#[test]
fn process_inverts_itself_blockwise() {
    let key = [0x77u8; 32];
    let buf: Vec<u8> = (0..48u8).collect();
    let enc = process(&buf, &key, Direction::Encrypt).unwrap();
    let dec = process(&enc, &key, Direction::Decrypt).unwrap();
    assert_eq!(dec, buf);
}

#[test]
fn identical_plaintext_blocks_give_identical_ciphertext_blocks() {
    let key = [1u8; 32];
    let two_equal_blocks = [0x41u8; 32];
    let ct = process(&two_equal_blocks, &key, Direction::Encrypt).unwrap();
    assert_eq!(ct[..16], ct[16..32]);
    let one_block = [0x41u8; 16];
    let ct_once = process(&one_block, &key, Direction::Encrypt).unwrap();
    assert_eq!(ct[..16], ct_once[..]);
}

#[test]
fn untouched_blocks_keep_identical_ciphertext() {
    let key = [0x0fu8; 32];
    let mut a = vec![0x20u8; 64];
    let mut b = a.clone();
    b[20] = 0x99;
    let ca = process(&a, &key, Direction::Encrypt).unwrap();
    let cb = process(&b, &key, Direction::Encrypt).unwrap();
    assert_eq!(ca[..16], cb[..16]);
    assert_ne!(ca[16..32], cb[16..32]);
    assert_eq!(ca[32..48], cb[32..48]);
    assert_eq!(ca[48..64], cb[48..64]);
    a[20] = 0x99;
    assert_eq!(process(&a, &key, Direction::Encrypt).unwrap(), cb);
}

#[test]
fn encrypting_twice_is_deterministic() {
    let key = [2u8; 32];
    let data = b"the same plaintext both times";
    assert_eq!(encrypt_aes256(data, &key), encrypt_aes256(data, &key));
}

#[test]
fn misaligned_decrypt_input_is_rejected() {
    let key = [0u8; 32];
    let buf = [0u8; 17];
    assert_eq!(
        decrypt_aes256(&buf, &key),
        Err(CryptoError::AlignmentViolation)
    );
    assert_eq!(
        process(&buf, &key, Direction::Decrypt),
        Err(CryptoError::AlignmentViolation)
    );
    assert_eq!(
        process(&buf, &key, Direction::Encrypt),
        Err(CryptoError::AlignmentViolation)
    );
}

#[test]
fn invalid_padding_after_decryption_is_reported() {
    let key = [6u8; 32];
    let mut block = [0xc3u8; 16];
    block[15] = 0;
    let ct = process(&block, &key, Direction::Encrypt).unwrap();
    assert_eq!(decrypt_aes256(&ct, &key), Err(CryptoError::PaddingAmbiguity));
}

#[test]
fn wrong_key_does_not_round_trip_to_the_plaintext() {
    let key = [1u8; 32];
    let other = [2u8; 32];
    let data = b"guarded by the key";
    let ct = encrypt_aes256(data, &key);
    assert_ne!(decrypt_aes256(&ct, &other), Ok(data.to_vec()));
}
