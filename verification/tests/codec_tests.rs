use file_crypto::cipher::{Cipher, CipherKind};
use file_crypto::error::decimal;
use file_crypto::frame::{append_bytes, encode_frame, encode_length, read_frame, read_length};
use file_crypto::{
    collect_outcomes, decrypt, encrypt, new_aes128gcm_cipher, new_aes256gcm_cipher, CipherText,
    StageError,
};

fn hex(text: &str) -> Vec<u8> {
    (0..text.len() / 2).map(|i| u8::from_str_radix(&text[2 * i..2 * i + 2], 16).unwrap()).collect()
}

#[test]
fn a_length_prefix_is_little_endian() {
    assert_eq!(encode_length(0), vec![0u8, 0, 0, 0]);
    assert_eq!(encode_length(1), vec![1u8, 0, 0, 0]);
    assert_eq!(encode_length(4124), vec![0x1cu8, 0x10, 0, 0]);
    assert_eq!(encode_length(0x0102_0304), vec![4u8, 3, 2, 1]);
    assert_eq!(encode_length(u32::MAX), vec![255u8, 255, 255, 255]);
}

#[test]
fn a_read_length_is_decided_by_what_was_read() {
    assert_eq!(read_length(&[]), Ok(None));
    assert_eq!(read_length(&[7]), Err(StageError::IllegalLength(1)));
    assert_eq!(read_length(&[7, 0]), Err(StageError::IllegalLength(2)));
    assert_eq!(read_length(&[7, 0, 0]), Err(StageError::IllegalLength(3)));
    assert_eq!(read_length(&[0, 0, 0, 0]), Err(StageError::Format(0)));
    assert_eq!(read_length(&[28, 0, 0, 0]), Err(StageError::Format(28)));
    assert_eq!(read_length(&[29, 0, 0, 0]), Ok(Some(29)));
    assert_eq!(read_length(&[4, 3, 2, 1]), Ok(Some(0x0102_0304)));
    assert_eq!(read_length(&[255, 255, 255, 255]), Ok(Some(u32::MAX as usize)));
}

#[test]
fn a_frame_is_prefix_nonce_body() {
    let frame = CipherText { nonce: (1u8..=12).collect(), vec: (100u8..117).collect() };
    assert_eq!(frame.len(), 29);
    let bytes = encode_frame(&frame);
    let mut expected = vec![29u8, 0, 0, 0];
    expected.extend(1u8..=12);
    expected.extend(100u8..117);
    assert_eq!(bytes, expected);
}

#[test]
fn ciphertext_len_counts_nonce_and_body() {
    assert_eq!(CipherText { nonce: vec![], vec: vec![] }.len(), 0);
    assert_eq!(CipherText { nonce: vec![0; 12], vec: vec![0; 4112] }.len(), 4124);
}

#[test]
fn append_bytes_appends() {
    let mut out = vec![1u8];
    append_bytes(&mut out, &[2, 3]);
    append_bytes(&mut out, &[]);
    assert_eq!(out, vec![1u8, 2, 3]);
}

#[test]
fn read_frame_reads_what_encode_frame_wrote() {
    let frame = CipherText { nonce: vec![5u8; 12], vec: vec![6u8; 40] };
    let mut stream = vec![0xaau8; 3];
    stream.extend_from_slice(&encode_frame(&frame));
    stream.extend_from_slice(&[1, 2]);
    assert_eq!(read_frame(&stream, 3), Ok(Some((frame, 3 + 4 + 52))));
    assert_eq!(read_frame(&stream, 59), Err(StageError::IllegalLength(2)));
    assert_eq!(read_frame(&stream, 61), Ok(None));
    assert_eq!(read_frame(&stream[..40], 3), Err(StageError::UnexpectedEof));
    assert_eq!(read_frame(&stream[..7], 3), Err(StageError::UnexpectedEof));
}

#[test]
fn read_frame_rejects_a_body_that_is_only_a_tag() {
    let mut stream = vec![28u8, 0, 0, 0];
    stream.extend_from_slice(&[0u8; 28]);
    assert_eq!(read_frame(&stream, 0), Err(StageError::Format(28)));
    let mut stream = vec![29u8, 0, 0, 0];
    stream.extend_from_slice(&[0u8; 29]);
    let frame = CipherText { nonce: vec![0u8; 12], vec: vec![0u8; 17] };
    assert_eq!(read_frame(&stream, 0), Ok(Some((frame, 33))));
}

#[test]
fn decimal_writes_numbers() {
    assert_eq!(decimal(0), "0");
    assert_eq!(decimal(7), "7");
    assert_eq!(decimal(10), "10");
    assert_eq!(decimal(4096), "4096");
    assert_eq!(decimal(1234567890), "1234567890");
    assert_eq!(decimal(usize::MAX), usize::MAX.to_string());
}

#[test]
fn every_failure_has_its_description() {
    assert_eq!(StageError::Read("disk gone".to_string()).describe(), "read error: disk gone");
    assert_eq!(StageError::IllegalLength(3).describe(), "read error, illegal length 3");
    assert_eq!(StageError::UnexpectedEof.describe(), "read error: failed to fill whole buffer");
    assert_eq!(StageError::Format(12).describe(), "format error, illegal frame length 12");
    assert_eq!(StageError::Encrypt.describe(), "encrypt error: aead::Error");
    assert_eq!(StageError::Decrypt.describe(), "decrypt error: aead::Error");
    assert_eq!(StageError::Write("disk full".to_string()).describe(), "write error: disk full");
}

#[test]
fn a_read_failure_and_a_write_failure_are_both_reported() {
    let r = collect_outcomes(
        Err(StageError::Read("source broke".to_string())),
        Ok(()),
        Err(StageError::Write("sink broke".to_string())),
    );
    assert_eq!(
        r,
        Err(vec!["read error: source broke".to_string(), "write error: sink broke".to_string()])
    );
}

#[test]
fn failures_are_reported_in_stage_order() {
    assert_eq!(collect_outcomes(Ok(()), Ok(()), Ok(())), Ok(()));
    assert_eq!(
        collect_outcomes(Ok(()), Err(StageError::Encrypt), Ok(())),
        Err(vec!["encrypt error: aead::Error".to_string()])
    );
    assert_eq!(
        collect_outcomes(
            Err(StageError::IllegalLength(1)),
            Err(StageError::Decrypt),
            Err(StageError::Write("w".to_string())),
        ),
        Err(vec![
            "read error, illegal length 1".to_string(),
            "decrypt error: aead::Error".to_string(),
            "write error: w".to_string(),
        ])
    );
}

#[test]
fn aes128_seals_to_the_known_answer() {
    let cipher = Cipher::from_key(CipherKind::Aes128Gcm, vec![0u8; 16]).unwrap();
    assert_eq!(cipher.kind(), CipherKind::Aes128Gcm);
    let frame = cipher.seal_chunk(vec![0u8; 12], vec![0u8; 16]).unwrap();
    assert_eq!(frame.nonce, vec![0u8; 12]);
    assert_eq!(
        frame.vec,
        hex("0388dace60b6a392f328c2b971b2fe78ab6e47d42cec13bdf53a67b21257bddf")
    );
    let tag_only = cipher.seal_chunk(vec![0u8; 12], vec![]).unwrap();
    assert_eq!(tag_only.vec, hex("58e2fccefa7e3061367f1d57a4e7455a"));
}

#[test]
fn aes256_seals_to_the_known_answer() {
    let cipher = Cipher::from_key(CipherKind::Aes256Gcm, vec![0u8; 32]).unwrap();
    assert_eq!(cipher.kind(), CipherKind::Aes256Gcm);
    let frame = cipher.seal_chunk(vec![0u8; 12], vec![0u8; 16]).unwrap();
    assert_eq!(
        frame.vec,
        hex("cea7403d4d606b6e074ec5d3baf39d18d0d1c8a799996bf0265b98b5d48ab919")
    );
    let tag_only = cipher.seal_chunk(vec![0u8; 12], vec![]).unwrap();
    assert_eq!(tag_only.vec, hex("530f8afbc74536b9a963b4f1c4cb738b"));
}

#[test]
fn aes128_opens_the_known_answer() {
    let cipher = Cipher::from_key(CipherKind::Aes128Gcm, vec![0u8; 16]).unwrap();
    let body = hex("0388dace60b6a392f328c2b971b2fe78ab6e47d42cec13bdf53a67b21257bddf");
    let frame = CipherText { nonce: vec![0u8; 12], vec: body.clone() };
    assert_eq!(cipher.open_frame(frame), Ok(vec![0u8; 16]));
    let mut bad = body;
    bad[31] ^= 1;
    let frame = CipherText { nonce: vec![0u8; 12], vec: bad };
    assert_eq!(cipher.open_frame(frame), Err(StageError::Decrypt));
    let short = CipherText { nonce: vec![0u8; 12], vec: vec![0u8; 15] };
    assert_eq!(cipher.open_frame(short), Err(StageError::Decrypt));
}

#[test]
fn aes256_opens_the_known_answer() {
    let cipher = Cipher::from_key(CipherKind::Aes256Gcm, vec![0u8; 32]).unwrap();
    let body = hex("cea7403d4d606b6e074ec5d3baf39d18d0d1c8a799996bf0265b98b5d48ab919");
    let frame = CipherText { nonce: vec![0u8; 12], vec: body.clone() };
    assert_eq!(cipher.open_frame(frame), Ok(vec![0u8; 16]));
    let frame = CipherText { nonce: vec![1u8; 12], vec: body };
    assert_eq!(cipher.open_frame(frame), Err(StageError::Decrypt));
}

#[test]
fn the_aes256_key_is_the_digest_of_the_passphrase() {
    let digest = hex("9f86d081884c7d659a2feaa0c55ad015a3bf4f1b2b0b822cd15d6c15b0f00a08");
    let by_key = Cipher::from_key(CipherKind::Aes256Gcm, digest).unwrap();
    let by_passphrase = new_aes256gcm_cipher("test");
    let a = by_key.seal_chunk(vec![7u8; 12], vec![1u8, 2, 3]).unwrap();
    let b = by_passphrase.seal_chunk(vec![7u8; 12], vec![1u8, 2, 3]).unwrap();
    assert_eq!(a, b);
}

#[test]
fn the_aes128_key_is_the_first_half_of_the_digest() {
    let half = hex("9f86d081884c7d659a2feaa0c55ad015");
    let by_key = Cipher::from_key(CipherKind::Aes128Gcm, half).unwrap();
    let by_passphrase = new_aes128gcm_cipher("test");
    let mut rng = rand::thread_rng();
    let plain = vec![42u8; 5000];
    let mut sealed = vec![];
    encrypt(&plain, &mut sealed, &by_passphrase, &mut rng).unwrap();
    let mut back = vec![];
    assert_eq!(decrypt(&sealed, &mut back, &by_key), Ok(()));
    assert_eq!(back, plain);
}
