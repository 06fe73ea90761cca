use aes::cipher::{BlockModeEncrypt, KeyIvInit};
use libarchive_oxide::codec::{CodecStatus, EndOfInput};
use libarchive_oxide::filter::aes7z::{derive_key, password_utf16le, sha256_of, AesDecoder, AesParams};

fn props(ncp: u8, salt: &[u8; 16], iv: &[u8; 16]) -> Vec<u8> {
    let mut p = vec![(ncp & 0x3F) | 0xC0, 0xFF];
    p.extend_from_slice(salt);
    p.extend_from_slice(iv);
    p
}

fn encrypt(key: &[u8; 32], iv: &[u8; 16], plaintext: &[u8]) -> Vec<u8> {
    let mut encryptor = cbc::Encryptor::<aes::Aes256>::new(key.into(), iv.into());
    let mut padded = plaintext.to_vec();
    while padded.len() % 16 != 0 {
        padded.push(0);
    }
    for chunk in padded.chunks_mut(16) {
        let block: &mut [u8; 16] = chunk.try_into().unwrap();
        encryptor.encrypt_block(block.into());
    }
    padded
}

/// Decodes `data` handed over in pieces, into a buffer of `room` bytes.
fn decode(decoder: &mut AesDecoder, data: &[u8], chunk: usize, room: usize) -> Vec<u8> {
    let mut out = Vec::new();
    let mut at = 0;
    let mut buffer = vec![0u8; room];
    loop {
        let next = (at + chunk).min(data.len());
        let end = if next == data.len() { EndOfInput::End } else { EndOfInput::More };
        let step = decoder.process(&data[at..next], &mut buffer, end);
        out.extend_from_slice(&buffer[..step.produced]);
        at += step.consumed;
        if step.status == CodecStatus::Done {
            return out;
        }
        if step.consumed == 0 && step.produced == 0 && at == data.len() {
            return out;
        }
    }
}

#[test]
fn parses_standard_properties() {
    let salt = [7u8; 16];
    let iv = [9u8; 16];
    let params = AesParams::parse(&props(8, &salt, &iv)).unwrap();
    assert_eq!(params.ncp, 8);
    assert_eq!(params.salt_len, 16);
    assert_eq!(&params.salt, &salt);
    assert_eq!(&params.iv, &iv);
}

#[test]
fn password_utf16le_matches_lossy_reference() {
    let cases: [&[u8]; 5] = [
        b"correct horse",
        &[0x66, 0x6f, 0xff, 0x6f],
        &[0xff, 0xfe, 0xfd],
        &[0xf0, 0x28, 0x8c, 0x28],
        &[],
    ];
    for pw in cases {
        let reference: Vec<u8> = String::from_utf8_lossy(pw)
            .encode_utf16()
            .flat_map(u16::to_le_bytes)
            .collect();
        assert_eq!(password_utf16le(pw), reference, "pw = {pw:02x?}");
    }
}

#[test]
fn password_encoding_agrees_on_every_pair_of_bytes() {
    for first in 0..=255u8 {
        for second in 0..=255u8 {
            let pw = [first, second, 0x80, 0x41];
            let reference: Vec<u8> = String::from_utf8_lossy(&pw)
                .encode_utf16()
                .flat_map(u16::to_le_bytes)
                .collect();
            assert_eq!(password_utf16le(&pw), reference);
        }
    }
    let wide = "\u{1f600}x\u{10ffff}".as_bytes();
    let reference: Vec<u8> = String::from_utf8_lossy(wide)
        .encode_utf16()
        .flat_map(u16::to_le_bytes)
        .collect();
    assert_eq!(password_utf16le(wide), reference);
}

#[test]
fn rejects_external_and_overlong_and_truncated() {
    assert!(AesParams::parse(&[0x3F | 0xC0, 0xFF]).is_none());
    assert!(AesParams::parse(&props(30, &[0; 16], &[0; 16])).is_none());
    assert!(AesParams::parse(&[0xC0, 0xFF, 1, 2, 3]).is_none());
    assert!(AesParams::parse(&[]).is_none());
}

#[test]
fn accepts_properties_without_salt_and_vector() {
    let params = AesParams::parse(&[0x13, 0]).unwrap();
    assert_eq!(params.ncp, 0x13);
    assert_eq!(params.salt_len, 0);
    assert_eq!(params.iv, [0u8; 16]);
    assert_eq!(AesParams::parse(&[24, 0]).unwrap().ncp, 24);
    assert!(AesParams::parse(&[25, 0]).is_none());
    assert!(AesParams::parse(&[0x13]).is_none());
}

#[test]
fn decrypts_round_trip_at_every_chunking() {
    let salt = [0x11u8; 16];
    let iv = [0x22u8; 16];
    let ncp = 4;
    let password = b"correct horse";
    let key = derive_key(ncp, &salt, &password_utf16le(password));
    let plaintext: Vec<u8> = (0..1000u32).map(|i| (i * 31 + 7) as u8).collect();
    let ciphertext = encrypt(&key, &iv, &plaintext);

    let params = AesParams::parse(&props(ncp, &salt, &iv)).unwrap();
    for chunk in [1usize, 3, 16, 17, 512, 4096] {
        for room in [1usize, 32, 4096] {
            let mut decoder = AesDecoder::new(params, plaintext.len() as u64, password);
            let out = decode(&mut decoder, &ciphertext, chunk, room);
            assert_eq!(out, plaintext, "mismatch at chunk {chunk}");
        }
    }
}

#[test]
fn hashes_a_known_text() {
    let digest = sha256_of(b"abc");
    assert_eq!(digest[..4], [0xba, 0x78, 0x16, 0xbf]);
    assert_eq!(digest[28..], [0xf2, 0x00, 0x15, 0xad]);
}

#[test]
fn derives_one_round_by_one_hash() {
    let mut text = b"salt".to_vec();
    text.extend_from_slice(b"p\0w\0");
    text.extend_from_slice(&0u64.to_le_bytes());
    assert_eq!(derive_key(0, b"salt", b"p\0w\0"), sha256_of(&text));
}

#[test]
fn stops_at_the_declared_size() {
    let key = derive_key(0, &[], &password_utf16le(b"x"));
    let ciphertext = encrypt(&key, &[0; 16], b"sixteen bytes !!and more");
    let params = AesParams::parse(&[0, 0]).unwrap();
    let mut decoder = AesDecoder::new(params, 7, b"x");
    assert_eq!(decode(&mut decoder, &ciphertext, 5, 3), b"sixteen");
}
