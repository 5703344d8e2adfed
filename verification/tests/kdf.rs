use pkcs12::hash::{hash, hmac_verify, HashAlgorithm};
use pkcs12::kdf::{
    advance, derive_key, derive_key_utf8, encode_bmp, fill, repeat_to_block, Pkcs12KeyType,
};

#[test]
fn sha256_encryption_key() {
    let expected: Vec<u8> = vec![
        0xfa, 0xe4, 0xd4, 0x95, 0x7a, 0x3c, 0xc7, 0x81, 0xe1, 0x18, 0x0b, 0x9d, 0x4f, 0xb7, 0x9c, 0x1e,
        0x0c, 0x85, 0x79, 0xb7, 0x46, 0xa3, 0x17, 0x7e, 0x5b, 0x07, 0x68, 0xa3, 0x11, 0x8b, 0xf8, 0x63,
    ];
    let key = derive_key_utf8(
        HashAlgorithm::Sha256,
        "ge@\u{e4}heim",
        &[1, 2, 3, 4, 5, 6, 7, 8],
        Pkcs12KeyType::EncryptionKey,
        100,
        32,
    );
    assert_eq!(key.unwrap(), expected);
}

#[test]
fn sha256_initialization_vector() {
    let expected: Vec<u8> = vec![
        0xe5, 0xff, 0x81, 0x3b, 0xc6, 0x54, 0x7d, 0xe5, 0x15, 0x5b, 0x14, 0xd2, 0xfa, 0xda, 0x85, 0xb3,
        0x20, 0x1a, 0x97, 0x73, 0x49, 0xdb, 0x6e, 0x26, 0xcc, 0xc9, 0x98, 0xd9, 0xe8, 0xf8, 0x3d, 0x6c,
    ];
    let key = derive_key_utf8(
        HashAlgorithm::Sha256,
        "ge@\u{e4}heim",
        &[1, 2, 3, 4, 5, 6, 7, 8],
        Pkcs12KeyType::Iv,
        100,
        32,
    );
    assert_eq!(key.unwrap(), expected);
}

#[test]
fn sha256_mac_key() {
    let expected: Vec<u8> = vec![
        0x13, 0x63, 0x55, 0xed, 0x94, 0x34, 0x51, 0x66, 0x82, 0x53, 0x4f, 0x46, 0xd6, 0x39, 0x56, 0xdb,
        0x5f, 0xf0, 0x6b, 0x84, 0x47, 0x02, 0xc2, 0xc1, 0xf3, 0xb4, 0x63, 0x21, 0xe2, 0x52, 0x4a, 0x4d,
    ];
    let key = derive_key_utf8(
        HashAlgorithm::Sha256,
        "ge@\u{e4}heim",
        &[1, 2, 3, 4, 5, 6, 7, 8],
        Pkcs12KeyType::Mac,
        100,
        32,
    );
    assert_eq!(key.unwrap(), expected);
}

#[test]
fn sha256_more_than_three_digests() {
    let expected: Vec<u8> = vec![
        0xfa, 0xe4, 0xd4, 0x95, 0x7a, 0x3c, 0xc7, 0x81, 0xe1, 0x18, 0x0b, 0x9d, 0x4f, 0xb7, 0x9c, 0x1e,
        0x0c, 0x85, 0x79, 0xb7, 0x46, 0xa3, 0x17, 0x7e, 0x5b, 0x07, 0x68, 0xa3, 0x11, 0x8b, 0xf8, 0x63,
        0x55, 0x65, 0x35, 0x82, 0x9f, 0x36, 0xcd, 0xef, 0x61, 0x2a, 0x5e, 0x88, 0x14, 0x90, 0xfe, 0x95,
        0xf5, 0x1c, 0x77, 0x94, 0x70, 0xf2, 0x1f, 0x6c, 0xc1, 0x71, 0xd2, 0x51, 0x12, 0x17, 0x49, 0xc1,
        0x8b, 0x8a, 0x2b, 0x29, 0x06, 0x42, 0xf4, 0x7f, 0xcf, 0x9c, 0x8a, 0x8e, 0x0e, 0xb4, 0x92, 0xa4,
        0x75, 0xb7, 0x77, 0xf9, 0x4e, 0x32, 0x6b, 0x1c, 0x3d, 0x5f, 0x42, 0x91, 0x09, 0x6f, 0x8b, 0x96,
        0xdd, 0x77, 0x4d, 0x10,
    ];
    let key = derive_key_utf8(
        HashAlgorithm::Sha256,
        "ge@\u{e4}heim",
        &[1, 2, 3, 4, 5, 6, 7, 8],
        Pkcs12KeyType::EncryptionKey,
        100,
        100,
    );
    assert_eq!(key.unwrap(), expected);
}

#[test]
fn sha1_triple_des_key() {
    let expected: Vec<u8> = vec![
        0xf6, 0x81, 0x00, 0x7c, 0x3c, 0x54, 0x75, 0x72, 0xa7, 0x8d, 0x9f, 0x8b, 0x6a, 0xbd, 0x8d, 0x66,
        0xa4, 0x18, 0xb2, 0xd2, 0x9b, 0xc0, 0x55, 0xaf,
    ];
    let key = derive_key_utf8(
        HashAlgorithm::Sha1,
        "ge@\u{e4}heim",
        &[1, 2, 3, 4, 5, 6, 7, 8],
        Pkcs12KeyType::EncryptionKey,
        100,
        24,
    );
    assert_eq!(key.unwrap(), expected);
}

#[test]
fn sha1_des_vector() {
    let expected: Vec<u8> = vec![
        0x68, 0x0d, 0xc3, 0x26, 0x97, 0xa1, 0x00, 0x7c,
    ];
    let key = derive_key_utf8(
        HashAlgorithm::Sha1,
        "ge@\u{e4}heim",
        &[1, 2, 3, 4, 5, 6, 7, 8],
        Pkcs12KeyType::Iv,
        100,
        8,
    );
    assert_eq!(key.unwrap(), expected);
}

#[test]
fn empty_password_and_salt() {
    let expected: Vec<u8> = vec![
        0xc4, 0x5e, 0xf9, 0xe6, 0x30, 0x4a, 0xfc, 0xad, 0xf8, 0x70, 0x16, 0x69, 0x8a, 0x5a, 0xca, 0xf7,
        0xdc, 0x95, 0x6f, 0xd9,
    ];
    let key = derive_key_utf8(
        HashAlgorithm::Sha1,
        "",
        &[],
        Pkcs12KeyType::Mac,
        1,
        20,
    );
    assert_eq!(key.unwrap(), expected);
}

#[test]
fn password_and_salt_of_several_blocks() {
    let expected: Vec<u8> = vec![
        0xd3, 0xda, 0xdc, 0x6b, 0xa6, 0xb6, 0x39, 0xbe, 0x51, 0x68, 0x4a, 0xfc, 0xd5, 0x91, 0xec, 0xd5,
        0x85, 0x53, 0x4a, 0xea, 0x5f, 0x52, 0x89, 0xe9, 0x7e, 0x8e, 0x7c, 0xb2, 0x4c, 0x75, 0x6c, 0x51,
        0x56, 0x16, 0x71, 0xf3, 0x8f, 0xe0, 0x47, 0x14, 0xf1, 0x04, 0x94, 0x6a, 0x39, 0x5c, 0x54, 0xb1,
        0x52, 0xde, 0x69, 0x6d, 0x3e, 0xad, 0x88, 0x5e, 0xda, 0xee, 0x44, 0xdb, 0xae, 0xc4, 0xfa, 0x16,
    ];
    let key = derive_key_utf8(
        HashAlgorithm::Sha1,
        &"a".repeat(40),
        &(0..70).collect::<Vec<u8>>(),
        Pkcs12KeyType::EncryptionKey,
        3,
        64,
    );
    assert_eq!(key.unwrap(), expected);
}

#[test]
fn counts_below_one_count_as_one() {
    let derive = |rounds: i32| {
        derive_key(HashAlgorithm::Sha1, &[0, b'x', 0, 0], &[1, 2, 3, 4, 5, 6, 7, 8], Pkcs12KeyType::Mac, rounds, 20)
    };
    assert_eq!(derive(0), derive(1));
    assert_eq!(derive(-5), derive(1));
    assert_ne!(derive(2), derive(1));
    let expected: Vec<u8> = vec![
        0x8d, 0x4f, 0x03, 0x81, 0xd3, 0x53, 0x1c, 0xab, 0x41, 0xf0, 0x56, 0xc4, 0x2e, 0x77, 0x9a, 0x78,
        0x2f, 0x79, 0x68, 0xb6,
    ];
    assert_eq!(derive(0), expected);
}

#[test]
fn passwords_are_16_bit_characters() {
    let derive = |password: &str| {
        derive_key_utf8(HashAlgorithm::Sha256, password, &[1], Pkcs12KeyType::Mac, 1, 32)
    };
    assert_eq!(
        derive("\u{20ac}a").unwrap(),
        derive_key(
            HashAlgorithm::Sha256,
            &[0x20, 0xac, 0x00, b'a', 0x00, 0x00],
            &[1],
            Pkcs12KeyType::Mac,
            1,
            32
        )
    );
    assert_eq!(encode_bmp("a\u{ffff}").unwrap(), vec![0x00, b'a', 0xff, 0xff]);
    assert!(encode_bmp("").unwrap().is_empty());
    assert!(derive("\u{ffff}").is_ok());
    assert!(derive("\u{10000}").is_err());
    assert!(derive("fine \u{1f600}").is_err());
}

#[test]
fn key_of_no_octets() {
    assert!(derive_key(HashAlgorithm::Sha1, &[], &[], Pkcs12KeyType::Iv, 1, 0).is_empty());
}

#[test]
fn shorter_keys_are_prefixes_of_longer_ones() {
    let derive = |len: usize| {
        derive_key(HashAlgorithm::Sha1, &[0, 0], &[1, 2, 3, 4, 5, 6, 7, 8], Pkcs12KeyType::EncryptionKey, 5, len)
    };
    let long = derive(90);
    for len in 0..90 {
        assert_eq!(derive(len).as_slice(), &long[..len]);
    }
}

#[test]
fn blocks_advance_with_carry() {
    let mut input: Vec<u8> = vec![0xff; 64];
    input.extend_from_slice(&[0; 64]);
    let mut b: Vec<u8> = vec![0; 64];
    b[63] = 1;
    advance(&mut input, &b);
    let mut expected: Vec<u8> = vec![0; 63];
    expected.push(1);
    expected.extend_from_slice(&[0; 63]);
    expected.push(2);
    assert_eq!(input, expected);
}

#[test]
fn filling_repeats_to_whole_blocks() {
    assert!(fill(&[]).is_empty());
    let filled = fill(&[1, 2, 3]);
    assert_eq!(filled.len(), 64);
    assert_eq!(&filled[..4], &[1, 2, 3, 1]);
    assert_eq!(filled[63], 1);
    assert_eq!(fill(&[7; 64]).len(), 64);
    assert_eq!(fill(&[7; 65]).len(), 128);
    let block = repeat_to_block(&vec![1, 2, 3]);
    assert_eq!(block, filled);
}

#[test]
fn digests_of_abc() {
    assert_eq!(
        hash(HashAlgorithm::Sha1, b"abc"),
        vec![
        0xa9, 0x99, 0x3e, 0x36, 0x47, 0x06, 0x81, 0x6a, 0xba, 0x3e, 0x25, 0x71, 0x78, 0x50, 0xc2, 0x6c,
        0x9c, 0xd0, 0xd8, 0x9d,
        ]
    );
    assert_eq!(
        hash(HashAlgorithm::Sha256, b"abc"),
        vec![
        0xba, 0x78, 0x16, 0xbf, 0x8f, 0x01, 0xcf, 0xea, 0x41, 0x41, 0x40, 0xde, 0x5d, 0xae, 0x22, 0x23,
        0xb0, 0x03, 0x61, 0xa3, 0x96, 0x17, 0x7a, 0x9c, 0xb4, 0x10, 0xff, 0x61, 0xf2, 0x00, 0x15, 0xad,
        ]
    );
}

#[test]
fn hmac_tags() {
    let data = b"The quick brown fox jumps over the lazy dog";
    let sha1: Vec<u8> = vec![
        0xde, 0x7c, 0x9b, 0x85, 0xb8, 0xb7, 0x8a, 0xa6, 0xbc, 0x8a, 0x7a, 0x36, 0xf7, 0x0a, 0x90, 0x70,
        0x1c, 0x9d, 0xb4, 0xd9,
    ];
    let sha256: Vec<u8> = vec![
        0xf7, 0xbc, 0x83, 0xf4, 0x30, 0x53, 0x84, 0x24, 0xb1, 0x32, 0x98, 0xe6, 0xaa, 0x6f, 0xb1, 0x43,
        0xef, 0x4d, 0x59, 0xa1, 0x49, 0x46, 0x17, 0x59, 0x97, 0x47, 0x9d, 0xbc, 0x2d, 0x1a, 0x3c, 0xd8,
    ];
    assert!(hmac_verify(HashAlgorithm::Sha1, b"key", data, &sha1));
    assert!(hmac_verify(HashAlgorithm::Sha256, b"key", data, &sha256));
    assert!(!hmac_verify(HashAlgorithm::Sha1, b"key", data, &sha256));
    assert!(!hmac_verify(HashAlgorithm::Sha256, b"yek", data, &sha256));
    assert!(!hmac_verify(HashAlgorithm::Sha256, b"key", data, &sha256[..31]));
}
