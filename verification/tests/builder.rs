use cms::encrypted_data::EncryptedData;
use const_oid::db::rfc5911::{ID_DATA, ID_ENCRYPTED_DATA};
use der::asn1::{ContextSpecific, OctetString};
use der::{Any, Decode, Encode};
use pkcs8::EncryptedPrivateKeyInfoRef;
use rand_core::Rng;

use pkcs12::builder::{
    compute_mac, data_content_info, encrypt_key, encrypted_content_info, encrypted_private_key,
    hmac_sha256_mac_data, key_content_info, pbes2_encrypt, scheme_to_alg_id, EncryptionAlgorithm,
    Error, MacAlgorithm, PfxBuilder, Randomness,
};
use pkcs12::cert_bag::CertBag;
use pkcs12::oid::{ID_PBES2, PKCS_12_CERT_BAG_OID, PKCS_12_PKCS8_KEY_BAG_OID};
use pkcs12::parser::parse_pfx;
use pkcs12::pbes2::Pbes2Parameters;
use pkcs12::pfx::{authenticated_safe_from_der, Pfx};
use pkcs12::safe_bag::safe_contents_from_der;

const PASSWORD: &str = "builder-test-password";
const ENC_ITERS: u32 = 1_000;
const MAC_ITERS: i32 = 1_000;

const CERT_DER: [u8; 405] = [
    0x30, 0x82, 0x01, 0x91, 0x30, 0x82, 0x01, 0x37, 0xa0, 0x03, 0x02, 0x01, 0x02, 0x02, 0x14, 0x11,
    0x32, 0x55, 0xf9, 0x48, 0xc0, 0x54, 0x6b, 0x98, 0x08, 0x95, 0x46, 0x12, 0x4c, 0x4d, 0x39, 0x42,
    0x2e, 0xc4, 0xa7, 0x30, 0x0a, 0x06, 0x08, 0x2a, 0x86, 0x48, 0xce, 0x3d, 0x04, 0x03, 0x02, 0x30,
    0x1d, 0x31, 0x1b, 0x30, 0x19, 0x06, 0x03, 0x55, 0x04, 0x03, 0x0c, 0x12, 0x45, 0x78, 0x61, 0x6d,
    0x70, 0x6c, 0x65, 0x20, 0x45, 0x6e, 0x64, 0x20, 0x45, 0x6e, 0x74, 0x69, 0x74, 0x79, 0x30, 0x20,
    0x17, 0x0d, 0x32, 0x36, 0x31, 0x31, 0x31, 0x36, 0x30, 0x30, 0x33, 0x32, 0x33, 0x32, 0x5a, 0x18,
    0x0f, 0x32, 0x31, 0x32, 0x36, 0x31, 0x30, 0x32, 0x33, 0x30, 0x30, 0x33, 0x32, 0x33, 0x32, 0x5a,
    0x30, 0x1d, 0x31, 0x1b, 0x30, 0x19, 0x06, 0x03, 0x55, 0x04, 0x03, 0x0c, 0x12, 0x45, 0x78, 0x61,
    0x6d, 0x70, 0x6c, 0x65, 0x20, 0x45, 0x6e, 0x64, 0x20, 0x45, 0x6e, 0x74, 0x69, 0x74, 0x79, 0x30,
    0x59, 0x30, 0x13, 0x06, 0x07, 0x2a, 0x86, 0x48, 0xce, 0x3d, 0x02, 0x01, 0x06, 0x08, 0x2a, 0x86,
    0x48, 0xce, 0x3d, 0x03, 0x01, 0x07, 0x03, 0x42, 0x00, 0x04, 0xc8, 0x8a, 0xf6, 0x87, 0x0a, 0xcb,
    0x68, 0xfd, 0x1c, 0xe5, 0xed, 0xb6, 0x0f, 0x3d, 0x20, 0x41, 0xb3, 0x33, 0xdf, 0x54, 0xa1, 0xc9,
    0x3f, 0x14, 0x8a, 0xb0, 0x5d, 0x65, 0xe3, 0x1c, 0xf8, 0x91, 0xaa, 0x88, 0x11, 0xee, 0x49, 0xcd,
    0xf1, 0xbc, 0x12, 0x7d, 0x1e, 0xd5, 0x69, 0xca, 0xd2, 0x0c, 0xb9, 0x29, 0xd2, 0x58, 0x4c, 0xec,
    0x39, 0xe3, 0x58, 0x39, 0x11, 0xf9, 0x3d, 0xbb, 0xaf, 0xcb, 0xa3, 0x53, 0x30, 0x51, 0x30, 0x1d,
    0x06, 0x03, 0x55, 0x1d, 0x0e, 0x04, 0x16, 0x04, 0x14, 0x25, 0x3e, 0xbc, 0x06, 0x00, 0x35, 0x7e,
    0xd9, 0xd2, 0xc6, 0xf2, 0x1e, 0x96, 0x90, 0x9c, 0x36, 0x0c, 0x2f, 0x9f, 0x48, 0x30, 0x1f, 0x06,
    0x03, 0x55, 0x1d, 0x23, 0x04, 0x18, 0x30, 0x16, 0x80, 0x14, 0x25, 0x3e, 0xbc, 0x06, 0x00, 0x35,
    0x7e, 0xd9, 0xd2, 0xc6, 0xf2, 0x1e, 0x96, 0x90, 0x9c, 0x36, 0x0c, 0x2f, 0x9f, 0x48, 0x30, 0x0f,
    0x06, 0x03, 0x55, 0x1d, 0x13, 0x01, 0x01, 0xff, 0x04, 0x05, 0x30, 0x03, 0x01, 0x01, 0xff, 0x30,
    0x0a, 0x06, 0x08, 0x2a, 0x86, 0x48, 0xce, 0x3d, 0x04, 0x03, 0x02, 0x03, 0x48, 0x00, 0x30, 0x45,
    0x02, 0x21, 0x00, 0x8f, 0xcd, 0x67, 0xc0, 0x41, 0xf6, 0xaa, 0xcd, 0x68, 0x57, 0xca, 0x39, 0x5e,
    0xce, 0xac, 0x3f, 0x20, 0x4a, 0x78, 0x67, 0x08, 0x62, 0x66, 0x74, 0xac, 0xff, 0x59, 0x88, 0x7c,
    0xe2, 0xbb, 0x9a, 0x02, 0x20, 0x1f, 0xb2, 0x0a, 0xe6, 0xc4, 0x35, 0x02, 0x92, 0x35, 0x45, 0x81,
    0x9d, 0xd0, 0xba, 0x39, 0x23, 0xb5, 0x78, 0x61, 0xf3, 0x64, 0xbd, 0xd1, 0x89, 0xfb, 0x95, 0x58,
    0x22, 0x3e, 0x10, 0xf2, 0xa3,
];

const KEY_DER: [u8; 138] = [
    0x30, 0x81, 0x87, 0x02, 0x01, 0x00, 0x30, 0x13, 0x06, 0x07, 0x2a, 0x86, 0x48, 0xce, 0x3d, 0x02,
    0x01, 0x06, 0x08, 0x2a, 0x86, 0x48, 0xce, 0x3d, 0x03, 0x01, 0x07, 0x04, 0x6d, 0x30, 0x6b, 0x02,
    0x01, 0x01, 0x04, 0x20, 0x2d, 0x46, 0xa4, 0x9a, 0xf0, 0xd3, 0x18, 0x87, 0x34, 0x08, 0xee, 0x0b,
    0x14, 0x2e, 0x4a, 0xca, 0x5e, 0xf7, 0x39, 0xd8, 0x06, 0x90, 0x22, 0x11, 0xce, 0xca, 0x62, 0x22,
    0x26, 0x37, 0xcd, 0x1c, 0xa1, 0x44, 0x03, 0x42, 0x00, 0x04, 0xc8, 0x8a, 0xf6, 0x87, 0x0a, 0xcb,
    0x68, 0xfd, 0x1c, 0xe5, 0xed, 0xb6, 0x0f, 0x3d, 0x20, 0x41, 0xb3, 0x33, 0xdf, 0x54, 0xa1, 0xc9,
    0x3f, 0x14, 0x8a, 0xb0, 0x5d, 0x65, 0xe3, 0x1c, 0xf8, 0x91, 0xaa, 0x88, 0x11, 0xee, 0x49, 0xcd,
    0xf1, 0xbc, 0x12, 0x7d, 0x1e, 0xd5, 0x69, 0xca, 0xd2, 0x0c, 0xb9, 0x29, 0xd2, 0x58, 0x4c, 0xec,
    0x39, 0xe3, 0x58, 0x39, 0x11, 0xf9, 0x3d, 0xbb, 0xaf, 0xcb,
];

/// Draws the random octets of one archive.
fn random() -> Randomness {
    let mut rng = rand::rng();
    let mut random = fixed_random();
    rng.fill_bytes(&mut random.cert_salt);
    rng.fill_bytes(&mut random.cert_iv);
    rng.fill_bytes(&mut random.key_salt);
    rng.fill_bytes(&mut random.key_iv);
    rng.fill_bytes(&mut random.mac_salt);
    random
}

/// Octets that are the same every time.
fn fixed_random() -> Randomness {
    Randomness {
        cert_salt: [1; 16],
        cert_iv: [2; 16],
        key_salt: [3; 16],
        key_iv: [4; 16],
        mac_salt: [5; 8],
    }
}

/// A builder with low iteration counts.
fn quick_builder() -> PfxBuilder {
    PfxBuilder::new(PASSWORD)
        .with_cert_encryption(EncryptionAlgorithm::Pbes2Aes256Cbc {
            iterations: ENC_ITERS,
        })
        .with_key_encryption(EncryptionAlgorithm::Pbes2Aes256Cbc {
            iterations: ENC_ITERS,
        })
        .with_mac_algorithm(MacAlgorithm::HmacSha256 {
            iterations: MAC_ITERS,
        })
}

/// Build a PFX from the example cert and key, then parse it back and verify
/// that the recovered cert and key bytes match what went in.
#[test]
fn builder_roundtrip() {
    let cert_der = &CERT_DER;
    let key_der = &KEY_DER;

    let pfx_der = PfxBuilder::new(PASSWORD)
        .with_cert(cert_der.as_slice())
        .with_key(key_der.as_slice())
        .with_cert_encryption(EncryptionAlgorithm::Pbes2Aes256Cbc {
            iterations: ENC_ITERS,
        })
        .with_key_encryption(EncryptionAlgorithm::Pbes2Aes256Cbc {
            iterations: ENC_ITERS,
        })
        .with_mac_algorithm(MacAlgorithm::HmacSha256 {
            iterations: MAC_ITERS,
        })
        .build_with_rng(&random())
        .expect("builder should succeed");

    let pfx = Pfx::from_der(&pfx_der).expect("built PFX should parse");

    // Unwrap outer Data ContentInfo, OctetString, AuthenticatedSafe.
    let auth_safe_os = OctetString::from_der(&pfx.auth_safe.content).unwrap();
    let auth_safes = authenticated_safe_from_der(auth_safe_os.as_bytes()).unwrap();
    assert_eq!(2, auth_safes.len());

    // auth_safe[0]: EncryptedData containing the cert bag(s)
    {
        let ci = auth_safes.first().unwrap();
        assert_eq!(ID_ENCRYPTED_DATA.as_bytes(), ci.content_type.as_slice());

        let enc_data = EncryptedData::from_der(&ci.content).unwrap();
        let params_der = enc_data
            .enc_content_info
            .content_enc_alg
            .parameters
            .as_ref()
            .unwrap()
            .to_der()
            .unwrap();
        let params = pkcs5::pbes2::Parameters::from_der(&params_der).unwrap();
        let scheme = pkcs5::EncryptionScheme::from(params);

        let mut ciphertext = enc_data
            .enc_content_info
            .encrypted_content
            .clone()
            .unwrap()
            .as_bytes()
            .to_vec();
        let plaintext = scheme
            .decrypt_in_place(PASSWORD, &mut ciphertext)
            .expect("cert bag decryption should succeed");

        let cert_bags = safe_contents_from_der(plaintext).unwrap();
        assert_eq!(1, cert_bags.len());
        let sb = cert_bags.first().unwrap();
        assert_eq!(PKCS_12_CERT_BAG_OID.as_slice(), sb.bag_id.as_slice());

        let cs: ContextSpecific<Any> = ContextSpecific::from_der(&sb.bag_value).unwrap();
        let cert_bag = CertBag::from_der(&cs.value.to_der().unwrap()).unwrap();
        assert_eq!(cert_der.as_slice(), cert_bag.cert_value.as_slice());
    }

    // auth_safe[1]: Data ContentInfo containing the key bag
    {
        let ci = auth_safes.get(1).unwrap();
        assert_eq!(ID_DATA.as_bytes(), ci.content_type.as_slice());

        let key_os = OctetString::from_der(&ci.content).unwrap();
        let key_bags = safe_contents_from_der(key_os.as_bytes()).unwrap();
        assert_eq!(1, key_bags.len());
        let sb = key_bags.first().unwrap();
        assert_eq!(PKCS_12_PKCS8_KEY_BAG_OID.as_slice(), sb.bag_id.as_slice());

        let cs: ContextSpecific<EncryptedPrivateKeyInfoRef<'_>> =
            ContextSpecific::from_der(&sb.bag_value).unwrap();
        let mut ciphertext = cs.value.encrypted_data.as_bytes().to_vec();
        let plaintext = cs
            .value
            .encryption_algorithm
            .decrypt_in_place(PASSWORD, &mut ciphertext)
            .expect("key decryption should succeed");
        assert_eq!(key_der.as_slice(), plaintext);
    }
}

#[test]
fn builder_without_cert_names_the_cert() {
    let result = quick_builder().with_key(&KEY_DER).build_with_rng(&random());
    assert!(matches!(result, Err(Error::MissingField("cert"))));
    let result = quick_builder().build_with_rng(&random());
    assert!(matches!(result, Err(Error::MissingField("cert"))));
}

#[test]
fn builder_without_key_names_the_key() {
    let error = quick_builder().with_cert(&CERT_DER).build_with_rng(&random()).unwrap_err();
    assert!(matches!(error, Error::MissingField("key")));
    assert_eq!(error.message(), "required field not set: key");
}

#[test]
fn builder_refuses_iteration_counts_above_the_bound() {
    let too_many = EncryptionAlgorithm::Pbes2Aes256Cbc { iterations: 100_000_001 };
    let result = quick_builder()
        .with_cert(&CERT_DER)
        .with_key(&KEY_DER)
        .with_cert_encryption(too_many.clone())
        .build_with_rng(&random());
    assert!(matches!(result, Err(Error::Encrypt(_))));
    let error = quick_builder()
        .with_cert(&CERT_DER)
        .with_key(&KEY_DER)
        .with_key_encryption(too_many)
        .build_with_rng(&random())
        .unwrap_err();
    assert!(matches!(error, Error::Encrypt(_)));
    assert!(error.message().starts_with("encryption error: "));
}

#[test]
fn builder_refuses_passwords_outside_the_bmp() {
    let error = PfxBuilder::new("pass\u{1f511}word")
        .with_cert(&CERT_DER)
        .with_key(&KEY_DER)
        .with_cert_encryption(EncryptionAlgorithm::Pbes2Aes256Cbc { iterations: 1 })
        .with_key_encryption(EncryptionAlgorithm::Pbes2Aes256Cbc { iterations: 1 })
        .build_with_rng(&random())
        .unwrap_err();
    assert!(matches!(error, Error::Asn1(_)));
    assert!(error.message().starts_with("ASN.1 error: "));
}

/// U+FFFF is the last character that a password may hold.
#[test]
fn builder_takes_every_character_of_the_bmp() {
    let password = "\u{0}\u{20ac}\u{ffff}";
    let pfx_der = PfxBuilder::new(password)
        .with_cert(&CERT_DER)
        .with_key(&KEY_DER)
        .with_cert_encryption(EncryptionAlgorithm::Pbes2Aes256Cbc { iterations: 1 })
        .with_key_encryption(EncryptionAlgorithm::Pbes2Aes256Cbc { iterations: 1 })
        .with_mac_algorithm(MacAlgorithm::HmacSha256 { iterations: 1 })
        .build_with_rng(&random())
        .unwrap();
    assert!(parse_pfx(&pfx_der, password).unwrap().mac_verified);
}

#[test]
fn builder_keeps_the_last_of_two_settings() {
    let pfx_der = quick_builder()
        .with_cert(&[1, 2, 3])
        .with_key(&[4, 5, 6])
        .with_key(&KEY_DER)
        .with_cert(&CERT_DER)
        .build_with_rng(&random())
        .unwrap();
    let contents = parse_pfx(&pfx_der, PASSWORD).unwrap();
    assert_eq!(CERT_DER.as_slice(), contents.certificate.as_slice());
    assert_eq!(KEY_DER.as_slice(), contents.key_der.as_slice());
}

#[test]
fn builder_is_a_function_of_its_settings_and_random_octets() {
    let build = || {
        quick_builder().with_cert(&CERT_DER).with_key(&KEY_DER).build_with_rng(&fixed_random())
    };
    assert_eq!(build().unwrap(), build().unwrap());
}

#[test]
fn default_algorithms() {
    assert!(matches!(
        EncryptionAlgorithm::default(),
        EncryptionAlgorithm::Pbes2Aes256Cbc { iterations: 600_000 }
    ));
    assert!(matches!(
        MacAlgorithm::default(),
        MacAlgorithm::HmacSha256 { iterations: 100_000 }
    ));
}

/// The whole archive is compared with one that was put together octet by octet.
#[test]
fn archive_is_what_its_parts_say() {
    let pfx_der = quick_builder()
        .with_cert(&CERT_DER)
        .with_key(&KEY_DER)
        .build_with_rng(&fixed_random())
        .unwrap();
    let pfx = Pfx::from_der(&pfx_der).unwrap();
    assert_eq!(pfx.to_der().unwrap(), pfx_der);
    assert_eq!(ID_DATA.as_bytes(), pfx.auth_safe.content_type.as_slice());

    let mac_data = pfx.mac_data.as_ref().unwrap();
    assert_eq!(mac_data.mac_salt, vec![5u8; 8]);
    assert_eq!(mac_data.iterations, MAC_ITERS);
    assert_eq!(
        mac_data.mac.algorithm.oid.as_slice(),
        const_oid::db::rfc5912::ID_SHA_256.as_bytes()
    );
    assert!(mac_data.mac.algorithm.parameters.is_none());
    assert_eq!(mac_data.mac.digest.len(), 32);

    let auth_safe_os = OctetString::from_der(&pfx.auth_safe.content).unwrap();
    let auth_safes = authenticated_safe_from_der(auth_safe_os.as_bytes()).unwrap();
    let enc_data = EncryptedData::from_der(&auth_safes[0].content).unwrap();
    assert!(enc_data.unprotected_attrs.is_none());
    assert_eq!(enc_data.version, cms::content_info::CmsVersion::V0);
    assert_eq!(enc_data.enc_content_info.content_type, ID_DATA);
    assert_eq!(enc_data.to_der().unwrap(), auth_safes[0].content);
    let alg = &enc_data.enc_content_info.content_enc_alg;
    assert_eq!(alg.oid, pkcs5::pbes2::PBES2_OID);
    let expected =
        pkcs5::pbes2::Parameters::generate_pbkdf2_sha256_aes256cbc(ENC_ITERS, &[1; 16], [2; 16])
            .unwrap();
    assert_eq!(
        alg.parameters.as_ref().unwrap().to_der().unwrap(),
        expected.to_der().unwrap()
    );
}

/// The parameters, octet by octet.
#[test]
fn pbes2_parameters_encoding() {
    let random = fixed_random();
    let key = encrypt_key(
        &random.key_salt,
        &random.key_iv,
        b"secret",
        b"password",
        &EncryptionAlgorithm::Pbes2Aes256Cbc { iterations: 2_048 },
    )
    .unwrap();
    let mut expected: Vec<u8> = vec![
        0x30, 0x73, 0x30, 0x5f, 0x06, 0x09, 0x2a, 0x86, 0x48, 0x86, 0xf7, 0x0d, 0x01, 0x05, 0x0d,
        0x30, 0x52, 0x30, 0x31, 0x06, 0x09, 0x2a, 0x86, 0x48, 0x86, 0xf7, 0x0d, 0x01, 0x05, 0x0c,
        0x30, 0x24, 0x04, 0x10,
    ];
    expected.extend_from_slice(&[3; 16]);
    expected.extend_from_slice(&[
        0x02, 0x02, 0x08, 0x00, 0x30, 0x0c, 0x06, 0x08, 0x2a, 0x86, 0x48, 0x86, 0xf7, 0x0d, 0x02,
        0x09, 0x05, 0x00, 0x30, 0x1d, 0x06, 0x09, 0x60, 0x86, 0x48, 0x01, 0x65, 0x03, 0x04, 0x01,
        0x2a, 0x04, 0x10,
    ]);
    expected.extend_from_slice(&[4; 16]);
    expected.extend_from_slice(&[0x04, 0x10]);
    assert_eq!(&key[..key.len() - 16], expected.as_slice());
}

#[test]
fn encryption_pads_to_whole_blocks() {
    let (params, ciphertext) = pbes2_encrypt(
        &[7; 16],
        &[8; 16],
        &[0; 16],
        b"password",
        &EncryptionAlgorithm::Pbes2Aes256Cbc { iterations: 3 },
    )
    .unwrap();
    assert_eq!(params.iterations, 3);
    assert_eq!(params.salt, [7; 16]);
    assert_eq!(params.iv, [8; 16]);
    assert_eq!(ciphertext.len(), 32);
    assert_ne!(&ciphertext[..16], [0; 16].as_slice());
    for (len, expected) in [(0usize, 16usize), (1, 16), (15, 16), (17, 32), (31, 32), (32, 48)] {
        let alg = EncryptionAlgorithm::Pbes2Aes256Cbc { iterations: 1 };
        let (_, ciphertext) =
            pbes2_encrypt(&[7; 16], &[8; 16], &vec![9; len], b"password", &alg).unwrap();
        assert_eq!(ciphertext.len(), expected);
    }
}

#[test]
fn ciphertexts_are_wrapped_as_they_are() {
    let params = Pbes2Parameters { iterations: 5, salt: [1; 16], iv: [2; 16] };
    let info = encrypted_content_info(&params, vec![7, 8, 9]).unwrap();
    assert_eq!(info.content_type.as_slice(), ID_ENCRYPTED_DATA.as_bytes());
    let data = EncryptedData::from_der(&info.content).unwrap();
    let content = data.enc_content_info.encrypted_content.unwrap();
    assert_eq!(content.as_bytes(), &[7, 8, 9]);
    assert_eq!(scheme_to_alg_id(&params).unwrap().oid, ID_PBES2.to_vec());

    let der = encrypted_private_key(&params, &[7, 8, 9]).unwrap();
    let mut expected: Vec<u8> = vec![
        0x30, 0x75, 0x02, 0x01, 0x00, 0x30, 0x70, 0x06, 0x09, 0x2a, 0x86, 0x48, 0x86, 0xf7, 0x0d,
        0x01, 0x07, 0x01,
    ];
    expected.extend_from_slice(&der[2..98]);
    expected.extend_from_slice(&[0x80, 0x03, 7, 8, 9]);
    assert_eq!(info.content, expected);
    let key = EncryptedPrivateKeyInfoRef::from_der(&der).unwrap();
    assert_eq!(key.encrypted_data.as_bytes(), &[7, 8, 9]);
    let info = key_content_info(&der).unwrap();
    let bags = OctetString::from_der(&info.content).unwrap();
    let bags = safe_contents_from_der(bags.as_bytes()).unwrap();
    assert_eq!(bags.len(), 1);
    assert_eq!(bags[0].bag_id, PKCS_12_PKCS8_KEY_BAG_OID.to_vec());
    assert_eq!(&bags[0].bag_value[bags[0].bag_value.len() - der.len()..], der.as_slice());

    let mac = hmac_sha256_mac_data(vec![1; 32], &[2; 8], 9);
    assert_eq!(mac.mac.digest, vec![1; 32]);
    assert_eq!(mac.mac_salt, vec![2; 8]);
    assert_eq!(mac.iterations, 9);
}

/// Parameters that differ anywhere are encoded differently.
#[test]
fn parameters_can_be_told_apart() {
    let encode = |iterations: u32, salt: u8, iv: u8| {
        let params = Pbes2Parameters { iterations, salt: [salt; 16], iv: [iv; 16] };
        scheme_to_alg_id(&params).unwrap().parameters.unwrap()
    };
    let one = encode(1_000, 1, 2);
    assert_eq!(one, encode(1_000, 1, 2));
    assert_ne!(one, encode(1_001, 1, 2));
    assert_ne!(one, encode(1_000, 3, 2));
    assert_ne!(one, encode(1_000, 1, 3));
    let params = pkcs5::pbes2::Parameters::from_der(&one).unwrap();
    assert_eq!(params.kdf.pbkdf2().unwrap().iteration_count, 1_000);
    assert_eq!(params.to_der().unwrap(), one);
}

#[test]
fn fields_are_asked_for_in_order() {
    assert!(matches!(quick_builder().check_fields(), Err(Error::MissingField("cert"))));
    let builder = quick_builder().with_cert(&CERT_DER);
    assert!(matches!(builder.check_fields(), Err(Error::MissingField("key"))));
    assert!(builder.with_key(&KEY_DER).check_fields().is_ok());
}

#[test]
fn data_group_holds_an_octet_string() {
    let info = data_content_info(b"abc").unwrap();
    assert_eq!(info.content_type.as_slice(), ID_DATA.as_bytes());
    assert_eq!(info.content, vec![0x04, 0x03, b'a', b'b', b'c']);
}

/// The tag, computed independently.
#[test]
fn mac_tag_of_known_input() {
    let data = compute_mac(
        "ge@\u{e4}heim",
        b"authenticated safe",
        &MacAlgorithm::HmacSha256 { iterations: 100 },
        &[1, 2, 3, 4, 5, 6, 7, 8],
    )
    .unwrap();
    let expected: Vec<u8> = vec![
        0xb3, 0x06, 0xb8, 0xc2, 0x51, 0x2f, 0xb2, 0x34, 0xad, 0x41, 0xab, 0x57, 0x1b, 0xb9, 0x67, 0x65,
        0x73, 0xf1, 0xa0, 0x41, 0x4b, 0xbc, 0x2b, 0x5a, 0x9d, 0xa6, 0x68, 0xd6, 0xc6, 0x3c, 0xbe, 0x15,
    ];
    assert_eq!(data.mac.digest, expected);
    assert_eq!(data.iterations, 100);
}
