use const_oid::db::{rfc5911, rfc5912};
use const_oid::ObjectIdentifier;

use pkcs12::cert_bag::CertBag;
use pkcs12::cms::{AlgorithmIdentifier, ContentInfo};
use pkcs12::mac_data::{DigestInfo, MacData};
use pkcs12::oid;
use pkcs12::pbe_params::Pkcs12PbeParams;
use pkcs12::pfx::{authenticated_safe_from_der, authenticated_safe_to_der, Pfx, Version};
use pkcs12::safe_bag::{safe_contents_from_der, safe_contents_to_der, SafeBag};
use pkcs12::secret::{SecretBytes, SecretString};

#[test]
fn object_identifiers() {
    assert_eq!(oid::ID_DATA.as_slice(), rfc5911::ID_DATA.as_bytes());
    assert_eq!(oid::ID_ENCRYPTED_DATA.as_slice(), rfc5911::ID_ENCRYPTED_DATA.as_bytes());
    assert_eq!(oid::ID_SHA_1.as_slice(), rfc5912::ID_SHA_1.as_bytes());
    assert_eq!(oid::ID_SHA_256.as_slice(), rfc5912::ID_SHA_256.as_bytes());
    for (octets, text) in [
        (oid::PKCS_12_KEY_BAG_OID.as_slice(), "1.2.840.113549.1.12.10.1.1"),
        (oid::PKCS_12_PKCS8_KEY_BAG_OID.as_slice(), "1.2.840.113549.1.12.10.1.2"),
        (oid::PKCS_12_CERT_BAG_OID.as_slice(), "1.2.840.113549.1.12.10.1.3"),
        (oid::PKCS_12_X509_CERT_OID.as_slice(), "1.2.840.113549.1.9.22.1"),
        (
            oid::PKCS_12_PBE_WITH_SHAAND3_KEY_TRIPLE_DES_CBC.as_slice(),
            "1.2.840.113549.1.12.1.3",
        ),
        (oid::ID_PBES2.as_slice(), "1.2.840.113549.1.5.13"),
        (oid::ID_PBKDF2.as_slice(), "1.2.840.113549.1.5.12"),
        (oid::ID_SCRYPT.as_slice(), "1.3.6.1.4.1.11591.4.11"),
        (oid::ID_HMAC_WITH_SHA1.as_slice(), "1.2.840.113549.2.7"),
        (oid::ID_HMAC_WITH_SHA224.as_slice(), "1.2.840.113549.2.8"),
        (oid::ID_HMAC_WITH_SHA256.as_slice(), "1.2.840.113549.2.9"),
        (oid::ID_HMAC_WITH_SHA384.as_slice(), "1.2.840.113549.2.10"),
        (oid::ID_HMAC_WITH_SHA512.as_slice(), "1.2.840.113549.2.11"),
        (oid::ID_AES128_CBC.as_slice(), "2.16.840.1.101.3.4.1.2"),
        (oid::ID_AES128_GCM.as_slice(), "2.16.840.1.101.3.4.1.6"),
        (oid::ID_AES192_CBC.as_slice(), "2.16.840.1.101.3.4.1.22"),
        (oid::ID_AES256_GCM.as_slice(), "2.16.840.1.101.3.4.1.46"),
        (oid::ID_AES256_CBC.as_slice(), "2.16.840.1.101.3.4.1.42"),
        (oid::ID_DES_EDE3_CBC.as_slice(), "1.2.840.113549.3.7"),
    ] {
        assert_eq!(octets, ObjectIdentifier::new(text).unwrap().as_bytes());
    }
}

#[test]
fn cert_bag_encoding() {
    let bag = CertBag { cert_id: vec![0x2a, 0x03], cert_value: vec![0xff] };
    let der = bag.to_der().unwrap();
    assert_eq!(der, vec![0x30, 0x09, 0x06, 0x02, 0x2a, 0x03, 0xa0, 0x03, 0x04, 0x01, 0xff]);
    let back = CertBag::from_der(&der).unwrap();
    assert_eq!(back.cert_id, bag.cert_id);
    assert_eq!(back.cert_value, bag.cert_value);
    // A root octet beyond 2.39 is no object identifier.
    let mut bad = der.clone();
    bad[4] = 0x78;
    assert!(CertBag::from_der(&bad).is_err());
    // Neither is a number that does not end.
    let mut bad = der.clone();
    bad[5] = 0x83;
    assert!(CertBag::from_der(&bad).is_err());
    // Without the explicit tag.
    assert!(CertBag::from_der(&[0x30, 0x07, 0x06, 0x02, 0x2a, 0x03, 0x04, 0x01, 0xff]).is_err());
}

#[test]
fn lengths_are_written_in_the_shortest_form() {
    for (len, header) in [
        (0usize, vec![0x04u8, 0x00]),
        (127, vec![0x04, 0x7f]),
        (128, vec![0x04, 0x81, 0x80]),
        (255, vec![0x04, 0x81, 0xff]),
        (256, vec![0x04, 0x82, 0x01, 0x00]),
        (65_535, vec![0x04, 0x82, 0xff, 0xff]),
        (65_536, vec![0x04, 0x83, 0x01, 0x00, 0x00]),
        (16_777_216, vec![0x04, 0x84, 0x01, 0x00, 0x00, 0x00]),
    ] {
        let bag = CertBag { cert_id: vec![0x2a], cert_value: vec![1; len] };
        let der = bag.to_der().unwrap();
        let start = der.len() - len - header.len();
        assert_eq!(&der[start..der.len() - len], header.as_slice());
        assert_eq!(CertBag::from_der(&der).unwrap().cert_value.len(), len);
    }
    // A longer form than needed is refused.
    let der = [0x30, 0x0a, 0x06, 0x02, 0x2a, 0x03, 0xa0, 0x04, 0x04, 0x81, 0x01, 0xff];
    assert!(CertBag::from_der(&der).is_err());
}

#[test]
fn safe_bags_with_attributes() {
    // localKeyID with one value.
    let attributes: Vec<u8> = vec![
        0x31, 0x12, 0x30, 0x10, 0x06, 0x09, 0x2a, 0x86, 0x48, 0x86, 0xf7, 0x0d, 0x01, 0x09, 0x15,
        0x31, 0x03, 0x04, 0x01, 0x01,
    ];
    let bag = SafeBag {
        bag_id: vec![0x2a, 0x03],
        bag_value: vec![0xa0, 0x02, 0x05, 0x00],
        bag_attributes: Some(attributes.clone()),
    };
    let der = safe_contents_to_der(&vec![bag]).unwrap();
    let bags = safe_contents_from_der(&der).unwrap();
    assert_eq!(bags.len(), 1);
    assert_eq!(bags[0].bag_id, vec![0x2a, 0x03]);
    assert_eq!(bags[0].bag_value, vec![0xa0, 0x02, 0x05, 0x00]);
    assert_eq!(bags[0].bag_attributes.as_ref().unwrap(), &attributes);
    assert_eq!(bags[0].to_der().unwrap(), &der[2..]);
    assert!(SafeBag::from_der(&der[2..]).is_ok());

    // Attributes and values may stand in any order, and twice.
    let attribute: Vec<u8> =
        vec![0x30, 0x0b, 0x06, 0x01, 0x2a, 0x31, 0x06, 0x05, 0x00, 0x02, 0x02, 0x01, 0x00];
    let mut attributes: Vec<u8> = vec![0x31, 0x1f];
    attributes.extend_from_slice(&attribute);
    attributes.extend_from_slice(&attribute);
    attributes.extend_from_slice(&[0x30, 0x03, 0x06, 0x01, 0x2a]);
    let with = |attributes: Vec<u8>| {
        let bag = SafeBag {
            bag_id: vec![0x2a],
            bag_value: vec![0xa0, 0x00],
            bag_attributes: Some(attributes),
        };
        SafeBag::from_der(&bag.to_der().unwrap())
    };
    // The last one has no values.
    assert!(with(attributes.clone()).is_err());
    attributes.truncate(28);
    attributes[1] = 0x1a;
    assert!(with(attributes.clone()).is_ok());
    attributes.extend_from_slice(&[0x30, 0x05, 0x06, 0x01, 0x2a, 0x31, 0x00]);
    attributes[1] = 0x21;
    assert!(with(attributes.clone()).is_ok());
    // A type that is no object identifier.
    attributes[32] = 0x78;
    assert_eq!(attributes[32 - 2], 0x06);
    assert!(with(attributes).is_err());

    // Attributes that are none.
    let bag = SafeBag {
        bag_id: vec![0x2a, 0x03],
        bag_value: vec![0xa0, 0x02, 0x05, 0x00],
        bag_attributes: Some(vec![0x31, 0x02, 0x05, 0x00]),
    };
    assert!(SafeBag::from_der(&bag.to_der().unwrap()).is_err());
    assert!(safe_contents_from_der(&safe_contents_to_der(&vec![bag]).unwrap()).is_err());
}

#[test]
fn no_bags_at_all() {
    let der = safe_contents_to_der(&vec![]).unwrap();
    assert_eq!(der, vec![0x30, 0x00]);
    assert!(safe_contents_from_der(&der).unwrap().is_empty());
    assert!(authenticated_safe_from_der(&der).unwrap().is_empty());
}

fn mac(iterations: i32) -> MacData {
    MacData {
        mac: DigestInfo {
            algorithm: AlgorithmIdentifier { oid: vec![0x2a], parameters: None },
            digest: vec![0xd1],
        },
        mac_salt: vec![0x5a],
        iterations,
    }
}

#[test]
fn mac_data_leaves_the_default_out() {
    let der = mac(1).to_der().unwrap();
    assert_eq!(
        der,
        vec![
            0x30, 0x0d, 0x30, 0x08, 0x30, 0x03, 0x06, 0x01, 0x2a, 0x04, 0x01, 0xd1, 0x04, 0x01,
            0x5a
        ]
    );
    assert_eq!(MacData::from_der(&der).unwrap().iterations, 1);
    // Written out, it is read too.
    let mut explicit = der.clone();
    explicit[1] += 3;
    explicit.extend_from_slice(&[0x02, 0x01, 0x01]);
    assert_eq!(MacData::from_der(&explicit).unwrap().iterations, 1);
    // But nothing may follow.
    explicit[1] += 2;
    explicit.extend_from_slice(&[0x05, 0x00]);
    assert!(MacData::from_der(&explicit).is_err());
}

#[test]
fn iteration_counts_of_every_size() {
    for (n, octets) in [
        (0i32, vec![0x02u8, 0x01, 0x00]),
        (127, vec![0x02, 0x01, 0x7f]),
        (128, vec![0x02, 0x02, 0x00, 0x80]),
        (2_048, vec![0x02, 0x02, 0x08, 0x00]),
        (100_000, vec![0x02, 0x03, 0x01, 0x86, 0xa0]),
        (i32::MAX, vec![0x02, 0x04, 0x7f, 0xff, 0xff, 0xff]),
        (-1, vec![0x02, 0x01, 0xff]),
        (-128, vec![0x02, 0x01, 0x80]),
        (-129, vec![0x02, 0x02, 0xff, 0x7f]),
        (-32_769, vec![0x02, 0x03, 0xff, 0x7f, 0xff]),
        (i32::MIN, vec![0x02, 0x04, 0x80, 0x00, 0x00, 0x00]),
    ] {
        let der = mac(n).to_der().unwrap();
        assert_eq!(&der[der.len() - octets.len()..], octets.as_slice());
        let back = MacData::from_der(&der).unwrap();
        assert_eq!(back.iterations, n);
        assert_eq!(back.mac.digest, vec![0xd1]);
        assert_eq!(back.mac_salt, vec![0x5a]);
    }
}

#[test]
fn pbe_parameters() {
    let params =
        Pkcs12PbeParams::from_der(&[0x30, 0x07, 0x04, 0x01, 0x09, 0x02, 0x02, 0x08, 0x00]).unwrap();
    assert_eq!(params.salt, vec![9]);
    assert_eq!(params.iterations, 2_048);
    // Five octets are too many, a leading zero is one too many, and the count is needed.
    for der in [
        vec![0x30u8, 0x0a, 0x04, 0x01, 0x09, 0x02, 0x05, 0x01, 0x00, 0x00, 0x00, 0x00],
        vec![0x30, 0x07, 0x04, 0x01, 0x09, 0x02, 0x02, 0x00, 0x01],
        vec![0x30, 0x03, 0x04, 0x01, 0x09],
    ] {
        assert!(Pkcs12PbeParams::from_der(&der).is_err());
    }
}

#[test]
fn archives_with_and_without_mac() {
    let info = || ContentInfo { content_type: vec![0x2a], content: vec![0x05, 0x00] };
    let bare = Pfx { version: Version::V3, auth_safe: info(), mac_data: None };
    let der = bare.to_der().unwrap();
    assert_eq!(
        der,
        vec![0x30, 0x0c, 0x02, 0x01, 0x03, 0x30, 0x07, 0x06, 0x01, 0x2a, 0xa0, 0x02, 0x05, 0x00]
    );
    assert!(Pfx::from_der(&der).unwrap().mac_data.is_none());
    let sealed = Pfx { version: Version::V3, auth_safe: info(), mac_data: Some(mac(3)) };
    let back = Pfx::from_der(&sealed.to_der().unwrap()).unwrap();
    assert_eq!(back.mac_data.unwrap().iterations, 3);
    assert_eq!(back.auth_safe.content_type, vec![0x2a]);
    assert_eq!(back.auth_safe.content, vec![0x05, 0x00]);
}

#[test]
fn authenticated_safe_keeps_the_order() {
    let infos = vec![
        ContentInfo { content_type: vec![0x2a], content: vec![0x05, 0x00] },
        // A tag number above 30, in two identifier octets.
        ContentInfo { content_type: vec![0x2b], content: vec![0xbf, 0x1f, 0x00] },
    ];
    let der = authenticated_safe_to_der(&infos).unwrap();
    let back = authenticated_safe_from_der(&der).unwrap();
    assert_eq!(back.len(), 2);
    assert_eq!(back[0].content_type, vec![0x2a]);
    assert_eq!(back[1].content_type, vec![0x2b]);
    assert_eq!(back[1].content, vec![0xbf, 0x1f, 0x00]);
    // A content of two elements is none.
    let bad = [
        0x30, 0x0b, 0x30, 0x09, 0x06, 0x01, 0x2a, 0xa0, 0x04, 0x05, 0x00, 0x05, 0x00,
    ];
    assert!(authenticated_safe_from_der(&bad).is_err());
}

#[test]
fn secrets_hold_what_they_are_given() {
    let bytes = SecretBytes::new(vec![1, 2, 3]);
    assert_eq!(bytes.as_slice(), &[1, 2, 3]);
    let text = SecretString::new("hunter2".to_string());
    assert_eq!(text.as_str(), "hunter2");
    // Nor are they told.
    assert!(!format!("{bytes:?} {text:?}").contains("hunter2"));
}
