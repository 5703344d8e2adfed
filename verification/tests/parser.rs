use cms::content_info::CmsVersion;
use cms::encrypted_data::EncryptedData;
use cms::enveloped_data::EncryptedContentInfo;
use der::asn1::OctetString;
use der::{Any, Decode, Encode};
use rand_core::Rng;

use pkcs12::builder::{EncryptionAlgorithm, MacAlgorithm, PfxBuilder, Randomness};
use pkcs12::cert_bag::CertBag;
use pkcs12::cms::{AlgorithmIdentifier, ContentInfo};
use pkcs12::mac_data::{DigestInfo, MacData};
use pkcs12::oid::{
    ID_DATA, ID_ENCRYPTED_DATA, ID_PBES2, ID_SHA_256, PKCS_12_CERT_BAG_OID, PKCS_12_KEY_BAG_OID,
    PKCS_12_PBE_WITH_SHAAND3_KEY_TRIPLE_DES_CBC, PKCS_12_PKCS8_KEY_BAG_OID, PKCS_12_X509_CERT_OID,
};
use pkcs12::parser::{
    decrypt_pbes2, decrypt_pkcs12_pbe_3des, decrypt_shrouded_key, mac_verdict, parse_pfx,
    verify_mac, Error, Gathered, Pkcs12Contents,
};
use pkcs12::pbes2::has_unknown_algorithm;
use pkcs12::pfx::{authenticated_safe_from_der, authenticated_safe_to_der, Pfx, Version};
use pkcs12::safe_bag::{safe_contents_to_der, SafeBag};
use pkcs12::secret::SecretBytes;

const PASSWORD: &str = "parser-test-password";
const ENC_ITERS: u32 = 1_000;
const MAC_ITERS: i32 = 1_000;

const CERT_DER: [u8; 405] = [
    0x30, 0x82, 0x01, 0x91, 0x30, 0x82, 0x01, 0x37, 0xa0, 0x03, 0x02, 0x01, 0x02, 0x02, 0x14, 0x11,
    0x32, 0x55, 0xf9, 0x48, 0xc0, 0x54, 0x6b, 0x98, 0x08, 0x95, 0x46, 0x12, 0x4c, 0x4d, 0x39, 0x42,
    0x2e, 0xc4, 0xa7, 0x30, 0x0a, 0x06, 0x08, 0x2a, 0x86, 0x48, 0xce, 0x3d, 0x04, 0x03, 0x02, 0x30,
    0x1d, 0x31, 0x1b, 0x30, 0x19, 0x06, 0x03, 0x55, 0x04, 0x03, 0x0c, 0x12, 0x45, 0x78, 0x61, 0x6d,
    0x70, 0x6c, 0x65, 0x20, 0x45, 0x6e, 0x64, 0x20, 0x45, 0x6e, 0x74, 0x69, 0x74, 0x79, 0x30, 0x20,
    0x17, 0x0d, 0x32, 0x36, 0x31, 0x31, 0x31, 0x36, 0x30, 0x30, 0x33, 0x32, 0x33, 0x32, 0x5a, 0x18,
    0x0f, 0x32, 0x31, 0x32, 0x36, 0x31, 0x30, 0x32, 0x33, 0x30, 0x30, 0x33, 0x32, 0x33, 0x32, 0x5a,
    0x30, 0x1d, 0x31, 0x1b, 0x30, 0x19, 0x06, 0x03, 0x55, 0x04, 0x03, 0x0c, 0x12, 0x45, 0x78, 0x61,
    0x6d, 0x70, 0x6c, 0x65, 0x20, 0x45, 0x6e, 0x64, 0x20, 0x45, 0x6e, 0x74, 0x69, 0x74, 0x79, 0x30,
    0x59, 0x30, 0x13, 0x06, 0x07, 0x2a, 0x86, 0x48, 0xce, 0x3d, 0x02, 0x01, 0x06, 0x08, 0x2a, 0x86,
    0x48, 0xce, 0x3d, 0x03, 0x01, 0x07, 0x03, 0x42, 0x00, 0x04, 0xc8, 0x8a, 0xf6, 0x87, 0x0a, 0xcb,
    0x68, 0xfd, 0x1c, 0xe5, 0xed, 0xb6, 0x0f, 0x3d, 0x20, 0x41, 0xb3, 0x33, 0xdf, 0x54, 0xa1, 0xc9,
    0x3f, 0x14, 0x8a, 0xb0, 0x5d, 0x65, 0xe3, 0x1c, 0xf8, 0x91, 0xaa, 0x88, 0x11, 0xee, 0x49, 0xcd,
    0xf1, 0xbc, 0x12, 0x7d, 0x1e, 0xd5, 0x69, 0xca, 0xd2, 0x0c, 0xb9, 0x29, 0xd2, 0x58, 0x4c, 0xec,
    0x39, 0xe3, 0x58, 0x39, 0x11, 0xf9, 0x3d, 0xbb, 0xaf, 0xcb, 0xa3, 0x53, 0x30, 0x51, 0x30, 0x1d,
    0x06, 0x03, 0x55, 0x1d, 0x0e, 0x04, 0x16, 0x04, 0x14, 0x25, 0x3e, 0xbc, 0x06, 0x00, 0x35, 0x7e,
    0xd9, 0xd2, 0xc6, 0xf2, 0x1e, 0x96, 0x90, 0x9c, 0x36, 0x0c, 0x2f, 0x9f, 0x48, 0x30, 0x1f, 0x06,
    0x03, 0x55, 0x1d, 0x23, 0x04, 0x18, 0x30, 0x16, 0x80, 0x14, 0x25, 0x3e, 0xbc, 0x06, 0x00, 0x35,
    0x7e, 0xd9, 0xd2, 0xc6, 0xf2, 0x1e, 0x96, 0x90, 0x9c, 0x36, 0x0c, 0x2f, 0x9f, 0x48, 0x30, 0x0f,
    0x06, 0x03, 0x55, 0x1d, 0x13, 0x01, 0x01, 0xff, 0x04, 0x05, 0x30, 0x03, 0x01, 0x01, 0xff, 0x30,
    0x0a, 0x06, 0x08, 0x2a, 0x86, 0x48, 0xce, 0x3d, 0x04, 0x03, 0x02, 0x03, 0x48, 0x00, 0x30, 0x45,
    0x02, 0x21, 0x00, 0x8f, 0xcd, 0x67, 0xc0, 0x41, 0xf6, 0xaa, 0xcd, 0x68, 0x57, 0xca, 0x39, 0x5e,
    0xce, 0xac, 0x3f, 0x20, 0x4a, 0x78, 0x67, 0x08, 0x62, 0x66, 0x74, 0xac, 0xff, 0x59, 0x88, 0x7c,
    0xe2, 0xbb, 0x9a, 0x02, 0x20, 0x1f, 0xb2, 0x0a, 0xe6, 0xc4, 0x35, 0x02, 0x92, 0x35, 0x45, 0x81,
    0x9d, 0xd0, 0xba, 0x39, 0x23, 0xb5, 0x78, 0x61, 0xf3, 0x64, 0xbd, 0xd1, 0x89, 0xfb, 0x95, 0x58,
    0x22, 0x3e, 0x10, 0xf2, 0xa3,
];

const CA_DER: [u8; 384] = [
    0x30, 0x82, 0x01, 0x7c, 0x30, 0x82, 0x01, 0x21, 0xa0, 0x03, 0x02, 0x01, 0x02, 0x02, 0x14, 0x0e,
    0x28, 0x0e, 0x9c, 0xee, 0x13, 0xd4, 0x0d, 0x44, 0x13, 0x98, 0x86, 0x8d, 0xc8, 0x57, 0xfd, 0xcd,
    0x88, 0xa4, 0x08, 0x30, 0x0a, 0x06, 0x08, 0x2a, 0x86, 0x48, 0xce, 0x3d, 0x04, 0x03, 0x02, 0x30,
    0x12, 0x31, 0x10, 0x30, 0x0e, 0x06, 0x03, 0x55, 0x04, 0x03, 0x0c, 0x07, 0x47, 0x6f, 0x6f, 0x64,
    0x20, 0x43, 0x41, 0x30, 0x20, 0x17, 0x0d, 0x32, 0x36, 0x31, 0x31, 0x31, 0x36, 0x30, 0x30, 0x33,
    0x32, 0x33, 0x32, 0x5a, 0x18, 0x0f, 0x32, 0x31, 0x32, 0x36, 0x31, 0x30, 0x32, 0x33, 0x30, 0x30,
    0x33, 0x32, 0x33, 0x32, 0x5a, 0x30, 0x12, 0x31, 0x10, 0x30, 0x0e, 0x06, 0x03, 0x55, 0x04, 0x03,
    0x0c, 0x07, 0x47, 0x6f, 0x6f, 0x64, 0x20, 0x43, 0x41, 0x30, 0x59, 0x30, 0x13, 0x06, 0x07, 0x2a,
    0x86, 0x48, 0xce, 0x3d, 0x02, 0x01, 0x06, 0x08, 0x2a, 0x86, 0x48, 0xce, 0x3d, 0x03, 0x01, 0x07,
    0x03, 0x42, 0x00, 0x04, 0x46, 0x09, 0x2e, 0xed, 0x0b, 0x6a, 0x1b, 0xe2, 0x1e, 0xe0, 0x49, 0xa4,
    0x2b, 0xf5, 0x88, 0x03, 0xce, 0x87, 0x30, 0x3d, 0xa6, 0xcd, 0x0e, 0x70, 0x8f, 0xb7, 0xca, 0xf6,
    0xef, 0x20, 0xa8, 0x5f, 0x62, 0xc8, 0xa2, 0xea, 0xb8, 0x33, 0x7d, 0x0f, 0x78, 0x41, 0x8f, 0xfe,
    0xa8, 0x5a, 0x6f, 0xbd, 0xde, 0x53, 0xd1, 0xd6, 0xcc, 0x8e, 0xcd, 0xfa, 0x58, 0x9f, 0x32, 0x0f,
    0x2e, 0xe0, 0x3d, 0x47, 0xa3, 0x53, 0x30, 0x51, 0x30, 0x1d, 0x06, 0x03, 0x55, 0x1d, 0x0e, 0x04,
    0x16, 0x04, 0x14, 0x9e, 0xc3, 0xce, 0xc5, 0xac, 0x5b, 0xef, 0xa7, 0x3c, 0x28, 0x18, 0x23, 0x2d,
    0xc5, 0xa0, 0xac, 0x18, 0x26, 0x92, 0x0b, 0x30, 0x1f, 0x06, 0x03, 0x55, 0x1d, 0x23, 0x04, 0x18,
    0x30, 0x16, 0x80, 0x14, 0x9e, 0xc3, 0xce, 0xc5, 0xac, 0x5b, 0xef, 0xa7, 0x3c, 0x28, 0x18, 0x23,
    0x2d, 0xc5, 0xa0, 0xac, 0x18, 0x26, 0x92, 0x0b, 0x30, 0x0f, 0x06, 0x03, 0x55, 0x1d, 0x13, 0x01,
    0x01, 0xff, 0x04, 0x05, 0x30, 0x03, 0x01, 0x01, 0xff, 0x30, 0x0a, 0x06, 0x08, 0x2a, 0x86, 0x48,
    0xce, 0x3d, 0x04, 0x03, 0x02, 0x03, 0x49, 0x00, 0x30, 0x46, 0x02, 0x21, 0x00, 0xb8, 0x6d, 0xe2,
    0xea, 0x37, 0x78, 0x95, 0x67, 0x6a, 0x73, 0x3b, 0x77, 0x5f, 0xc7, 0xcf, 0x8b, 0xb9, 0xfa, 0x97,
    0xbc, 0x5e, 0x54, 0x1f, 0xb5, 0xd3, 0x54, 0xc4, 0xf1, 0x16, 0x5f, 0x6b, 0xe4, 0x02, 0x21, 0x00,
    0x82, 0xb4, 0xcf, 0x38, 0xf3, 0x82, 0x9b, 0x61, 0x18, 0xa4, 0x04, 0x14, 0x98, 0xef, 0x05, 0xdb,
    0x51, 0x16, 0xeb, 0xec, 0x17, 0x38, 0x85, 0x5f, 0xa4, 0xe6, 0xe8, 0x1a, 0x11, 0xc4, 0x2b, 0x6e,
];

const KEY_DER: [u8; 138] = [
    0x30, 0x81, 0x87, 0x02, 0x01, 0x00, 0x30, 0x13, 0x06, 0x07, 0x2a, 0x86, 0x48, 0xce, 0x3d, 0x02,
    0x01, 0x06, 0x08, 0x2a, 0x86, 0x48, 0xce, 0x3d, 0x03, 0x01, 0x07, 0x04, 0x6d, 0x30, 0x6b, 0x02,
    0x01, 0x01, 0x04, 0x20, 0x2d, 0x46, 0xa4, 0x9a, 0xf0, 0xd3, 0x18, 0x87, 0x34, 0x08, 0xee, 0x0b,
    0x14, 0x2e, 0x4a, 0xca, 0x5e, 0xf7, 0x39, 0xd8, 0x06, 0x90, 0x22, 0x11, 0xce, 0xca, 0x62, 0x22,
    0x26, 0x37, 0xcd, 0x1c, 0xa1, 0x44, 0x03, 0x42, 0x00, 0x04, 0xc8, 0x8a, 0xf6, 0x87, 0x0a, 0xcb,
    0x68, 0xfd, 0x1c, 0xe5, 0xed, 0xb6, 0x0f, 0x3d, 0x20, 0x41, 0xb3, 0x33, 0xdf, 0x54, 0xa1, 0xc9,
    0x3f, 0x14, 0x8a, 0xb0, 0x5d, 0x65, 0xe3, 0x1c, 0xf8, 0x91, 0xaa, 0x88, 0x11, 0xee, 0x49, 0xcd,
    0xf1, 0xbc, 0x12, 0x7d, 0x1e, 0xd5, 0x69, 0xca, 0xd2, 0x0c, 0xb9, 0x29, 0xd2, 0x58, 0x4c, 0xec,
    0x39, 0xe3, 0x58, 0x39, 0x11, 0xf9, 0x3d, 0xbb, 0xaf, 0xcb,
];

/// Made by OpenSSL 3.5 with
/// `pkcs12 -export -macalg sha1 -certpbe pbeWithSHA1And3-KeyTripleDES-CBC
/// -keypbe AES-256-CBC -iter 2048 -maciter -passout pass:1234`.
const EXAMPLE14_PFX: [u8; 989] = [
    0x30, 0x82, 0x03, 0xd9, 0x02, 0x01, 0x03, 0x30, 0x82, 0x03, 0x9f, 0x06, 0x09, 0x2a, 0x86, 0x48,
    0x86, 0xf7, 0x0d, 0x01, 0x07, 0x01, 0xa0, 0x82, 0x03, 0x90, 0x04, 0x82, 0x03, 0x8c, 0x30, 0x82,
    0x03, 0x88, 0x30, 0x82, 0x02, 0x37, 0x06, 0x09, 0x2a, 0x86, 0x48, 0x86, 0xf7, 0x0d, 0x01, 0x07,
    0x06, 0xa0, 0x82, 0x02, 0x28, 0x30, 0x82, 0x02, 0x24, 0x02, 0x01, 0x00, 0x30, 0x82, 0x02, 0x1d,
    0x06, 0x09, 0x2a, 0x86, 0x48, 0x86, 0xf7, 0x0d, 0x01, 0x07, 0x01, 0x30, 0x1c, 0x06, 0x0a, 0x2a,
    0x86, 0x48, 0x86, 0xf7, 0x0d, 0x01, 0x0c, 0x01, 0x03, 0x30, 0x0e, 0x04, 0x08, 0xcd, 0xf2, 0x85,
    0xcb, 0xf0, 0xfe, 0x4c, 0xc1, 0x02, 0x02, 0x08, 0x00, 0x80, 0x82, 0x01, 0xf0, 0x1e, 0xe3, 0x0a,
    0xc1, 0x1e, 0xd5, 0xca, 0xd0, 0x4c, 0xbb, 0x26, 0xed, 0x4e, 0x6c, 0x0f, 0x4a, 0x51, 0xfa, 0xd8,
    0x0a, 0x71, 0x35, 0x0d, 0xca, 0x07, 0x38, 0xf9, 0x99, 0xa8, 0x8c, 0x38, 0xd2, 0x74, 0xf1, 0xf1,
    0x21, 0xbd, 0x7f, 0x6a, 0x9f, 0xbc, 0xcd, 0x97, 0x1f, 0xf3, 0x02, 0x81, 0x8b, 0x03, 0x9b, 0x9f,
    0xfb, 0x28, 0x5e, 0xfc, 0xd1, 0xbe, 0x9f, 0x09, 0x47, 0x8f, 0xe5, 0xd5, 0xf4, 0xe6, 0xec, 0xb1,
    0x51, 0x4d, 0x0d, 0x5f, 0x1e, 0x0c, 0xfd, 0xd7, 0x6b, 0x50, 0x15, 0x05, 0x6d, 0x5f, 0x05, 0xce,
    0x60, 0x4d, 0xa5, 0xc0, 0x99, 0x1a, 0xb1, 0x03, 0xad, 0xfd, 0xaf, 0x5b, 0xfa, 0x5a, 0x6a, 0xf0,
    0x27, 0xe8, 0x79, 0xe9, 0x0e, 0xa1, 0x95, 0x08, 0xfe, 0xf3, 0x49, 0x5f, 0x10, 0xb3, 0xa2, 0x19,
    0xec, 0xc5, 0xae, 0x83, 0xdb, 0xbf, 0xa1, 0xb3, 0xde, 0xd5, 0x1e, 0x56, 0xb9, 0x2d, 0x0b, 0xb3,
    0xb6, 0x4e, 0x35, 0x87, 0x7d, 0xd6, 0xa9, 0x70, 0xbb, 0x86, 0xc3, 0x85, 0x12, 0xb7, 0xae, 0xe6,
    0x15, 0x4f, 0xa9, 0x1f, 0xc6, 0xb7, 0x4e, 0x60, 0x71, 0x8b, 0x89, 0xbc, 0xf1, 0xc7, 0xb8, 0x7b,
    0xea, 0x87, 0x69, 0x74, 0xca, 0x59, 0xbe, 0x95, 0x98, 0x91, 0x01, 0x5b, 0xd2, 0xe8, 0xf2, 0xb7,
    0xd0, 0x68, 0xd2, 0xb5, 0xca, 0xe2, 0xd8, 0x03, 0x64, 0x85, 0x1d, 0x05, 0x62, 0x42, 0xa4, 0xe7,
    0xbf, 0xe8, 0x43, 0xda, 0xfa, 0xdc, 0x70, 0x6f, 0x7b, 0xd0, 0xda, 0xce, 0x17, 0x8f, 0x86, 0xac,
    0x64, 0x20, 0x94, 0xfb, 0x71, 0x34, 0x27, 0xe7, 0xd1, 0x9c, 0x72, 0x52, 0x85, 0xe6, 0x16, 0x1b,
    0x4b, 0x16, 0x68, 0xe5, 0xb5, 0x74, 0xb5, 0x36, 0x17, 0x1c, 0xbc, 0x1d, 0xf6, 0xf4, 0x45, 0x0f,
    0x4a, 0xc5, 0x13, 0x19, 0x8d, 0xd8, 0xe0, 0x6e, 0x28, 0xe3, 0xaa, 0xf8, 0x53, 0x50, 0xf0, 0xdb,
    0x6b, 0x1e, 0xd4, 0xcb, 0x7a, 0x33, 0xc2, 0x46, 0x03, 0x58, 0x48, 0xff, 0xc2, 0x71, 0xa9, 0x43,
    0x2c, 0x6a, 0x7e, 0x8d, 0x31, 0xf9, 0x04, 0xb3, 0x45, 0x96, 0x57, 0xa0, 0x3c, 0x5e, 0x62, 0x84,
    0x8a, 0xb7, 0xc3, 0xa1, 0x34, 0x64, 0xab, 0x6f, 0x89, 0x5c, 0x59, 0xac, 0x2e, 0xf8, 0xf9, 0x6a,
    0x54, 0x22, 0x7b, 0x0f, 0xe4, 0x72, 0xe5, 0x23, 0xf6, 0x58, 0xee, 0x89, 0xdd, 0x61, 0x01, 0xf7,
    0x48, 0x30, 0xab, 0xa9, 0xe5, 0x43, 0x5d, 0x06, 0xe9, 0xa7, 0xc5, 0xd1, 0x4a, 0xbf, 0xcf, 0x73,
    0xf5, 0x94, 0x56, 0xb9, 0xb2, 0x42, 0xcb, 0x65, 0x6e, 0x1d, 0x06, 0x1a, 0xa9, 0x79, 0x5b, 0xec,
    0x9c, 0x5a, 0xfd, 0xd1, 0xea, 0x24, 0x40, 0x32, 0xac, 0xb6, 0x18, 0xe6, 0xc7, 0x6a, 0x2e, 0x46,
    0x25, 0x31, 0x9b, 0x33, 0xeb, 0x42, 0x3e, 0x15, 0x4b, 0xf9, 0xac, 0xff, 0xc3, 0xc1, 0xc0, 0x5b,
    0xa2, 0x7f, 0x90, 0x3e, 0x7d, 0x78, 0xfe, 0x7b, 0x67, 0x84, 0x77, 0x97, 0x80, 0xfe, 0x02, 0xca,
    0x2d, 0x8e, 0xca, 0xb8, 0x3a, 0xdf, 0x1c, 0x8d, 0x5b, 0x90, 0xd7, 0xd9, 0x6c, 0xd2, 0xec, 0x7a,
    0x68, 0x7a, 0x79, 0x15, 0xec, 0xcc, 0xe4, 0xc9, 0x09, 0xca, 0x97, 0x3e, 0x76, 0x23, 0xd9, 0xea,
    0x37, 0x8c, 0x90, 0xd7, 0xda, 0x07, 0xc1, 0xee, 0x28, 0x9f, 0x20, 0xdd, 0x82, 0x83, 0xb0, 0x18,
    0x89, 0xf2, 0x2c, 0x61, 0x45, 0xe1, 0x77, 0x16, 0xe5, 0x9f, 0xff, 0x0b, 0x6f, 0x82, 0xf6, 0xf4,
    0x35, 0xfe, 0xc5, 0xb1, 0x14, 0x4e, 0x54, 0x7f, 0x70, 0x30, 0x03, 0x03, 0x14, 0x3d, 0x77, 0x62,
    0x77, 0xcd, 0xcf, 0xa9, 0x0c, 0xad, 0xc3, 0xdf, 0x6d, 0x62, 0x92, 0xce, 0x62, 0x30, 0x82, 0x01,
    0x49, 0x06, 0x09, 0x2a, 0x86, 0x48, 0x86, 0xf7, 0x0d, 0x01, 0x07, 0x01, 0xa0, 0x82, 0x01, 0x3a,
    0x04, 0x82, 0x01, 0x36, 0x30, 0x82, 0x01, 0x32, 0x30, 0x82, 0x01, 0x2e, 0x06, 0x0b, 0x2a, 0x86,
    0x48, 0x86, 0xf7, 0x0d, 0x01, 0x0c, 0x0a, 0x01, 0x02, 0xa0, 0x81, 0xf7, 0x30, 0x81, 0xf4, 0x30,
    0x5f, 0x06, 0x09, 0x2a, 0x86, 0x48, 0x86, 0xf7, 0x0d, 0x01, 0x05, 0x0d, 0x30, 0x52, 0x30, 0x31,
    0x06, 0x09, 0x2a, 0x86, 0x48, 0x86, 0xf7, 0x0d, 0x01, 0x05, 0x0c, 0x30, 0x24, 0x04, 0x10, 0x14,
    0xf3, 0xca, 0xb3, 0x2e, 0xd4, 0xbc, 0xbe, 0x36, 0xfa, 0x6c, 0xcd, 0x75, 0xaa, 0xb8, 0x0a, 0x02,
    0x02, 0x08, 0x00, 0x30, 0x0c, 0x06, 0x08, 0x2a, 0x86, 0x48, 0x86, 0xf7, 0x0d, 0x02, 0x09, 0x05,
    0x00, 0x30, 0x1d, 0x06, 0x09, 0x60, 0x86, 0x48, 0x01, 0x65, 0x03, 0x04, 0x01, 0x2a, 0x04, 0x10,
    0x11, 0x82, 0x51, 0xa3, 0x70, 0x46, 0x27, 0x12, 0x70, 0xfd, 0xdf, 0x10, 0xce, 0x80, 0x74, 0xde,
    0x04, 0x81, 0x90, 0x46, 0x1d, 0x7d, 0x13, 0xe5, 0x8a, 0xfb, 0xf8, 0x52, 0x1f, 0xe9, 0x02, 0x50,
    0x16, 0xd3, 0x52, 0xfe, 0x2c, 0x3c, 0xc9, 0x43, 0x0d, 0xa6, 0xfa, 0x4f, 0x9a, 0xb9, 0x24, 0x33,
    0xe9, 0x3d, 0x02, 0xd5, 0x7f, 0x9a, 0xc0, 0xb2, 0xc9, 0x2e, 0xa7, 0x1c, 0x3d, 0xe0, 0xa5, 0x6b,
    0xb4, 0xd9, 0x65, 0x78, 0x1c, 0x57, 0x3f, 0x34, 0xfc, 0x99, 0xc4, 0x4a, 0xf6, 0xe9, 0x88, 0x8a,
    0xce, 0x03, 0x01, 0x35, 0x8a, 0x3c, 0x5b, 0x82, 0xba, 0xe7, 0xef, 0x5c, 0xff, 0x9b, 0x80, 0x20,
    0x50, 0xa7, 0x6b, 0x4e, 0x1a, 0xf1, 0xad, 0x36, 0x86, 0x18, 0x75, 0x2c, 0x19, 0x86, 0xe7, 0x2f,
    0x41, 0xcf, 0x82, 0xdd, 0x44, 0xc9, 0x8a, 0x5f, 0x84, 0x5f, 0x5f, 0x87, 0xfd, 0xd7, 0x83, 0x70,
    0x2f, 0x0a, 0x4b, 0xc7, 0x7b, 0x17, 0xa3, 0x0a, 0x15, 0x7c, 0x56, 0xc1, 0xbc, 0x5a, 0xff, 0x95,
    0x69, 0xaa, 0xef, 0x61, 0x53, 0x12, 0x25, 0x93, 0x4e, 0x46, 0x5c, 0x1c, 0x04, 0x3c, 0xe7, 0x3c,
    0x3b, 0xd4, 0x6e, 0x31, 0x25, 0x30, 0x23, 0x06, 0x09, 0x2a, 0x86, 0x48, 0x86, 0xf7, 0x0d, 0x01,
    0x09, 0x15, 0x31, 0x16, 0x04, 0x14, 0x02, 0x76, 0xa6, 0x99, 0x82, 0x92, 0xae, 0xdb, 0x32, 0xca,
    0x74, 0x39, 0x15, 0x87, 0x3d, 0x05, 0xc3, 0xee, 0x92, 0x6a, 0x30, 0x31, 0x30, 0x21, 0x30, 0x09,
    0x06, 0x05, 0x2b, 0x0e, 0x03, 0x02, 0x1a, 0x05, 0x00, 0x04, 0x14, 0xd6, 0xae, 0x2c, 0x21, 0x83,
    0x77, 0xc7, 0xa9, 0x09, 0xa5, 0xf3, 0x34, 0x24, 0xdc, 0x9c, 0xa8, 0x94, 0x82, 0x15, 0x33, 0x04,
    0x08, 0x62, 0x26, 0xbd, 0x47, 0xe4, 0x81, 0x6b, 0xa9, 0x02, 0x02, 0x08, 0x00,
];

/// Made by OpenSSL 3.5 with
/// `pkcs12 -export -macalg sha1 -certpbe AES-192-CBC -keypbe AES-256-CBC
/// -passout pass:1234`.
const EXAMPLE4_PFX: [u8; 1056] = [
    0x30, 0x82, 0x04, 0x1c, 0x02, 0x01, 0x03, 0x30, 0x82, 0x03, 0xe2, 0x06, 0x09, 0x2a, 0x86, 0x48,
    0x86, 0xf7, 0x0d, 0x01, 0x07, 0x01, 0xa0, 0x82, 0x03, 0xd3, 0x04, 0x82, 0x03, 0xcf, 0x30, 0x82,
    0x03, 0xcb, 0x30, 0x82, 0x02, 0x7a, 0x06, 0x09, 0x2a, 0x86, 0x48, 0x86, 0xf7, 0x0d, 0x01, 0x07,
    0x06, 0xa0, 0x82, 0x02, 0x6b, 0x30, 0x82, 0x02, 0x67, 0x02, 0x01, 0x00, 0x30, 0x82, 0x02, 0x60,
    0x06, 0x09, 0x2a, 0x86, 0x48, 0x86, 0xf7, 0x0d, 0x01, 0x07, 0x01, 0x30, 0x5f, 0x06, 0x09, 0x2a,
    0x86, 0x48, 0x86, 0xf7, 0x0d, 0x01, 0x05, 0x0d, 0x30, 0x52, 0x30, 0x31, 0x06, 0x09, 0x2a, 0x86,
    0x48, 0x86, 0xf7, 0x0d, 0x01, 0x05, 0x0c, 0x30, 0x24, 0x04, 0x10, 0xc6, 0x34, 0x73, 0xbe, 0xfe,
    0x9d, 0x0f, 0x6b, 0x6b, 0x54, 0x03, 0x62, 0xa8, 0xcf, 0x6a, 0x55, 0x02, 0x02, 0x08, 0x00, 0x30,
    0x0c, 0x06, 0x08, 0x2a, 0x86, 0x48, 0x86, 0xf7, 0x0d, 0x02, 0x09, 0x05, 0x00, 0x30, 0x1d, 0x06,
    0x09, 0x60, 0x86, 0x48, 0x01, 0x65, 0x03, 0x04, 0x01, 0x16, 0x04, 0x10, 0x0e, 0xdf, 0x7b, 0x21,
    0x96, 0x94, 0x4e, 0x21, 0x06, 0x45, 0x1e, 0xe1, 0xce, 0xdf, 0x7e, 0xc7, 0x80, 0x82, 0x01, 0xf0,
    0x58, 0x8d, 0x3b, 0x6d, 0x02, 0x0c, 0x8c, 0x00, 0xed, 0xf2, 0xd6, 0xc1, 0x78, 0x5d, 0x70, 0xfb,
    0x08, 0xd1, 0xb2, 0x76, 0xbf, 0xe8, 0xde, 0xbd, 0xbc, 0xfe, 0xfd, 0xd5, 0xcb, 0xf1, 0xe9, 0x40,
    0xf2, 0xd4, 0x8d, 0x14, 0xe5, 0x28, 0x30, 0x96, 0xd3, 0xd3, 0x32, 0x48, 0xfe, 0xea, 0x9b, 0x77,
    0x11, 0x6d, 0xff, 0xe9, 0xc9, 0x15, 0x16, 0xc0, 0x65, 0x19, 0x68, 0x06, 0x12, 0xd3, 0x79, 0xc8,
    0x8b, 0x89, 0xde, 0x77, 0xb1, 0x3b, 0x35, 0x74, 0x90, 0x65, 0x69, 0xd4, 0xde, 0xe6, 0xa5, 0x2b,
    0x1b, 0xcd, 0xfc, 0x05, 0xf4, 0xed, 0x0c, 0x27, 0xba, 0x22, 0xf6, 0x97, 0xb4, 0xaf, 0x9b, 0xe9,
    0xe7, 0xe6, 0x4f, 0x20, 0x6b, 0xeb, 0x19, 0xeb, 0x1f, 0xf7, 0x70, 0x9f, 0x1d, 0xeb, 0x25, 0x29,
    0xe5, 0x6c, 0x91, 0x1e, 0x99, 0x04, 0x13, 0xe7, 0xaf, 0x24, 0xeb, 0xbf, 0x6f, 0x29, 0x7d, 0x65,
    0xf7, 0xf0, 0x0b, 0xac, 0xf4, 0x92, 0xfb, 0xa7, 0x3d, 0x26, 0xd1, 0x20, 0x06, 0x8d, 0xc3, 0x0c,
    0x6c, 0x6c, 0xfb, 0x89, 0x5f, 0xe2, 0xed, 0x5b, 0xea, 0xea, 0xd8, 0xf1, 0x95, 0xff, 0x7f, 0x8d,
    0x55, 0xf2, 0x54, 0x1c, 0x38, 0x28, 0x7c, 0x99, 0xa1, 0x1c, 0xfb, 0x9a, 0x4c, 0x22, 0x15, 0xb2,
    0x63, 0xe9, 0xec, 0x11, 0xaf, 0xb5, 0xf8, 0x2e, 0x92, 0xe3, 0x91, 0x15, 0x36, 0x3c, 0x28, 0x2c,
    0x97, 0x12, 0x33, 0xf1, 0x33, 0xa8, 0x35, 0x1a, 0x13, 0x44, 0xea, 0xfb, 0x87, 0xed, 0x99, 0x7c,
    0xa8, 0x4d, 0xf8, 0xd2, 0x9d, 0x47, 0xac, 0xce, 0x2e, 0xb1, 0x4a, 0x56, 0xce, 0x03, 0xac, 0x7a,
    0xd0, 0xca, 0x6e, 0xaa, 0xd9, 0xf7, 0xe1, 0x43, 0x47, 0xa6, 0x8a, 0x11, 0x1b, 0xb9, 0x39, 0x31,
    0xaa, 0xe0, 0x75, 0x1d, 0x8a, 0x47, 0x61, 0xef, 0x35, 0x31, 0xd1, 0xe1, 0x8e, 0x03, 0xe0, 0xa1,
    0x70, 0x2a, 0xe4, 0xd1, 0xf4, 0x71, 0xe3, 0x68, 0xf5, 0x44, 0xef, 0x63, 0xbb, 0xb2, 0x40, 0xc6,
    0xd8, 0xe6, 0x23, 0x35, 0xcd, 0x7e, 0x71, 0xdd, 0x9e, 0x1a, 0x2f, 0xd1, 0xff, 0x6d, 0x87, 0x5f,
    0x74, 0xcd, 0x79, 0x57, 0x44, 0xa8, 0x36, 0x4f, 0xb2, 0x59, 0x50, 0x2f, 0xc4, 0x2a, 0xc5, 0xf5,
    0xa6, 0xad, 0xd5, 0xb9, 0x95, 0xfe, 0x03, 0xbe, 0xca, 0xdd, 0x5d, 0x10, 0x7f, 0xce, 0x6e, 0x45,
    0x04, 0xd8, 0x3e, 0x8a, 0x78, 0xb7, 0xc3, 0xcf, 0xfc, 0x5f, 0xe6, 0xf5, 0xb1, 0x15, 0x5a, 0x85,
    0xd5, 0xe1, 0x48, 0x8d, 0x9e, 0x65, 0x35, 0x53, 0xec, 0x88, 0x02, 0xd2, 0x5b, 0x76, 0x2d, 0xb3,
    0x89, 0x19, 0x7d, 0xed, 0x65, 0x48, 0xaa, 0xd4, 0x66, 0x37, 0xc0, 0xf2, 0x41, 0x19, 0x6f, 0x0c,
    0xe8, 0xde, 0xb7, 0x4f, 0x1c, 0x7b, 0x58, 0x0f, 0x3f, 0x26, 0xfc, 0x17, 0xd4, 0xeb, 0x6f, 0xc9,
    0x51, 0xce, 0xf8, 0x41, 0x76, 0x6c, 0x9b, 0x27, 0xff, 0x49, 0x9c, 0x86, 0x1d, 0x86, 0xa1, 0x13,
    0x75, 0x6e, 0x70, 0x41, 0x63, 0x76, 0x4e, 0x5f, 0x9e, 0x35, 0x1d, 0x7f, 0x19, 0x75, 0x90, 0x4b,
    0x96, 0x53, 0xd5, 0x80, 0xd4, 0x1b, 0x6d, 0x03, 0x65, 0x7f, 0xa1, 0x9f, 0xea, 0x6d, 0xaa, 0x16,
    0xb5, 0xfc, 0x76, 0xed, 0x20, 0xa2, 0x5a, 0x18, 0xf5, 0x44, 0xd2, 0x44, 0x2f, 0xfd, 0xc6, 0x44,
    0x89, 0x47, 0xa7, 0xe9, 0x7d, 0x10, 0x65, 0x0f, 0x61, 0x37, 0xc3, 0x4a, 0x63, 0x34, 0x7d, 0x8f,
    0x7c, 0x2e, 0x50, 0x7c, 0x34, 0x73, 0x9e, 0x66, 0x1c, 0xed, 0x35, 0x37, 0xc8, 0xf8, 0x95, 0x8e,
    0xee, 0x81, 0xfc, 0xae, 0x77, 0x4a, 0x55, 0x8c, 0x50, 0xa0, 0x73, 0x9e, 0xce, 0xf5, 0xfc, 0x73,
    0x30, 0x82, 0x01, 0x49, 0x06, 0x09, 0x2a, 0x86, 0x48, 0x86, 0xf7, 0x0d, 0x01, 0x07, 0x01, 0xa0,
    0x82, 0x01, 0x3a, 0x04, 0x82, 0x01, 0x36, 0x30, 0x82, 0x01, 0x32, 0x30, 0x82, 0x01, 0x2e, 0x06,
    0x0b, 0x2a, 0x86, 0x48, 0x86, 0xf7, 0x0d, 0x01, 0x0c, 0x0a, 0x01, 0x02, 0xa0, 0x81, 0xf7, 0x30,
    0x81, 0xf4, 0x30, 0x5f, 0x06, 0x09, 0x2a, 0x86, 0x48, 0x86, 0xf7, 0x0d, 0x01, 0x05, 0x0d, 0x30,
    0x52, 0x30, 0x31, 0x06, 0x09, 0x2a, 0x86, 0x48, 0x86, 0xf7, 0x0d, 0x01, 0x05, 0x0c, 0x30, 0x24,
    0x04, 0x10, 0x58, 0x9f, 0x6b, 0x8d, 0x32, 0x67, 0x44, 0x75, 0x61, 0xa5, 0xb9, 0xf1, 0x3c, 0x5f,
    0xfb, 0x2b, 0x02, 0x02, 0x08, 0x00, 0x30, 0x0c, 0x06, 0x08, 0x2a, 0x86, 0x48, 0x86, 0xf7, 0x0d,
    0x02, 0x09, 0x05, 0x00, 0x30, 0x1d, 0x06, 0x09, 0x60, 0x86, 0x48, 0x01, 0x65, 0x03, 0x04, 0x01,
    0x2a, 0x04, 0x10, 0x03, 0xd6, 0xce, 0xd7, 0x97, 0xa7, 0x75, 0xaf, 0xf0, 0xf8, 0x21, 0x42, 0xb3,
    0x7f, 0xd7, 0x2c, 0x04, 0x81, 0x90, 0x68, 0xd3, 0xfd, 0x9a, 0xe9, 0x38, 0xb3, 0x83, 0x48, 0x71,
    0x63, 0xa9, 0x44, 0x03, 0x2e, 0x1f, 0xc7, 0x5a, 0x17, 0x4e, 0x48, 0xd7, 0xb9, 0x65, 0x24, 0x25,
    0x6a, 0xeb, 0xb3, 0xd6, 0x38, 0x6b, 0xf5, 0x91, 0x0f, 0x56, 0x6b, 0x6f, 0xb6, 0x1e, 0x2a, 0xe8,
    0xac, 0xdd, 0xdf, 0xf2, 0x09, 0x02, 0xcc, 0xd6, 0x7c, 0xf3, 0x7e, 0xef, 0x84, 0x58, 0x69, 0x8c,
    0xd5, 0x5f, 0x50, 0xea, 0x1a, 0x3f, 0x0f, 0xf2, 0x35, 0x88, 0x44, 0xa4, 0xda, 0xe2, 0x24, 0x84,
    0x8a, 0xcc, 0xa6, 0x33, 0x60, 0x30, 0x11, 0x0b, 0xd1, 0xf5, 0x9c, 0xa4, 0xf4, 0x7a, 0xa4, 0x73,
    0x9e, 0xd2, 0x69, 0x2f, 0x49, 0x7a, 0x94, 0x64, 0xc5, 0xec, 0x0a, 0xb5, 0x55, 0x09, 0x71, 0x88,
    0xed, 0x83, 0x08, 0xba, 0xe4, 0x14, 0xe5, 0x58, 0x7b, 0x08, 0xfe, 0x32, 0xac, 0x08, 0xf3, 0x50,
    0x1a, 0xc4, 0x8e, 0x8e, 0x8f, 0x67, 0xc8, 0xbe, 0xe5, 0x87, 0xfa, 0x9c, 0x60, 0x24, 0x92, 0xa2,
    0x6c, 0xc2, 0x41, 0xda, 0x74, 0xd7, 0x31, 0x25, 0x30, 0x23, 0x06, 0x09, 0x2a, 0x86, 0x48, 0x86,
    0xf7, 0x0d, 0x01, 0x09, 0x15, 0x31, 0x16, 0x04, 0x14, 0x02, 0x76, 0xa6, 0x99, 0x82, 0x92, 0xae,
    0xdb, 0x32, 0xca, 0x74, 0x39, 0x15, 0x87, 0x3d, 0x05, 0xc3, 0xee, 0x92, 0x6a, 0x30, 0x31, 0x30,
    0x21, 0x30, 0x09, 0x06, 0x05, 0x2b, 0x0e, 0x03, 0x02, 0x1a, 0x05, 0x00, 0x04, 0x14, 0x54, 0x27,
    0x0d, 0xed, 0x82, 0xf8, 0x39, 0xa4, 0x79, 0x70, 0xc5, 0xa5, 0xd0, 0x6f, 0x88, 0xe3, 0xfb, 0x78,
    0xbd, 0x5a, 0x04, 0x08, 0x45, 0x0d, 0xb5, 0xf5, 0xec, 0x66, 0xf5, 0x84, 0x02, 0x02, 0x08, 0x00,
];

/// Made by OpenSSL 3.5 with
/// `pkcs12 -export -macalg sha1 -certpbe PBE-SHA1-3DES -keypbe PBE-SHA1-3DES
/// -iter 2048 -passout pass:1234`.
const LEGACY_PFX: [u8; 918] = [
    0x30, 0x82, 0x03, 0x92, 0x02, 0x01, 0x03, 0x30, 0x82, 0x03, 0x58, 0x06, 0x09, 0x2a, 0x86, 0x48,
    0x86, 0xf7, 0x0d, 0x01, 0x07, 0x01, 0xa0, 0x82, 0x03, 0x49, 0x04, 0x82, 0x03, 0x45, 0x30, 0x82,
    0x03, 0x41, 0x30, 0x82, 0x02, 0x37, 0x06, 0x09, 0x2a, 0x86, 0x48, 0x86, 0xf7, 0x0d, 0x01, 0x07,
    0x06, 0xa0, 0x82, 0x02, 0x28, 0x30, 0x82, 0x02, 0x24, 0x02, 0x01, 0x00, 0x30, 0x82, 0x02, 0x1d,
    0x06, 0x09, 0x2a, 0x86, 0x48, 0x86, 0xf7, 0x0d, 0x01, 0x07, 0x01, 0x30, 0x1c, 0x06, 0x0a, 0x2a,
    0x86, 0x48, 0x86, 0xf7, 0x0d, 0x01, 0x0c, 0x01, 0x03, 0x30, 0x0e, 0x04, 0x08, 0x19, 0xf2, 0x14,
    0x9c, 0xbd, 0x1e, 0xb7, 0xf4, 0x02, 0x02, 0x08, 0x00, 0x80, 0x82, 0x01, 0xf0, 0x20, 0x4f, 0x80,
    0x1a, 0x60, 0x19, 0x7d, 0xa7, 0x96, 0xc2, 0xcd, 0x52, 0xf3, 0x14, 0x99, 0xe0, 0x95, 0xaa, 0x11,
    0x5f, 0x4d, 0x05, 0xc5, 0xf1, 0x1e, 0xf6, 0x76, 0xb0, 0x3d, 0x92, 0x13, 0x46, 0x3c, 0xab, 0xb5,
    0x88, 0x5f, 0xb7, 0x52, 0xe8, 0x49, 0x3a, 0xd3, 0x08, 0xdd, 0x9c, 0x23, 0x5b, 0x33, 0xc8, 0x80,
    0x89, 0xd1, 0x92, 0x30, 0x67, 0x78, 0xee, 0x40, 0xeb, 0x07, 0x39, 0xc0, 0xfe, 0xb1, 0x05, 0x14,
    0xc1, 0x26, 0x44, 0x7a, 0xa5, 0x1b, 0x2d, 0x58, 0xea, 0x33, 0x8a, 0x37, 0x54, 0xd4, 0x49, 0x69,
    0x61, 0x75, 0xe1, 0x60, 0xcb, 0x78, 0x83, 0x91, 0x98, 0x67, 0x59, 0x24, 0xf5, 0x57, 0x03, 0x43,
    0x23, 0x56, 0xf9, 0x7d, 0x04, 0x7c, 0x1f, 0xdf, 0x1c, 0xab, 0xea, 0x7a, 0x21, 0x7c, 0xf4, 0x9f,
    0xb6, 0x76, 0x1e, 0xc1, 0x52, 0x23, 0x16, 0xe6, 0x7e, 0x7f, 0xa8, 0x49, 0x8b, 0x95, 0x6d, 0x63,
    0xae, 0x01, 0x9b, 0xd0, 0xaa, 0xd1, 0xaf, 0x25, 0xc6, 0x5e, 0xf1, 0x3e, 0x57, 0x16, 0x3b, 0x8e,
    0xd7, 0x3c, 0x50, 0x89, 0xd8, 0xa1, 0xc7, 0x3c, 0x2f, 0xff, 0x8c, 0x06, 0xa0, 0xd7, 0xbb, 0xcd,
    0x9d, 0x9e, 0x65, 0xef, 0x39, 0x34, 0x85, 0xd2, 0x40, 0x97, 0x31, 0xb9, 0x7c, 0x10, 0xd7, 0xbc,
    0xaf, 0xc4, 0x16, 0xaa, 0x04, 0xa2, 0xa4, 0x61, 0x63, 0x88, 0x5a, 0x21, 0xa6, 0x85, 0xd5, 0x7f,
    0x7b, 0x62, 0xb2, 0xb7, 0x76, 0x5e, 0xd1, 0x4c, 0xa7, 0x02, 0x13, 0x7b, 0x16, 0xbd, 0xbf, 0x5c,
    0x3a, 0x5c, 0x67, 0xa5, 0x54, 0x73, 0x56, 0x44, 0x35, 0xd4, 0x5e, 0xca, 0x95, 0x4c, 0xea, 0xea,
    0x20, 0x42, 0x4f, 0x16, 0x38, 0x4c, 0x33, 0xc0, 0xf5, 0xc7, 0xfa, 0xea, 0x37, 0xbe, 0xbb, 0xcc,
    0xc5, 0xc1, 0x81, 0x63, 0x9c, 0x47, 0x76, 0x7e, 0x9e, 0x4b, 0x21, 0x11, 0xfd, 0x41, 0x6d, 0x93,
    0xd7, 0xdb, 0xcf, 0x91, 0x1a, 0x18, 0xe8, 0xec, 0x1c, 0xa7, 0x92, 0xe5, 0xf3, 0x60, 0xfa, 0xc6,
    0x33, 0xfe, 0x14, 0x83, 0x5a, 0x14, 0xa8, 0x1f, 0x41, 0x8e, 0x68, 0xce, 0x3b, 0x27, 0x98, 0x52,
    0xc0, 0x66, 0xcf, 0xee, 0xa3, 0xae, 0xa8, 0xfa, 0x50, 0xde, 0xed, 0xf1, 0x09, 0x5e, 0x49, 0x69,
    0xcc, 0x8b, 0x52, 0xe5, 0xee, 0xb7, 0x2c, 0xd6, 0xb2, 0x9d, 0x74, 0x75, 0x56, 0x32, 0x9f, 0x19,
    0xb5, 0xc8, 0x28, 0x29, 0x8d, 0x75, 0x18, 0x61, 0xdf, 0x85, 0x8f, 0x38, 0x31, 0x20, 0xcf, 0x92,
    0x0a, 0xfa, 0x89, 0x11, 0x14, 0xe6, 0x4a, 0x80, 0xd8, 0xb7, 0x8b, 0xaa, 0x16, 0x7c, 0xe2, 0x6d,
    0x57, 0x18, 0x35, 0x42, 0x76, 0x27, 0xe5, 0x66, 0x0b, 0x10, 0x30, 0xda, 0xa5, 0x13, 0x64, 0xcf,
    0x83, 0x53, 0x05, 0xed, 0xd2, 0x0b, 0xa1, 0xd8, 0x96, 0x1e, 0xcb, 0x7e, 0xbb, 0xec, 0x2c, 0x5d,
    0x14, 0xd8, 0x26, 0x84, 0x2d, 0xa1, 0x78, 0xf6, 0x2f, 0xf4, 0x5c, 0x64, 0x29, 0x2f, 0xcb, 0x7f,
    0x6a, 0x45, 0x14, 0x65, 0x6f, 0x5b, 0xbd, 0x38, 0x35, 0xbc, 0xc0, 0x07, 0xa7, 0xcc, 0xeb, 0x1f,
    0xf0, 0x11, 0x28, 0xd0, 0xee, 0x23, 0x3a, 0x09, 0x70, 0x44, 0x54, 0x82, 0x65, 0x5f, 0x19, 0x0b,
    0x6e, 0x74, 0x62, 0xbb, 0x5e, 0xc5, 0xe3, 0x9f, 0x2a, 0x63, 0x28, 0x69, 0x99, 0x62, 0xb7, 0xe0,
    0x4e, 0x5d, 0x24, 0xe1, 0xff, 0x87, 0x1a, 0x71, 0xfb, 0x89, 0x06, 0x83, 0x3e, 0xcf, 0x2c, 0x50,
    0x1a, 0x7a, 0x89, 0x54, 0xe5, 0x22, 0x71, 0x0c, 0x2a, 0x15, 0xfc, 0xbd, 0x87, 0x4c, 0x65, 0xee,
    0x56, 0x29, 0xa0, 0x10, 0x00, 0xce, 0x64, 0x8c, 0xde, 0x48, 0x38, 0xb2, 0x71, 0x30, 0x82, 0x01,
    0x02, 0x06, 0x09, 0x2a, 0x86, 0x48, 0x86, 0xf7, 0x0d, 0x01, 0x07, 0x01, 0xa0, 0x81, 0xf4, 0x04,
    0x81, 0xf1, 0x30, 0x81, 0xee, 0x30, 0x81, 0xeb, 0x06, 0x0b, 0x2a, 0x86, 0x48, 0x86, 0xf7, 0x0d,
    0x01, 0x0c, 0x0a, 0x01, 0x02, 0xa0, 0x81, 0xb4, 0x30, 0x81, 0xb1, 0x30, 0x1c, 0x06, 0x0a, 0x2a,
    0x86, 0x48, 0x86, 0xf7, 0x0d, 0x01, 0x0c, 0x01, 0x03, 0x30, 0x0e, 0x04, 0x08, 0xaf, 0x64, 0xd2,
    0x92, 0x99, 0x71, 0x6c, 0x61, 0x02, 0x02, 0x08, 0x00, 0x04, 0x81, 0x90, 0x24, 0x91, 0xed, 0x9a,
    0xff, 0x22, 0x46, 0xba, 0xae, 0x0b, 0x3d, 0x75, 0x5a, 0x31, 0x3f, 0xdb, 0x5d, 0x47, 0xb4, 0x95,
    0x0f, 0x56, 0x92, 0xf5, 0xb1, 0xda, 0x8d, 0x86, 0xb9, 0xfb, 0x66, 0xd7, 0x58, 0x67, 0x28, 0x0b,
    0x5a, 0x55, 0x6b, 0xb4, 0xc1, 0xdb, 0xf3, 0xa3, 0x8a, 0x65, 0xd1, 0x8c, 0x33, 0x9e, 0x8f, 0xf4,
    0x08, 0xf8, 0x75, 0xc9, 0xd2, 0xa0, 0xf0, 0x6f, 0x97, 0x03, 0xe3, 0x77, 0xa2, 0xe6, 0xa1, 0xd5,
    0x2e, 0x5b, 0x97, 0x35, 0x05, 0x43, 0xc0, 0x3b, 0x5e, 0x65, 0xc5, 0x49, 0xf6, 0xd6, 0xf2, 0x9a,
    0x13, 0x84, 0x5d, 0x4e, 0x7d, 0xf8, 0xfb, 0x65, 0xc7, 0x22, 0x20, 0xd2, 0x7a, 0xeb, 0xb3, 0x50,
    0xc1, 0xf5, 0x65, 0x55, 0xde, 0x16, 0x01, 0xd7, 0xe1, 0xfe, 0xc0, 0xf0, 0x9e, 0xd4, 0x70, 0xae,
    0xc0, 0x7a, 0x89, 0x45, 0xad, 0xdd, 0x22, 0x3e, 0x21, 0x27, 0x2c, 0x8e, 0xdc, 0xcf, 0x29, 0xb6,
    0x34, 0xbd, 0x96, 0x8c, 0x16, 0x8d, 0xcb, 0x72, 0x54, 0xae, 0x87, 0x6a, 0x31, 0x25, 0x30, 0x23,
    0x06, 0x09, 0x2a, 0x86, 0x48, 0x86, 0xf7, 0x0d, 0x01, 0x09, 0x15, 0x31, 0x16, 0x04, 0x14, 0x02,
    0x76, 0xa6, 0x99, 0x82, 0x92, 0xae, 0xdb, 0x32, 0xca, 0x74, 0x39, 0x15, 0x87, 0x3d, 0x05, 0xc3,
    0xee, 0x92, 0x6a, 0x30, 0x31, 0x30, 0x21, 0x30, 0x09, 0x06, 0x05, 0x2b, 0x0e, 0x03, 0x02, 0x1a,
    0x05, 0x00, 0x04, 0x14, 0xe8, 0x51, 0xf3, 0x7b, 0x93, 0x6a, 0x89, 0x08, 0x2e, 0xcc, 0xa6, 0x0e,
    0x53, 0xf0, 0xf0, 0xc0, 0x6a, 0x45, 0xdf, 0xa8, 0x04, 0x08, 0x15, 0x78, 0xed, 0x83, 0xd2, 0xbe,
    0x3c, 0x9d, 0x02, 0x02, 0x08, 0x00,
];

/// Draws the random octets of one archive.
fn random() -> Randomness {
    let mut rng = rand::rng();
    let mut random = fixed_random();
    rng.fill_bytes(&mut random.cert_salt);
    rng.fill_bytes(&mut random.cert_iv);
    rng.fill_bytes(&mut random.key_salt);
    rng.fill_bytes(&mut random.key_iv);
    rng.fill_bytes(&mut random.mac_salt);
    random
}

/// Octets that are the same every time.
fn fixed_random() -> Randomness {
    Randomness {
        cert_salt: [1; 16],
        cert_iv: [2; 16],
        key_salt: [3; 16],
        key_iv: [4; 16],
        mac_salt: [5; 8],
    }
}

/// Build a PFX with PfxBuilder, then parse it back with parse_pfx.
///
/// Verifies that:
/// - MAC verification succeeds
/// - the recovered cert bytes are those that went in
/// - the recovered key bytes are those that went in
#[test]
fn parser_roundtrip() {
    let cert_der = &CERT_DER;
    let key_der = &KEY_DER;

    let pfx_der = PfxBuilder::new(PASSWORD)
        .with_cert(cert_der.as_slice())
        .with_key(key_der.as_slice())
        .with_cert_encryption(EncryptionAlgorithm::Pbes2Aes256Cbc {
            iterations: ENC_ITERS,
        })
        .with_key_encryption(EncryptionAlgorithm::Pbes2Aes256Cbc {
            iterations: ENC_ITERS,
        })
        .with_mac_algorithm(MacAlgorithm::HmacSha256 {
            iterations: MAC_ITERS,
        })
        .build_with_rng(&random())
        .expect("builder should succeed");

    let contents = parse_pfx(&pfx_der, PASSWORD).expect("parser should succeed");

    assert!(contents.mac_verified, "MAC should be verified");
    assert_eq!(cert_der.as_slice(), contents.certificate.as_slice());
    assert_eq!(key_der.as_slice(), contents.key_der.as_slice());
    assert!(
        contents.additional_certificates.is_empty(),
        "no CA certs were added"
    );
}

/// Build a PFX with a CA cert chain, parse it back, and verify all certs are
/// recovered in order (EE cert first, CA cert in additional_certificates).
#[test]
fn parser_roundtrip_with_ca_cert() {
    let cert_der = &CERT_DER;
    let ca_der = &CA_DER;
    let key_der = &KEY_DER;

    let pfx_der = PfxBuilder::new(PASSWORD)
        .with_cert(cert_der.as_slice())
        .with_ca_cert(ca_der.as_slice())
        .with_key(key_der.as_slice())
        .with_cert_encryption(EncryptionAlgorithm::Pbes2Aes256Cbc {
            iterations: ENC_ITERS,
        })
        .with_key_encryption(EncryptionAlgorithm::Pbes2Aes256Cbc {
            iterations: ENC_ITERS,
        })
        .with_mac_algorithm(MacAlgorithm::HmacSha256 {
            iterations: MAC_ITERS,
        })
        .build_with_rng(&random())
        .expect("builder should succeed");

    let contents = parse_pfx(&pfx_der, PASSWORD).expect("parser should succeed");

    assert!(contents.mac_verified);
    assert_eq!(cert_der.as_slice(), contents.certificate.as_slice());
    assert_eq!(key_der.as_slice(), contents.key_der.as_slice());
    assert_eq!(1, contents.additional_certificates.len());
    assert_eq!(
        ca_der.as_slice(),
        contents.additional_certificates[0].as_slice()
    );
}

/// A wrong password must cause decryption to fail, not silently return garbage.
#[test]
fn parser_wrong_password_errors() {
    let cert_der = &CERT_DER;
    let key_der = &KEY_DER;

    let pfx_der = PfxBuilder::new(PASSWORD)
        .with_cert(cert_der.as_slice())
        .with_key(key_der.as_slice())
        .build_with_rng(&random())
        .expect("builder should succeed");

    // Wrong password should produce a MAC mismatch or a decryption error;
    // either is acceptable; what is NOT acceptable is Ok with wrong bytes.
    let result = parse_pfx(&pfx_der, "definitely-wrong-password");
    assert!(
        result.is_err(),
        "wrong password must return an error, not silently succeed"
    );
}

/// Corrupt the MAC digest bytes; parse_pfx must return MacMismatch.
#[test]
fn parser_mac_mismatch_errors() {
    let cert_der = &CERT_DER;
    let key_der = &KEY_DER;

    let mut pfx_der = PfxBuilder::new(PASSWORD)
        .with_cert(cert_der.as_slice())
        .with_key(key_der.as_slice())
        .build_with_rng(&random())
        .expect("builder should succeed");

    // Flip the last byte of the serialized PFX.  The MAC digest is near the
    // end of the structure so this reliably corrupts it.
    let last = pfx_der.len() - 1;
    pfx_der[last] ^= 0xff;

    let result = parse_pfx(&pfx_der, PASSWORD);
    assert!(
        matches!(
            result,
            Err(pkcs12::parser::Error::MacMismatch) | Err(pkcs12::parser::Error::Asn1(_))
        ),
        "corrupt MAC must return MacMismatch or Asn1, got: {result:?}"
    );
}

/// Parse an OpenSSL-generated PFX with HMAC-SHA-1 MAC and legacy
/// `pbeWithSHAAnd3-KeyTripleDES-CBC` cert bag encryption.
#[test]
fn parser_legacy_3des_cert_bag_openssl_fixture() {
    let pfx_der = &EXAMPLE14_PFX;
    let expected_cert = &CERT_DER;
    let expected_key = &KEY_DER;

    let contents = parse_pfx(pfx_der, "1234").expect("should parse example14.pfx");

    assert!(
        contents.mac_verified,
        "HMAC-SHA-1 MAC must verify for example14.pfx"
    );
    assert_eq!(
        expected_cert.as_slice(),
        contents.certificate.as_slice(),
        "certificate must match OpenSSL-extracted DER"
    );
    assert_eq!(
        expected_key.as_slice(),
        contents.key_der.as_slice(),
        "private key must match OpenSSL-extracted DER"
    );
}

/// Parse an OpenSSL-generated PFX with HMAC-SHA-1 MAC.
#[test]
fn parser_sha1_mac_openssl_fixture() {
    let pfx_der = &EXAMPLE4_PFX;
    let expected_cert = &CERT_DER;
    let expected_key = &KEY_DER;

    let contents = parse_pfx(pfx_der, "1234").expect("should parse example4.pfx");

    assert!(
        contents.mac_verified,
        "HMAC-SHA-1 MAC must verify for example4.pfx"
    );
    assert_eq!(
        expected_cert.as_slice(),
        contents.certificate.as_slice(),
        "certificate must match OpenSSL-extracted DER"
    );
    assert_eq!(
        expected_key.as_slice(),
        contents.key_der.as_slice(),
        "private key must match OpenSSL-extracted DER"
    );
}

// Archives put together by hand.

fn element(tag: u8, value: &[u8]) -> Vec<u8> {
    Any::new(der::Tag::from_der(&[tag]).unwrap(), value).unwrap().to_der().unwrap()
}

fn bag(bag_id: &[u8], inner: &[u8]) -> SafeBag {
    SafeBag {
        bag_id: bag_id.to_vec(),
        bag_value: element(0xa0, inner),
        bag_attributes: None,
    }
}

fn cert_bag(cert: &[u8]) -> SafeBag {
    let inner = CertBag { cert_id: PKCS_12_X509_CERT_OID.to_vec(), cert_value: cert.to_vec() };
    bag(&PKCS_12_CERT_BAG_OID, &inner.to_der().unwrap())
}

fn key_bag(key: &[u8]) -> SafeBag {
    bag(&PKCS_12_KEY_BAG_OID, key)
}

fn data_group(bags: Vec<SafeBag>) -> ContentInfo {
    ContentInfo {
        content_type: ID_DATA.to_vec(),
        content: element(0x04, &safe_contents_to_der(&bags).unwrap()),
    }
}

fn encrypted_group(oid: &[u8], parameters: Option<Vec<u8>>, content: Option<&[u8]>) -> ContentInfo {
    let data = EncryptedData {
        version: CmsVersion::V0,
        enc_content_info: EncryptedContentInfo {
            content_type: const_oid::db::rfc5911::ID_DATA,
            content_enc_alg: spki::AlgorithmIdentifierOwned {
                oid: const_oid::ObjectIdentifier::from_bytes(oid).unwrap(),
                parameters: parameters.map(|p| Any::from_der(&p).unwrap()),
            },
            encrypted_content: content.map(|c| OctetString::new(c).unwrap()),
        },
        unprotected_attrs: None,
    };
    ContentInfo { content_type: ID_ENCRYPTED_DATA.to_vec(), content: data.to_der().unwrap() }
}

fn archive_with(groups: Vec<ContentInfo>, mac_data: Option<MacData>) -> Vec<u8> {
    let auth_safe = authenticated_safe_to_der(&groups).unwrap();
    let auth_safe = ContentInfo {
        content_type: ID_DATA.to_vec(),
        content: element(0x04, &auth_safe),
    };
    Pfx { version: Version::V3, auth_safe, mac_data }.to_der().unwrap()
}

fn archive(groups: Vec<ContentInfo>) -> Vec<u8> {
    archive_with(groups, None)
}

fn parse(groups: Vec<ContentInfo>) -> Result<Pkcs12Contents, Error> {
    parse_pfx(&archive(groups), PASSWORD)
}

#[test]
fn plain_archive_without_mac_is_read_unverified() {
    let contents =
        parse(vec![data_group(vec![cert_bag(b"one"), key_bag(b"key"), cert_bag(b"two")])]).unwrap();
    assert!(!contents.mac_verified);
    assert_eq!(contents.certificate, b"one");
    assert_eq!(contents.additional_certificates, vec![b"two".to_vec()]);
    assert_eq!(contents.key_der.as_slice(), b"key");
}

#[test]
fn first_key_is_taken_and_later_ones_are_not_looked_at() {
    let broken = bag(&PKCS_12_PKCS8_KEY_BAG_OID, b"\x05\x00");
    let contents = parse(vec![
        data_group(vec![key_bag(b"first"), key_bag(b"second"), broken]),
        data_group(vec![key_bag(b"third"), cert_bag(b"cert")]),
    ])
    .unwrap();
    assert_eq!(contents.key_der.as_slice(), b"first");
}

#[test]
fn certificates_keep_their_order_across_groups() {
    let contents = parse(vec![
        data_group(vec![cert_bag(b"a"), cert_bag(b"b")]),
        data_group(vec![key_bag(b"key")]),
        data_group(vec![cert_bag(b"c")]),
    ])
    .unwrap();
    assert_eq!(contents.certificate, b"a");
    assert_eq!(contents.additional_certificates, vec![b"b".to_vec(), b"c".to_vec()]);
}

#[test]
fn unknown_groups_are_skipped() {
    let enveloped = ContentInfo {
        content_type: const_oid::db::rfc5911::ID_ENVELOPED_DATA.as_bytes().to_vec(),
        content: element(0x30, &[]),
    };
    let contents = parse(vec![
        enveloped,
        data_group(vec![cert_bag(b"cert"), key_bag(b"key")]),
    ])
    .unwrap();
    assert_eq!(contents.certificate, b"cert");
    assert_eq!(contents.key_der.as_slice(), b"key");
}

#[test]
fn unknown_bags_are_skipped() {
    let mut secret = PKCS_12_KEY_BAG_OID;
    secret[10] = 5;
    let contents = parse(vec![data_group(vec![
        bag(&secret, &element(0x30, &[])),
        cert_bag(b"cert"),
        key_bag(b"key"),
    ])])
    .unwrap();
    assert_eq!(contents.certificate, b"cert");
}

#[test]
fn archive_without_key_is_refused() {
    let error = parse(vec![data_group(vec![cert_bag(b"cert")])]).unwrap_err();
    assert!(matches!(error, Error::MissingKey));
    assert_eq!(error.message(), "no private key found in archive");
    // The key is asked for first.
    assert!(matches!(parse(vec![]), Err(Error::MissingKey)));
}

#[test]
fn archive_without_certificate_is_refused() {
    let error = parse(vec![data_group(vec![key_bag(b"key")])]).unwrap_err();
    assert!(matches!(error, Error::MissingCert));
    assert_eq!(error.message(), "no certificate found in archive");
}

#[test]
fn malformed_archives_are_refused() {
    let good = archive(vec![data_group(vec![cert_bag(b"cert"), key_bag(b"key")])]);
    assert!(parse_pfx(&good, PASSWORD).is_ok());
    assert!(matches!(parse_pfx(&[], PASSWORD), Err(Error::Asn1(_))));
    for len in 0..good.len() {
        assert!(matches!(parse_pfx(&good[..len], PASSWORD), Err(Error::Asn1(_))));
    }
    let mut trailing = good.clone();
    trailing.push(0);
    assert!(matches!(parse_pfx(&trailing, PASSWORD), Err(Error::Asn1(_))));
    // Another syntax version.
    let mut version = good.clone();
    assert_eq!(&version[2..5], [0x02, 0x01, 0x03].as_slice());
    version[4] = 2;
    let error = parse_pfx(&version, PASSWORD).unwrap_err();
    assert!(matches!(error, Error::Asn1(_)));
    assert!(error.message().starts_with("ASN.1 error: "));
    // A certificate bag with something else inside.
    let odd = bag(&PKCS_12_CERT_BAG_OID, &element(0x04, b"x"));
    assert!(matches!(parse(vec![data_group(vec![odd])]), Err(Error::Asn1(_))));
}

#[test]
fn signed_archives_are_not_supported() {
    let pfx = Pfx {
        version: Version::V3,
        auth_safe: ContentInfo {
            content_type: const_oid::db::rfc5911::ID_SIGNED_DATA.as_bytes().to_vec(),
            content: element(0x30, &[]),
        },
        mac_data: None,
    };
    let error = parse_pfx(&pfx.to_der().unwrap(), PASSWORD).unwrap_err();
    assert!(matches!(error, Error::UnsupportedAlgorithm));
    assert_eq!(error.message(), "unsupported algorithm");
}

fn mac_with(oid: &[u8], digest: Vec<u8>) -> MacData {
    MacData {
        mac: DigestInfo {
            algorithm: AlgorithmIdentifier { oid: oid.to_vec(), parameters: None },
            digest,
        },
        mac_salt: vec![1; 8],
        iterations: 1,
    }
}

#[test]
fn other_macs_are_not_supported() {
    let sha512 = const_oid::db::rfc5912::ID_SHA_512;
    let groups = vec![data_group(vec![cert_bag(b"cert"), key_bag(b"key")])];
    let pfx_der = archive_with(groups, Some(mac_with(sha512.as_bytes(), vec![0; 64])));
    assert!(matches!(parse_pfx(&pfx_der, PASSWORD), Err(Error::UnsupportedAlgorithm)));
}

#[test]
fn mac_that_does_not_match_is_refused() {
    let groups = vec![data_group(vec![cert_bag(b"cert"), key_bag(b"key")])];
    let pfx_der = archive_with(groups, Some(mac_with(&ID_SHA_256, vec![0; 32])));
    let error = parse_pfx(&pfx_der, PASSWORD).unwrap_err();
    assert!(matches!(error, Error::MacMismatch));
    assert_eq!(error.message(), "MAC verification failed");
    assert!(mac_verdict(true).is_ok());
    assert!(matches!(mac_verdict(false), Err(Error::MacMismatch)));
}

#[test]
fn truncated_tags_do_not_match() {
    let pfx_der = PfxBuilder::new(PASSWORD)
        .with_cert(b"cert")
        .with_key(b"key")
        .with_cert_encryption(EncryptionAlgorithm::Pbes2Aes256Cbc { iterations: 1 })
        .with_key_encryption(EncryptionAlgorithm::Pbes2Aes256Cbc { iterations: 1 })
        .with_mac_algorithm(MacAlgorithm::HmacSha256 { iterations: 1 })
        .build_with_rng(&fixed_random())
        .unwrap();
    let pfx = Pfx::from_der(&pfx_der).unwrap();
    let auth_safe = OctetString::from_der(&pfx.auth_safe.content).unwrap();
    let mut mac_data = pfx.mac_data.unwrap();
    assert_eq!(mac_data.iterations, 1);
    assert!(verify_mac(&mac_data, auth_safe.as_bytes(), PASSWORD).is_ok());
    assert!(matches!(
        verify_mac(&mac_data, auth_safe.as_bytes(), "another password"),
        Err(Error::MacMismatch)
    ));
    assert!(matches!(
        verify_mac(&mac_data, auth_safe.as_bytes(), "\u{1f511}"),
        Err(Error::Asn1(_))
    ));
    mac_data.mac.digest.pop();
    assert_eq!(mac_data.mac.digest.len(), 31);
    assert!(matches!(
        verify_mac(&mac_data, auth_safe.as_bytes(), PASSWORD),
        Err(Error::MacMismatch)
    ));
}

/// The MAC of an archive is over the octets of its contents.
#[test]
fn tampering_with_any_octet_of_the_contents_is_noticed() {
    let pfx_der = PfxBuilder::new(PASSWORD)
        .with_cert(b"cert")
        .with_key(b"key")
        .with_cert_encryption(EncryptionAlgorithm::Pbes2Aes256Cbc { iterations: 1 })
        .with_key_encryption(EncryptionAlgorithm::Pbes2Aes256Cbc { iterations: 1 })
        .with_mac_algorithm(MacAlgorithm::HmacSha256 { iterations: 1 })
        .build_with_rng(&fixed_random())
        .unwrap();
    for i in 0..pfx_der.len() {
        let mut tampered = pfx_der.clone();
        tampered[i] ^= 1;
        assert!(parse_pfx(&tampered, PASSWORD).is_err(), "octet {i}");
    }
}

#[test]
fn other_encryption_schemes_are_not_supported() {
    let mut rc2 = PKCS_12_PBE_WITH_SHAAND3_KEY_TRIPLE_DES_CBC;
    rc2[9] = 6;
    let params = element(0x30, &[0x04, 0x01, 0x01, 0x02, 0x01, 0x01]);
    let result = parse(vec![encrypted_group(&rc2, Some(params), Some(&[0; 8]))]);
    assert!(matches!(result, Err(Error::UnsupportedAlgorithm)));
}

#[test]
fn encrypted_groups_need_parameters_and_content() {
    let legacy = &PKCS_12_PBE_WITH_SHAAND3_KEY_TRIPLE_DES_CBC;
    let params = element(0x30, &[0x04, 0x01, 0x01, 0x02, 0x01, 0x01]);
    let result = parse(vec![encrypted_group(legacy, None, Some(&[0; 8]))]);
    assert!(matches!(result, Err(Error::Asn1(_))));
    let result = parse(vec![encrypted_group(legacy, Some(params), None)]);
    assert!(matches!(result, Err(Error::Asn1(_))));
    let result = parse(vec![encrypted_group(&ID_PBES2, None, Some(&[0; 16]))]);
    assert!(matches!(result, Err(Error::Asn1(_))));
    let params = pbes2_params(cipher(AES_192_CBC, &[0; 16]), pbkdf2_sha1(1));
    let result = parse(vec![encrypted_group(&ID_PBES2, Some(params), None)]);
    assert!(matches!(result, Err(Error::Asn1(_))));
}

/// The message syntax around a ciphertext.
#[test]
fn encrypted_messages_are_checked() {
    let bags = vec![cert_bag(b"cert"), key_bag(b"key")];
    let params = pbes2_params(cipher(AES_192_CBC, &[9; 16]), pbkdf2_sha1(1));
    let ciphertext = encrypt(&params, &safe_contents_to_der(&bags).unwrap());
    let alg = element(0x30, &[element(0x06, &ID_PBES2), params].concat());
    let read = |version: &[u8], content_tag: u8, attributes: &[u8]| {
        let content = [element(0x06, &ID_DATA), alg.clone(), element(content_tag, &ciphertext)];
        let body = [element(0x02, version), element(0x30, &content.concat()), attributes.to_vec()];
        parse(vec![ContentInfo {
            content_type: ID_ENCRYPTED_DATA.to_vec(),
            content: element(0x30, &body.concat()),
        }])
    };
    for version in 0..=5 {
        assert_eq!(read(&[version], 0x80, &[]).unwrap().certificate, b"cert");
    }
    assert!(matches!(read(&[6], 0x80, &[]), Err(Error::Asn1(_))));
    assert!(matches!(read(&[0, 0], 0x80, &[]), Err(Error::Asn1(_))));
    assert!(matches!(read(&[0], 0xa0, &[]), Err(Error::Asn1(_))));
    assert!(matches!(read(&[0], 0x04, &[]), Err(Error::Asn1(_))));
    let attribute = element(0x30, &[element(0x06, &[0x2a]), element(0x31, &[5, 0])].concat());
    assert!(read(&[0], 0x80, &element(0xa1, &attribute)).is_ok());
    assert!(matches!(read(&[0], 0x80, &element(0xa1, &[5, 0])), Err(Error::Asn1(_))));
    assert!(matches!(read(&[0], 0x80, &attribute), Err(Error::Asn1(_))));
}

const AES_192_CBC: &[u8] = &[0x60, 0x86, 0x48, 0x01, 0x65, 0x03, 0x04, 0x01, 0x16];
const DES_EDE3_CBC: &[u8] = &[0x2a, 0x86, 0x48, 0x86, 0xf7, 0x0d, 0x03, 0x07];
const PBKDF2: &[u8] = &[0x2a, 0x86, 0x48, 0x86, 0xf7, 0x0d, 0x01, 0x05, 0x0c];
const SCRYPT: &[u8] = &[0x2b, 0x06, 0x01, 0x04, 0x01, 0xda, 0x47, 0x04, 0x0b];

fn cipher(oid: &[u8], iv: &[u8]) -> Vec<u8> {
    element(0x30, &[element(0x06, oid), element(0x04, iv)].concat())
}

/// PBKDF2 with its default, HMAC-SHA-1.
fn pbkdf2_sha1(iterations: i32) -> Vec<u8> {
    let params = [element(0x04, b"saltsalt"), iterations.to_der().unwrap()].concat();
    element(0x30, &[element(0x06, PBKDF2), element(0x30, &params)].concat())
}

fn scrypt(n: u64, r: u16, p: u16) -> Vec<u8> {
    let params = [
        element(0x04, b"saltsalt"),
        n.to_der().unwrap(),
        r.to_der().unwrap(),
        p.to_der().unwrap(),
    ]
    .concat();
    element(0x30, &[element(0x06, SCRYPT), element(0x30, &params)].concat())
}

fn pbes2_params(cipher: Vec<u8>, kdf: Vec<u8>) -> Vec<u8> {
    element(0x30, &[kdf, cipher].concat())
}

fn encrypt(params: &[u8], plaintext: &[u8]) -> Vec<u8> {
    pkcs5::pbes2::Parameters::from_der(params).unwrap().encrypt(PASSWORD, plaintext).unwrap()
}

/// PBKDF2 with a key length and a named function.
fn pbkdf2_with(prf: &[u8], key_length: Option<u16>) -> Vec<u8> {
    let mut params = [element(0x04, b"saltsalt"), 7i32.to_der().unwrap()].concat();
    if let Some(len) = key_length {
        params.extend_from_slice(&len.to_der().unwrap());
    }
    let prf = element(0x30, &[element(0x06, prf), vec![0x05, 0x00]].concat());
    params.extend_from_slice(&prf);
    element(0x30, &[element(0x06, PBKDF2), element(0x30, &params)].concat())
}

#[test]
fn every_known_function_and_cipher_decrypts() {
    for prf in [
        pkcs12::oid::ID_HMAC_WITH_SHA1,
        pkcs12::oid::ID_HMAC_WITH_SHA224,
        pkcs12::oid::ID_HMAC_WITH_SHA256,
        pkcs12::oid::ID_HMAC_WITH_SHA384,
        pkcs12::oid::ID_HMAC_WITH_SHA512,
    ] {
        for (oid, iv_len, key_len) in [
            (pkcs12::oid::ID_AES128_CBC, 16usize, 16u16),
            (pkcs12::oid::ID_AES192_CBC, 16, 24),
            (pkcs12::oid::ID_AES256_CBC, 16, 32),
            (pkcs12::oid::ID_AES128_GCM, 12, 16),
            (pkcs12::oid::ID_AES256_GCM, 12, 32),
        ] {
            for len in [None, Some(key_len)] {
                let params = pbes2_params(cipher(&oid, &vec![9; iv_len]), pbkdf2_with(&prf, len));
                let ciphertext = encrypt(&params, b"plaintext");
                let plaintext = decrypt_pbes2(&params, &ciphertext, PASSWORD.as_bytes()).unwrap();
                assert_eq!(plaintext, b"plaintext");
            }
        }
    }
}

/// Unknown algorithms inside PBES2 are told from malformed parameters.
#[test]
fn unknown_algorithms_inside_pbes2_are_not_supported() {
    let aes = cipher(AES_192_CBC, &[9; 16]);
    // RC2 in CBC mode, whose parameters are a SEQUENCE.
    let rc2_oid = [0x2a, 0x86, 0x48, 0x86, 0xf7, 0x0d, 0x03, 0x02];
    let rc2_params = element(0x30, &[vec![0x02, 0x01, 0x3a], element(0x04, &[9; 8])].concat());
    let rc2 = element(0x30, &[element(0x06, &rc2_oid), rc2_params].concat());
    let sha3 = [0x60, 0x86, 0x48, 0x01, 0x65, 0x03, 0x04, 0x02, 0x0e];
    for params in [
        pbes2_params(rc2, pbkdf2_sha1(7)),
        pbes2_params(cipher(&rc2_oid, &[9; 8]), pbkdf2_sha1(7)),
        pbes2_params(element(0x30, &element(0x06, &rc2_oid)), pbkdf2_sha1(7)),
        pbes2_params(aes.clone(), element(0x30, &element(0x06, &sha3))),
        pbes2_params(aes.clone(), pbkdf2_with(&sha3, None)),
        pbes2_params(aes.clone(), pbkdf2_with(&sha3, Some(24))),
        pbes2_params(cipher(DES_EDE3_CBC, &[9; 7]), pbkdf2_with(&sha3, None)),
    ] {
        assert!(has_unknown_algorithm(&params));
        let group = encrypted_group(&ID_PBES2, Some(params.clone()), Some(&[0; 16]));
        assert!(matches!(parse(vec![group]), Err(Error::UnsupportedAlgorithm)));
        let alg = element(0x30, &[element(0x06, &ID_PBES2), params].concat());
        let key = element(0x30, &[alg, element(0x04, &[0; 16])].concat());
        let result = decrypt_shrouded_key(&key, PASSWORD);
        assert!(matches!(result, Err(Error::UnsupportedAlgorithm)));
    }
    // Known algorithms with odd parameters are malformed.
    for params in [
        pbes2_params(cipher(AES_192_CBC, &[9; 15]), pbkdf2_sha1(7)),
        pbes2_params(aes.clone(), element(0x30, &element(0x06, PBKDF2))),
        element(0x30, &aes),
    ] {
        assert!(!has_unknown_algorithm(&params));
        let group = encrypted_group(&ID_PBES2, Some(params), Some(&[0; 16]));
        assert!(matches!(parse(vec![group]), Err(Error::Asn1(_))));
    }
}

/// AES-192 and Triple-DES, with PBKDF2 over HMAC-SHA-1 and with scrypt.
#[test]
fn every_supported_pbes2_combination_decrypts() {
    let bags = vec![cert_bag(b"cert"), key_bag(b"key")];
    let plaintext = safe_contents_to_der(&bags).unwrap();
    for cipher in [cipher(AES_192_CBC, &[9; 16]), cipher(DES_EDE3_CBC, &[9; 8])] {
        for kdf in [pbkdf2_sha1(7), scrypt(16, 1, 1)] {
            let params = pbes2_params(cipher.clone(), kdf);
            let ciphertext = encrypt(&params, &plaintext);
            assert_ne!(ciphertext, plaintext);
            assert_eq!(
                decrypt_pbes2(&params, &ciphertext, PASSWORD.as_bytes()).unwrap(),
                plaintext
            );
            let contents =
                parse(vec![encrypted_group(&ID_PBES2, Some(params), Some(&ciphertext))]).unwrap();
            assert_eq!(contents.certificate, b"cert");
        }
    }
}

#[test]
fn ciphertext_that_does_not_decrypt_is_refused() {
    let params = pbes2_params(cipher(AES_192_CBC, &[9; 16]), pbkdf2_sha1(7));
    let group = encrypted_group(&ID_PBES2, Some(params), Some(&[0; 15]));
    let error = parse(vec![group]).unwrap_err();
    assert!(matches!(error, Error::Decrypt(_)));
    assert!(error.message().starts_with("decryption error: "));
    let params = element(0x30, &[0x04, 0x01, 0x01, 0x02, 0x01, 0x01]);
    let alg = AlgorithmIdentifier {
        oid: PKCS_12_PBE_WITH_SHAAND3_KEY_TRIPLE_DES_CBC.to_vec(),
        parameters: Some(params),
    };
    let result = decrypt_pkcs12_pbe_3des(&alg, &[0; 7], PASSWORD);
    assert!(matches!(result, Err(Error::Decrypt(_))));
    let result = decrypt_pkcs12_pbe_3des(&alg, &[0; 8], "\u{1f511}");
    assert!(matches!(result, Err(Error::Asn1(_))));
}

#[test]
fn impossible_parameters_are_refused() {
    // A Triple-DES vector that is shorter than a block.
    let short = pbes2_params(cipher(DES_EDE3_CBC, &[9; 7]), pbkdf2_sha1(7));
    let result = decrypt_pbes2(&short, &[0; 8], b"password");
    assert!(matches!(result, Err(Error::Asn1(_))));
    // A scrypt cost of zero, one that is no power of two, and one beyond all memory.
    for n in [0, 3, 1u64 << 55] {
        let params = pbes2_params(cipher(AES_192_CBC, &[9; 16]), scrypt(n, 8, 1));
        let result = decrypt_pbes2(&params, &[0; 16], b"password");
        assert!(matches!(result, Err(Error::Decrypt(_))), "cost {n}");
    }
    // No parameters at all.
    assert!(matches!(decrypt_pbes2(&[], &[], b"password"), Err(Error::Asn1(_))));
}

#[test]
fn shrouded_keys() {
    let pbes2 = |params: &[u8]| element(0x30, &[element(0x06, &ID_PBES2), params.to_vec()].concat());
    let shrouded = |alg: Vec<u8>, data: &[u8]| element(0x30, &[alg, element(0x04, data)].concat());
    let params = pbes2_params(cipher(AES_192_CBC, &[9; 16]), pbkdf2_sha1(7));
    let good = shrouded(pbes2(&params), &encrypt(&params, b"the key"));
    let key = decrypt_shrouded_key(&good, PASSWORD).unwrap();
    assert_eq!(key.as_slice(), b"the key");
    let contents = parse(vec![data_group(vec![
        bag(&PKCS_12_PKCS8_KEY_BAG_OID, &good),
        cert_bag(b"cert"),
    ])])
    .unwrap();
    assert_eq!(contents.key_der.as_slice(), b"the key");

    // Cut short.
    let result = decrypt_shrouded_key(&good[..good.len() - 1], PASSWORD);
    assert!(matches!(result, Err(Error::Asn1(_))));
    // A short Triple-DES vector.
    let params = pbes2_params(cipher(DES_EDE3_CBC, &[9; 7]), pbkdf2_sha1(7));
    let result = decrypt_shrouded_key(&shrouded(pbes2(&params), &[0; 8]), PASSWORD);
    assert!(matches!(result, Err(Error::Asn1(_))));
    // The first generation, pbeWithSHA1AndDES-CBC.
    let oid = [0x2a, 0x86, 0x48, 0x86, 0xf7, 0x0d, 0x01, 0x05, 0x0a];
    let params = element(0x30, &[element(0x04, &[1; 8]), vec![0x02, 0x01, 0x01]].concat());
    let alg = element(0x30, &[element(0x06, &oid), params].concat());
    let result = decrypt_shrouded_key(&shrouded(alg, &[0; 8]), PASSWORD);
    assert!(matches!(result, Err(Error::UnsupportedAlgorithm)));
    // PKCS#12's own scheme: without parameters, and with a ciphertext of no whole block.
    let oid = element(0x06, &PKCS_12_PBE_WITH_SHAAND3_KEY_TRIPLE_DES_CBC);
    let alg = element(0x30, &oid);
    let result = decrypt_shrouded_key(&shrouded(alg, &[0; 8]), PASSWORD);
    assert!(matches!(result, Err(Error::Asn1(_))));
    let params = element(0x30, &[0x04, 0x01, 0x01, 0x02, 0x01, 0x01]);
    let alg = element(0x30, &[oid, params].concat());
    let result = decrypt_shrouded_key(&shrouded(alg, &[0; 7]), PASSWORD);
    assert!(matches!(result, Err(Error::Decrypt(_))));
}

/// Without its MAC the same archive gives the same contents, unverified.
#[test]
fn mac_changes_nothing_but_the_flag() {
    let pfx_der = PfxBuilder::new(PASSWORD)
        .with_cert(&CERT_DER)
        .with_ca_cert(&CA_DER)
        .with_key(&KEY_DER)
        .with_cert_encryption(EncryptionAlgorithm::Pbes2Aes256Cbc { iterations: 1 })
        .with_key_encryption(EncryptionAlgorithm::Pbes2Aes256Cbc { iterations: 1 })
        .with_mac_algorithm(MacAlgorithm::HmacSha256 { iterations: 1 })
        .build_with_rng(&fixed_random())
        .unwrap();
    let with = parse_pfx(&pfx_der, PASSWORD).unwrap();
    let mut pfx = Pfx::from_der(&pfx_der).unwrap();
    pfx.mac_data = None;
    let without = parse_pfx(&pfx.to_der().unwrap(), PASSWORD).unwrap();
    assert!(with.mac_verified && !without.mac_verified);
    assert_eq!(with.key_der.as_slice(), without.key_der.as_slice());
    assert_eq!(with.certificate, without.certificate);
    assert_eq!(with.additional_certificates, without.additional_certificates);
    // Nothing stands between a wrong password and the ciphertext now.
    assert!(parse_pfx(&pfx.to_der().unwrap(), "another password").is_err());
}

/// Certificates and key under PKCS#12's own scheme with Triple-DES.
#[test]
fn legacy_3des_key_bag() {
    let contents = parse_pfx(&LEGACY_PFX, "1234").unwrap();
    assert!(contents.mac_verified);
    assert_eq!(CERT_DER.as_slice(), contents.certificate.as_slice());
    assert_eq!(KEY_DER.as_slice(), contents.key_der.as_slice());
    // Without the MAC a wrong password gets as far as the ciphertext.
    let mut pfx = Pfx::from_der(&LEGACY_PFX).unwrap();
    pfx.mac_data = None;
    let bare = pfx.to_der().unwrap();
    assert_eq!(KEY_DER.as_slice(), parse_pfx(&bare, "1234").unwrap().key_der.as_slice());
    assert!(parse_pfx(&bare, "4321").is_err());
}

#[test]
fn gathering_keeps_the_first_key() {
    let mut found = Gathered::new();
    found.add_key(SecretBytes::new(vec![1]));
    found.add_key(SecretBytes::new(vec![2]));
    found.add_cert(CertBag { cert_id: vec![], cert_value: vec![3] });
    found.add_cert(CertBag { cert_id: vec![], cert_value: vec![4] });
    let contents = found.assemble(true).unwrap();
    assert_eq!(contents.key_der.as_slice(), &[1]);
    assert_eq!(contents.certificate, vec![3]);
    assert_eq!(contents.additional_certificates, vec![vec![4]]);
    assert!(contents.mac_verified);
}

/// What OpenSSL writes is read group by group: attributes and all.
#[test]
fn openssl_archive_has_two_groups() {
    let pfx = Pfx::from_der(&EXAMPLE14_PFX).unwrap();
    let auth_safe = OctetString::from_der(&pfx.auth_safe.content).unwrap();
    let groups = authenticated_safe_from_der(auth_safe.as_bytes()).unwrap();
    assert_eq!(groups.len(), 2);
    let mac_data = pfx.mac_data.unwrap();
    assert_eq!(mac_data.mac.algorithm.oid, pkcs12::oid::ID_SHA_1.to_vec());
    assert!(mac_data.iterations > 1);
    assert!(matches!(parse_pfx(&EXAMPLE14_PFX, "4321"), Err(Error::MacMismatch)));
}
