//! Object identifiers, as the contents octets of their encodings.

use vstd::prelude::*;

verus! {

/// `id-data`, 1.2.840.113549.1.7.1.
pub const ID_DATA: [u8; 9] = [0x2a, 0x86, 0x48, 0x86, 0xf7, 0x0d, 0x01, 0x07, 0x01];

/// `id-encryptedData`, 1.2.840.113549.1.7.6.
pub const ID_ENCRYPTED_DATA: [u8; 9] = [0x2a, 0x86, 0x48, 0x86, 0xf7, 0x0d, 0x01, 0x07, 0x06];

/// `id-sha1`, 1.3.14.3.2.26.
pub const ID_SHA_1: [u8; 5] = [0x2b, 0x0e, 0x03, 0x02, 0x1a];

/// `id-sha256`, 2.16.840.1.101.3.4.2.1.
pub const ID_SHA_256: [u8; 9] = [0x60, 0x86, 0x48, 0x01, 0x65, 0x03, 0x04, 0x02, 0x01];

/// `keyBag`, 1.2.840.113549.1.12.10.1.1.
pub const PKCS_12_KEY_BAG_OID: [u8; 11] = [
    0x2a, 0x86, 0x48, 0x86, 0xf7, 0x0d, 0x01, 0x0c, 0x0a, 0x01, 0x01,
];

/// `pkcs8ShroudedKeyBag`, 1.2.840.113549.1.12.10.1.2.
pub const PKCS_12_PKCS8_KEY_BAG_OID: [u8; 11] = [
    0x2a, 0x86, 0x48, 0x86, 0xf7, 0x0d, 0x01, 0x0c, 0x0a, 0x01, 0x02,
];

/// `certBag`, 1.2.840.113549.1.12.10.1.3.
pub const PKCS_12_CERT_BAG_OID: [u8; 11] = [
    0x2a, 0x86, 0x48, 0x86, 0xf7, 0x0d, 0x01, 0x0c, 0x0a, 0x01, 0x03,
];

/// `x509Certificate`, 1.2.840.113549.1.9.22.1.
pub const PKCS_12_X509_CERT_OID: [u8; 10] = [
    0x2a, 0x86, 0x48, 0x86, 0xf7, 0x0d, 0x01, 0x09, 0x16, 0x01,
];

/// `pbeWithSHAAnd3-KeyTripleDES-CBC`, 1.2.840.113549.1.12.1.3.
pub const PKCS_12_PBE_WITH_SHAAND3_KEY_TRIPLE_DES_CBC: [u8; 10] = [
    0x2a, 0x86, 0x48, 0x86, 0xf7, 0x0d, 0x01, 0x0c, 0x01, 0x03,
];

/// `id-PBES2`, 1.2.840.113549.1.5.13.
pub const ID_PBES2: [u8; 9] = [0x2a, 0x86, 0x48, 0x86, 0xf7, 0x0d, 0x01, 0x05, 0x0d];

/// `id-PBKDF2`, 1.2.840.113549.1.5.12.
pub const ID_PBKDF2: [u8; 9] = [0x2a, 0x86, 0x48, 0x86, 0xf7, 0x0d, 0x01, 0x05, 0x0c];

/// `id-scrypt`, 1.3.6.1.4.1.11591.4.11.
pub const ID_SCRYPT: [u8; 9] = [0x2b, 0x06, 0x01, 0x04, 0x01, 0xda, 0x47, 0x04, 0x0b];

/// `id-hmacWithSHA1`, 1.2.840.113549.2.7.
pub const ID_HMAC_WITH_SHA1: [u8; 8] = [0x2a, 0x86, 0x48, 0x86, 0xf7, 0x0d, 0x02, 0x07];

/// `id-hmacWithSHA224`, 1.2.840.113549.2.8.
pub const ID_HMAC_WITH_SHA224: [u8; 8] = [0x2a, 0x86, 0x48, 0x86, 0xf7, 0x0d, 0x02, 0x08];

/// `id-hmacWithSHA256`, 1.2.840.113549.2.9.
pub const ID_HMAC_WITH_SHA256: [u8; 8] = [0x2a, 0x86, 0x48, 0x86, 0xf7, 0x0d, 0x02, 0x09];

/// `id-hmacWithSHA384`, 1.2.840.113549.2.10.
pub const ID_HMAC_WITH_SHA384: [u8; 8] = [0x2a, 0x86, 0x48, 0x86, 0xf7, 0x0d, 0x02, 0x0a];

/// `id-hmacWithSHA512`, 1.2.840.113549.2.11.
pub const ID_HMAC_WITH_SHA512: [u8; 8] = [0x2a, 0x86, 0x48, 0x86, 0xf7, 0x0d, 0x02, 0x0b];

/// `aes128-CBC-PAD`, 2.16.840.1.101.3.4.1.2.
pub const ID_AES128_CBC: [u8; 9] = [0x60, 0x86, 0x48, 0x01, 0x65, 0x03, 0x04, 0x01, 0x02];

/// `id-aes128-GCM`, 2.16.840.1.101.3.4.1.6.
pub const ID_AES128_GCM: [u8; 9] = [0x60, 0x86, 0x48, 0x01, 0x65, 0x03, 0x04, 0x01, 0x06];

/// `aes192-CBC-PAD`, 2.16.840.1.101.3.4.1.22.
pub const ID_AES192_CBC: [u8; 9] = [0x60, 0x86, 0x48, 0x01, 0x65, 0x03, 0x04, 0x01, 0x16];

/// `aes256-CBC-PAD`, 2.16.840.1.101.3.4.1.42.
pub const ID_AES256_CBC: [u8; 9] = [0x60, 0x86, 0x48, 0x01, 0x65, 0x03, 0x04, 0x01, 0x2a];

/// `id-aes256-GCM`, 2.16.840.1.101.3.4.1.46.
pub const ID_AES256_GCM: [u8; 9] = [0x60, 0x86, 0x48, 0x01, 0x65, 0x03, 0x04, 0x01, 0x2e];

/// `des-EDE3-CBC-Pad`, 1.2.840.113549.3.7.
pub const ID_DES_EDE3_CBC: [u8; 8] = [0x2a, 0x86, 0x48, 0x86, 0xf7, 0x0d, 0x03, 0x07];

/// Whether the octets from position `i` on are base-128 numbers that end, each of at
/// most five octets, or six with the last below 16; `run` octets of the first one
/// stand before `i`.
pub open spec fn arcs_valid(octets: Seq<u8>, i: int, run: nat) -> bool
    decreases octets.len() - i,
{
    if i < 0 || i >= octets.len() {
        run == 0
    } else if run >= 5 && octets[i] >= 0x10 {
        false
    } else {
        arcs_valid(octets, i + 1, if octets[i] < 0x80 { 0 } else { run + 1 })
    }
}

/// Whether `octets` are the contents of an OBJECT IDENTIFIER: between one and 39
/// octets, a first one below 120 and then well-formed arcs.
pub open spec fn is_oid(octets: Seq<u8>) -> bool {
    &&& 1 <= octets.len() <= 39
    &&& octets[0] < 120
    &&& arcs_valid(octets, 1, 0)
}

/// Calls `const_oid::ObjectIdentifier::from_bytes`.  Claimed: it accepts exactly the
/// octets that [`is_oid`] describes.
#[verifier::external_body]
pub(crate) fn check_oid(octets: &[u8]) -> (r: bool)
    ensures
        r == is_oid(octets@),
{
    const_oid::ObjectIdentifier::from_bytes(octets).is_ok()
}

/// The identifiers that this library writes are well-formed.
pub proof fn lemma_written_oids()
    ensures
        is_oid(ID_DATA@),
        is_oid(ID_ENCRYPTED_DATA@),
        is_oid(ID_SHA_256@),
        is_oid(PKCS_12_PKCS8_KEY_BAG_OID@),
        is_oid(PKCS_12_CERT_BAG_OID@),
        is_oid(PKCS_12_X509_CERT_OID@),
        is_oid(ID_PBES2@),
{
    reveal_with_fuel(arcs_valid, 12);
}

} // verus!
