//! Message digests and the message authentication codes built on them.

use hmac::{Hmac, KeyInit, Mac};
use sha1::{Digest, Sha1};
use sha2::Sha256;
use vstd::prelude::*;

verus! {

/// A digest that the key derivation and the MAC of an archive can use.
#[derive(Clone, Copy, Debug, PartialEq, Eq, Structural)]
pub enum HashAlgorithm {
    /// SHA-1.
    Sha1,
    /// SHA-256.
    Sha256,
}

/// The SHA-1 digest of `data`.
pub uninterp spec fn sha1_digest(data: Seq<u8>) -> Seq<u8>;

/// The SHA-256 digest of `data`.
pub uninterp spec fn sha256_digest(data: Seq<u8>) -> Seq<u8>;

/// The HMAC-SHA-1 tag of `data` under `key`.
pub uninterp spec fn hmac_sha1_tag(key: Seq<u8>, data: Seq<u8>) -> Seq<u8>;

/// The HMAC-SHA-256 tag of `data` under `key`.
pub uninterp spec fn hmac_sha256_tag(key: Seq<u8>, data: Seq<u8>) -> Seq<u8>;

/// Size of a digest, and of a tag made with it, in octets.
pub open spec fn digest_len(alg: HashAlgorithm) -> nat {
    match alg {
        HashAlgorithm::Sha1 => 20,
        HashAlgorithm::Sha256 => 32,
    }
}

/// The digest of `data`.
pub open spec fn digest_of(alg: HashAlgorithm, data: Seq<u8>) -> Seq<u8> {
    match alg {
        HashAlgorithm::Sha1 => sha1_digest(data),
        HashAlgorithm::Sha256 => sha256_digest(data),
    }
}

/// The HMAC tag of `data` under `key`.
pub open spec fn hmac_of(alg: HashAlgorithm, key: Seq<u8>, data: Seq<u8>) -> Seq<u8> {
    match alg {
        HashAlgorithm::Sha1 => hmac_sha1_tag(key, data),
        HashAlgorithm::Sha256 => hmac_sha256_tag(key, data),
    }
}

/// Calls `sha1::Sha1::digest`.  Claimed: the digest is 20 octets long and depends
/// on the data alone.
#[verifier::external_body]
fn sha1(data: &[u8]) -> (r: Vec<u8>)
    ensures
        r@ == sha1_digest(data@),
        r@.len() == 20,
{
    Sha1::digest(data).to_vec()
}

/// Calls `sha2::Sha256::digest`.  Claimed: the digest is 32 octets long and
/// depends on the data alone.
#[verifier::external_body]
fn sha256(data: &[u8]) -> (r: Vec<u8>)
    ensures
        r@ == sha256_digest(data@),
        r@.len() == 32,
{
    Sha256::digest(data).to_vec()
}

/// Calls `hmac::Hmac::<Sha256>` to make a tag; a key of any length is accepted.
/// Claimed: the tag is 32 octets long and depends on key and data alone.
#[verifier::external_body]
pub(crate) fn hmac_sha256(key: &[u8], data: &[u8]) -> (r: Vec<u8>)
    ensures
        r@ == hmac_sha256_tag(key@, data@),
        r@.len() == 32,
{
    let mut mac = Hmac::<Sha256>::new_from_slice(key).expect("HMAC accepts keys of any length");
    mac.update(data);
    mac.finalize().into_bytes().to_vec()
}

/// Calls `verify_slice` of `hmac::Hmac::<Sha256>`, which compares in constant time.
/// Claimed: it accepts exactly the whole tag, which has 32 octets.
#[verifier::external_body]
fn hmac_sha256_verify(key: &[u8], data: &[u8], tag: &[u8]) -> (r: bool)
    ensures
        r == (tag@ == hmac_sha256_tag(key@, data@)),
        r ==> tag@.len() == 32,
{
    let mut mac = Hmac::<Sha256>::new_from_slice(key).expect("HMAC accepts keys of any length");
    mac.update(data);
    mac.verify_slice(tag).is_ok()
}

/// Calls `verify_slice` of `hmac::Hmac::<Sha1>`, which compares in constant time.
/// Claimed: it accepts exactly the whole tag, which has 20 octets.
#[verifier::external_body]
fn hmac_sha1_verify(key: &[u8], data: &[u8], tag: &[u8]) -> (r: bool)
    ensures
        r == (tag@ == hmac_sha1_tag(key@, data@)),
        r ==> tag@.len() == 20,
{
    let mut mac = Hmac::<Sha1>::new_from_slice(key).expect("HMAC accepts keys of any length");
    mac.update(data);
    mac.verify_slice(tag).is_ok()
}

/// Digests `data`.
pub fn hash(alg: HashAlgorithm, data: &[u8]) -> (r: Vec<u8>)
    ensures
        r@ == digest_of(alg, data@),
        r@.len() == digest_len(alg),
{
    match alg {
        HashAlgorithm::Sha1 => sha1(data),
        HashAlgorithm::Sha256 => sha256(data),
    }
}

/// Whether `tag` is the HMAC tag of `data` under `key`.
pub fn hmac_verify(alg: HashAlgorithm, key: &[u8], data: &[u8], tag: &[u8]) -> (r: bool)
    ensures
        r == (tag@ == hmac_of(alg, key@, data@)),
        r ==> tag@.len() == digest_len(alg),
{
    match alg {
        HashAlgorithm::Sha1 => hmac_sha1_verify(key, data, tag),
        HashAlgorithm::Sha256 => hmac_sha256_verify(key, data, tag),
    }
}

} // verus!
