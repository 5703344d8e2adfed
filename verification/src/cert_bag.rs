//! `CertBag`: one certificate of an archive.

use crate::asn1::{
    failed, lemma_sole_element_of_tlv, lemma_split_element_of_tlv, max_der_len, read_element,
    read_sole_element, sole_element, split_element, tlv, write_element, TAG_EXPLICIT_0,
    TAG_OCTET_STRING, TAG_OID, TAG_SEQUENCE,
};
use crate::oid::{check_oid, is_oid};
use vstd::prelude::*;
use vstd::slice::slice_to_vec;

verus! {

/// A certificate and what kind of certificate it is.
#[derive(Debug)]
pub struct CertBag {
    /// The kind of certificate.
    pub cert_id: Vec<u8>,
    /// The certificate.
    pub cert_value: Vec<u8>,
}

/// The mathematical content of a [`CertBag`].
#[verifier::ext_equal]
pub struct CertBagView {
    pub cert_id: Seq<u8>,
    pub cert_value: Seq<u8>,
}

impl View for CertBag {
    type V = CertBagView;

    open spec fn view(&self) -> CertBagView {
        CertBagView { cert_id: self.cert_id@, cert_value: self.cert_value@ }
    }
}

impl CertBagView {
    /// The DER encoding.
    pub open spec fn encoding(self) -> Seq<u8> {
        tlv(
            TAG_SEQUENCE,
            tlv(TAG_OID, self.cert_id) + tlv(
                TAG_EXPLICIT_0,
                tlv(TAG_OCTET_STRING, self.cert_value),
            ),
        )
    }
}

/// The certificate bag whose SEQUENCE has the contents `body`.
pub open spec fn cert_bag_fields(body: Seq<u8>) -> Option<CertBagView> {
    match split_element(TAG_OID, body) {
        Some((cert_id, rest)) => match sole_element(TAG_EXPLICIT_0, rest) {
            Some(content) => match sole_element(TAG_OCTET_STRING, content) {
                Some(cert_value) => if is_oid(cert_id) {
                    Some(CertBagView { cert_id, cert_value })
                } else {
                    None
                },
                None => None,
            },
            None => None,
        },
        None => None,
    }
}

/// The certificate bag that `der` encodes.
pub open spec fn cert_bag_of(der: Seq<u8>) -> Option<CertBagView> {
    match sole_element(TAG_SEQUENCE, der) {
        Some(body) => cert_bag_fields(body),
        None => None,
    }
}

/// Decoding an encoded certificate bag gives it back.
pub proof fn lemma_cert_bag_round_trip(bag: CertBagView)
    requires
        is_oid(bag.cert_id),
        bag.encoding().len() <= max_der_len(),
    ensures
        cert_bag_of(bag.encoding()) == Some(bag),
{
    let octets = tlv(TAG_OCTET_STRING, bag.cert_value);
    let explicit = tlv(TAG_EXPLICIT_0, octets);
    lemma_sole_element_of_tlv(TAG_SEQUENCE, tlv(TAG_OID, bag.cert_id) + explicit);
    lemma_split_element_of_tlv(TAG_OID, bag.cert_id, explicit);
    lemma_sole_element_of_tlv(TAG_EXPLICIT_0, octets);
    lemma_sole_element_of_tlv(TAG_OCTET_STRING, bag.cert_value);
}

impl CertBag {
    /// Decodes a certificate bag.
    pub fn from_der(der: &[u8]) -> (r: Result<Self, der::Error>)
        ensures
            match r {
                Ok(bag) => cert_bag_of(der@) == Some(bag@),
                Err(_) => cert_bag_of(der@) is None,
            },
    {
        let body = read_sole_element(TAG_SEQUENCE, der)?;
        let (cert_id, rest) = read_element(TAG_OID, body)?;
        let content = read_sole_element(TAG_EXPLICIT_0, rest)?;
        let cert_value = read_sole_element(TAG_OCTET_STRING, content)?;
        if !check_oid(cert_id) {
            return Err(failed());
        }
        Ok(CertBag { cert_id: slice_to_vec(cert_id), cert_value: slice_to_vec(cert_value) })
    }

    /// Encodes the certificate bag.
    ///
    /// Fails exactly where the encoding would be too long.
    pub fn to_der(&self) -> (r: Result<Vec<u8>, der::Error>)
        ensures
            match r {
                Ok(der) => der@ == self@.encoding() && der@.len() <= max_der_len(),
                Err(_) => self@.encoding().len() > max_der_len(),
            },
    {
        let mut body: Vec<u8> = write_element(TAG_OID, self.cert_id.as_slice())?;
        let octets: Vec<u8> = write_element(TAG_OCTET_STRING, self.cert_value.as_slice())?;
        let mut explicit: Vec<u8> = write_element(TAG_EXPLICIT_0, octets.as_slice())?;
        body.append(&mut explicit);
        write_element(TAG_SEQUENCE, body.as_slice())
    }
}

} // verus!
