//! `MacData`: what an archive's integrity rests on.

use crate::asn1::{
    integer_element, integer_from_der, integer_of, integer_to_der, lemma_split_element_inverse,
    lemma_integer_of_element, lemma_sole_element_of_tlv, lemma_split_element_of_tlv, max_der_len,
    read_element, read_sole_element, read_whole_element, sole_element, split_element, tlv,
    write_element, TAG_OCTET_STRING, TAG_OID, TAG_SEQUENCE,
};
use crate::cms::{
    algorithm_fields, algorithm_from_der, algorithm_to_der, lemma_algorithm_round_trip,
    optional_octets, AlgorithmIdentifier, AlgorithmIdentifierView,
};
use vstd::prelude::*;
use vstd::slice::slice_to_vec;

verus! {

/// A digest and the algorithm that made it.
#[derive(Debug)]
pub struct DigestInfo {
    /// The digest algorithm.
    pub algorithm: AlgorithmIdentifier,
    /// The digest, here the tag of a MAC.
    pub digest: Vec<u8>,
}

/// The MAC of an archive and how its key was derived.
#[derive(Debug)]
pub struct MacData {
    /// The tag.
    pub mac: DigestInfo,
    /// Salt of the key derivation.
    pub mac_salt: Vec<u8>,
    /// Iteration count of the key derivation.
    pub iterations: i32,
}

/// The mathematical content of a [`DigestInfo`].
#[verifier::ext_equal]
pub struct DigestInfoView {
    pub algorithm: AlgorithmIdentifierView,
    pub digest: Seq<u8>,
}

/// The mathematical content of a [`MacData`].
#[verifier::ext_equal]
pub struct MacDataView {
    pub mac: DigestInfoView,
    pub mac_salt: Seq<u8>,
    pub iterations: i32,
}

impl View for DigestInfo {
    type V = DigestInfoView;

    open spec fn view(&self) -> DigestInfoView {
        DigestInfoView { algorithm: self.algorithm@, digest: self.digest@ }
    }
}

impl View for MacData {
    type V = MacDataView;

    open spec fn view(&self) -> MacDataView {
        MacDataView { mac: self.mac@, mac_salt: self.mac_salt@, iterations: self.iterations }
    }
}

impl DigestInfoView {
    /// The contents of the SEQUENCE.
    pub open spec fn fields(self) -> Seq<u8> {
        self.algorithm.encoding() + tlv(TAG_OCTET_STRING, self.digest)
    }

    /// The DER encoding.
    pub open spec fn encoding(self) -> Seq<u8> {
        tlv(TAG_SEQUENCE, self.fields())
    }
}

impl MacDataView {
    /// The contents of the SEQUENCE; the iteration count one is the default and left
    /// out.
    pub open spec fn fields(self) -> Seq<u8> {
        self.mac.encoding() + (tlv(TAG_OCTET_STRING, self.mac_salt) + (if self.iterations == 1 {
            Seq::empty()
        } else {
            integer_element(self.iterations)
        }))
    }

    /// The DER encoding.
    pub open spec fn encoding(self) -> Seq<u8> {
        tlv(TAG_SEQUENCE, self.fields())
    }
}

/// The digest whose SEQUENCE has the contents `body`.
pub open spec fn digest_info_fields(body: Seq<u8>) -> Option<DigestInfoView> {
    match split_element(TAG_SEQUENCE, body) {
        Some((alg_body, rest)) => match (
            algorithm_fields(alg_body),
            sole_element(TAG_OCTET_STRING, rest),
        ) {
            (Some(algorithm), Some(digest)) => Some(DigestInfoView { algorithm, digest }),
            _ => None,
        },
        None => None,
    }
}

/// The iteration count field: one where it is absent, else an INTEGER and nothing
/// behind it.
pub open spec fn iterations_of(der: Seq<u8>) -> Option<i32> {
    if der.len() == 0 {
        Some(1i32)
    } else {
        integer_of(der)
    }
}

/// The MAC data that `der` encodes.
pub open spec fn mac_data_of(der: Seq<u8>) -> Option<MacDataView> {
    match sole_element(TAG_SEQUENCE, der) {
        Some(body) => match split_element(TAG_SEQUENCE, body) {
            Some((mac_body, rest)) => match split_element(TAG_OCTET_STRING, rest) {
                Some((mac_salt, rest)) => match (
                    digest_info_fields(mac_body),
                    iterations_of(rest),
                ) {
                    (Some(mac), Some(iterations)) => Some(
                        MacDataView { mac, mac_salt, iterations },
                    ),
                    _ => None,
                },
                None => None,
            },
            None => None,
        },
        None => None,
    }
}

/// Decoding encoded MAC data gives it back.
pub proof fn lemma_mac_data_round_trip(data: MacDataView)
    requires
        data.mac.algorithm.wf(),
        data.encoding().len() <= max_der_len(),
    ensures
        mac_data_of(data.encoding()) == Some(data),
{
    let alg = data.mac.algorithm;
    let alg_body = tlv(TAG_OID, alg.oid) + optional_octets(alg.parameters);
    let digest = tlv(TAG_OCTET_STRING, data.mac.digest);
    let count = if data.iterations == 1 {
        Seq::empty()
    } else {
        integer_element(data.iterations)
    };
    lemma_sole_element_of_tlv(TAG_SEQUENCE, data.fields());
    lemma_split_element_of_tlv(
        TAG_SEQUENCE,
        data.mac.fields(),
        tlv(TAG_OCTET_STRING, data.mac_salt) + count,
    );
    lemma_split_element_of_tlv(TAG_OCTET_STRING, data.mac_salt, count);
    lemma_split_element_of_tlv(TAG_SEQUENCE, alg_body, digest);
    lemma_sole_element_of_tlv(TAG_OCTET_STRING, data.mac.digest);
    lemma_algorithm_round_trip(alg);
    lemma_integer_of_element(data.iterations);
}

impl DigestInfo {
    /// Decodes a digest from the contents of its SEQUENCE.
    fn from_fields(body: &[u8]) -> (r: Result<Self, der::Error>)
        ensures
            match r {
                Ok(info) => digest_info_fields(body@) == Some(info@),
                Err(_) => digest_info_fields(body@) is None,
            },
    {
        let (alg_der, rest) = read_whole_element(TAG_SEQUENCE, body)?;
        proof {
            lemma_split_element_inverse(TAG_SEQUENCE, body@);
            let (alg_body, _) = split_element(TAG_SEQUENCE, body@)->0;
            lemma_sole_element_of_tlv(TAG_SEQUENCE, alg_body);
        }
        let algorithm = algorithm_from_der(alg_der)?;
        let digest = read_sole_element(TAG_OCTET_STRING, rest)?;
        Ok(DigestInfo { algorithm, digest: slice_to_vec(digest) })
    }

    /// Encodes the digest.
    ///
    /// Fails exactly where the encoding would be too long.
    pub fn to_der(&self) -> (r: Result<Vec<u8>, der::Error>)
        requires
            self.algorithm@.wf(),
        ensures
            match r {
                Ok(der) => der@ == self@.encoding() && der@.len() <= max_der_len(),
                Err(_) => self@.encoding().len() > max_der_len(),
            },
    {
        let mut body: Vec<u8> = algorithm_to_der(&self.algorithm)?;
        let mut digest: Vec<u8> = write_element(TAG_OCTET_STRING, self.digest.as_slice())?;
        body.append(&mut digest);
        write_element(TAG_SEQUENCE, body.as_slice())
    }
}

impl MacData {
    /// Decodes MAC data.
    pub fn from_der(der: &[u8]) -> (r: Result<Self, der::Error>)
        ensures
            match r {
                Ok(data) => mac_data_of(der@) == Some(data@),
                Err(_) => mac_data_of(der@) is None,
            },
    {
        let body = read_sole_element(TAG_SEQUENCE, der)?;
        let (mac_body, rest) = read_element(TAG_SEQUENCE, body)?;
        let (mac_salt, rest) = read_element(TAG_OCTET_STRING, rest)?;
        let mac = DigestInfo::from_fields(mac_body)?;
        let iterations: i32 = if rest.len() == 0 {
            1
        } else {
            integer_from_der(rest)?
        };
        Ok(MacData { mac, mac_salt: slice_to_vec(mac_salt), iterations })
    }

    /// Encodes the MAC data.
    ///
    /// Fails exactly where the encoding would be too long.
    pub fn to_der(&self) -> (r: Result<Vec<u8>, der::Error>)
        requires
            self.mac.algorithm@.wf(),
        ensures
            match r {
                Ok(der) => der@ == self@.encoding() && der@.len() <= max_der_len(),
                Err(_) => self@.encoding().len() > max_der_len(),
            },
    {
        let mut body: Vec<u8> = self.mac.to_der()?;
        let mut salt: Vec<u8> = write_element(TAG_OCTET_STRING, self.mac_salt.as_slice())?;
        body.append(&mut salt);
        if self.iterations != 1 {
            let mut count: Vec<u8> = integer_to_der(self.iterations)?;
            body.append(&mut count);
        }
        assert(body@ =~= self@.fields());
        write_element(TAG_SEQUENCE, body.as_slice())
    }
}

} // verus!
