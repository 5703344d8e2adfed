//! `pkcs-12PbeParams`: the parameters of the encryption schemes of PKCS#12 itself.

use crate::asn1::{
    integer_element, integer_from_der, integer_of, lemma_integer_of_element,
    lemma_sole_element_of_tlv, lemma_split_element_of_tlv, max_der_len, read_element,
    read_sole_element, sole_element, split_element, tlv, TAG_OCTET_STRING, TAG_SEQUENCE,
};
use vstd::prelude::*;
use vstd::slice::slice_to_vec;

verus! {

/// How a key and an initialization vector are derived from a password.
#[derive(Debug)]
pub struct Pkcs12PbeParams {
    /// Salt of the key derivation.
    pub salt: Vec<u8>,
    /// Iteration count of the key derivation.
    pub iterations: i32,
}

/// The mathematical content of a [`Pkcs12PbeParams`].
#[verifier::ext_equal]
pub struct Pkcs12PbeParamsView {
    pub salt: Seq<u8>,
    pub iterations: i32,
}

impl View for Pkcs12PbeParams {
    type V = Pkcs12PbeParamsView;

    open spec fn view(&self) -> Pkcs12PbeParamsView {
        Pkcs12PbeParamsView { salt: self.salt@, iterations: self.iterations }
    }
}

impl Pkcs12PbeParamsView {
    /// The DER encoding.
    pub open spec fn encoding(self) -> Seq<u8> {
        tlv(TAG_SEQUENCE, tlv(TAG_OCTET_STRING, self.salt) + integer_element(self.iterations))
    }
}

/// The parameters that `der` encodes.
pub open spec fn pbe_params_of(der: Seq<u8>) -> Option<Pkcs12PbeParamsView> {
    match sole_element(TAG_SEQUENCE, der) {
        Some(body) => match split_element(TAG_OCTET_STRING, body) {
            Some((salt, rest)) => match integer_of(rest) {
                Some(iterations) => Some(Pkcs12PbeParamsView { salt, iterations }),
                None => None,
            },
            None => None,
        },
        None => None,
    }
}

/// Decoding encoded parameters gives them back.
pub proof fn lemma_pbe_params_round_trip(params: Pkcs12PbeParamsView)
    requires
        params.encoding().len() <= max_der_len(),
    ensures
        pbe_params_of(params.encoding()) == Some(params),
{
    let count = integer_element(params.iterations);
    lemma_sole_element_of_tlv(TAG_SEQUENCE, tlv(TAG_OCTET_STRING, params.salt) + count);
    lemma_split_element_of_tlv(TAG_OCTET_STRING, params.salt, count);
    lemma_integer_of_element(params.iterations);
}

impl Pkcs12PbeParams {
    /// Decodes the parameters.
    pub fn from_der(der: &[u8]) -> (r: Result<Self, der::Error>)
        ensures
            match r {
                Ok(params) => pbe_params_of(der@) == Some(params@),
                Err(_) => pbe_params_of(der@) is None,
            },
    {
        let body = read_sole_element(TAG_SEQUENCE, der)?;
        let (salt, rest) = read_element(TAG_OCTET_STRING, body)?;
        let iterations: i32 = integer_from_der(rest)?;
        Ok(Pkcs12PbeParams { salt: slice_to_vec(salt), iterations })
    }
}

} // verus!
