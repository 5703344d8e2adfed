//! Password-based encryption by PKCS#5, and the private keys encrypted with it.

use crate::asn1::{
    bytes_equal, integer_element, integer_octets, is_element, lemma_integer_octets_injective,
    lemma_sole_element_of_tlv, lemma_split_element_inverse, lemma_split_element_of_tlv,
    lemma_tlv_injective, lemma_tlv_is_element, lemma_tlv_len, max_der_len, read_element,
    read_sole_element, read_whole_element, sole_element, split_element, tlv, TAG_INTEGER,
    TAG_OCTET_STRING, TAG_OID, TAG_SEQUENCE,
};
use crate::cms::{
    algorithm_fields, algorithm_from_der, algorithm_of, lemma_algorithm_round_trip,
    AlgorithmIdentifier, AlgorithmIdentifierView,
};
use crate::oid::{
    lemma_written_oids, ID_AES128_CBC, ID_AES128_GCM, ID_AES192_CBC, ID_AES256_CBC, ID_AES256_GCM,
    ID_DES_EDE3_CBC, ID_HMAC_WITH_SHA1, ID_HMAC_WITH_SHA224, ID_HMAC_WITH_SHA256,
    ID_HMAC_WITH_SHA384, ID_HMAC_WITH_SHA512, ID_PBES2, ID_PBKDF2, ID_SCRYPT,
};
use der::{Decode, Encode};
use pkcs5::EncryptionScheme;
use pkcs5::Error as Pkcs5Error;
use vstd::prelude::*;
use zeroize::Zeroizing;

verus! {

/// The error of the `pkcs5` crate, carried through as it is.
#[verifier::external_type_specification]
#[verifier::external_body]
pub struct ExPkcs5Error(Pkcs5Error);

/// The failures of decryption that this library finds by itself.
#[derive(Clone, Copy, Debug, PartialEq, Eq, Structural)]
pub enum CipherFault {
    /// The ciphertext does not decrypt.
    DecryptFailed,
    /// The parameters ask for the impossible.
    Parameters,
}

/// Makes the `pkcs5` error that stands for a fault.
#[verifier::external_body]
pub(crate) fn cipher_error(fault: CipherFault) -> pkcs5::Error {
    match fault {
        CipherFault::DecryptFailed => pkcs5::Error::DecryptFailed,
        CipherFault::Parameters => pkcs5::Error::AlgorithmParametersInvalid {
            oid: pkcs5::pbes2::SCRYPT_OID,
        },
    }
}

/// Size of the salts that are written, in octets.
pub const PBKDF2_SALT_LEN: usize = 16;

/// Size of the AES initialization vectors, in octets.
pub const AES_IV_LEN: usize = 16;

/// The largest iteration count that PBKDF2 is asked for.
pub const MAX_ITERATIONS: u32 = 100_000_000;

/// PBES2 parameters with PBKDF2 over HMAC-SHA-256, and AES-256 in CBC mode.
#[derive(Debug)]
pub struct Pbes2Parameters {
    /// PBKDF2 iteration count.
    pub iterations: u32,
    /// PBKDF2 salt.
    pub salt: [u8; PBKDF2_SALT_LEN],
    /// Initialization vector.
    pub iv: [u8; AES_IV_LEN],
}

impl Pbes2Parameters {
    /// Whether the iteration count is within bounds.
    pub open spec fn wf(self) -> bool {
        self.iterations <= MAX_ITERATIONS
    }

    /// The contents of the key derivation's SEQUENCE.
    pub open spec fn kdf_fields(self) -> Seq<u8> {
        tlv(TAG_OID, ID_PBKDF2@) + tlv(
            TAG_SEQUENCE,
            tlv(TAG_OCTET_STRING, self.salt@) + (integer_element(self.iterations as i32) + tlv(
                TAG_SEQUENCE,
                tlv(TAG_OID, ID_HMAC_WITH_SHA256@) + seq![0x05u8, 0x00u8],
            )),
        )
    }

    /// The contents of the cipher's SEQUENCE.
    pub open spec fn cipher_fields(self) -> Seq<u8> {
        tlv(TAG_OID, ID_AES256_CBC@) + tlv(TAG_OCTET_STRING, self.iv@)
    }

    /// The DER encoding of the parameters.
    pub open spec fn encoding(self) -> Seq<u8> {
        tlv(
            TAG_SEQUENCE,
            tlv(TAG_SEQUENCE, self.kdf_fields()) + tlv(TAG_SEQUENCE, self.cipher_fields()),
        )
    }

    /// The algorithm identifier of PBES2 with these parameters.
    pub open spec fn algorithm(self) -> AlgorithmIdentifierView {
        AlgorithmIdentifierView { oid: ID_PBES2@, parameters: Some(self.encoding()) }
    }

    /// The DER encoding of an `EncryptedPrivateKeyInfo` with these parameters.
    pub open spec fn encrypted_key(self, ciphertext: Seq<u8>) -> Seq<u8> {
        tlv(TAG_SEQUENCE, self.algorithm().encoding() + tlv(TAG_OCTET_STRING, ciphertext))
    }
}

/// What decoding PBES2 parameters tells: nothing where `der` does not encode any,
/// else the cost `N`, the block size `r` and the parallelization `p` where the key
/// derivation is scrypt.
pub uninterp spec fn pbes2_parameters_of(der: Seq<u8>) -> Option<Option<(u64, u16, u16)>>;

/// The ciphertext of `plaintext` under the PBES2 parameters that `params` encodes.
pub uninterp spec fn pbes2_ciphertext(
    params: Seq<u8>,
    password: Seq<u8>,
    plaintext: Seq<u8>,
) -> Seq<u8>;

/// The plaintext of `ciphertext` under the PBES2 parameters that `params` encodes,
/// where it decrypts.
pub uninterp spec fn pbes2_plaintext(
    params: Seq<u8>,
    password: Seq<u8>,
    ciphertext: Seq<u8>,
) -> Option<Seq<u8>>;

/// The fields of an `EncryptedPrivateKeyInfo`: the encoding of its PBES2 parameters,
/// absent under PBES1, and the ciphertext.
pub uninterp spec fn encrypted_key_of(der: Seq<u8>) -> Option<(Option<Seq<u8>>, Seq<u8>)>;

/// The key derivations that can stand in PBES2 parameters here.
pub open spec fn known_kdf(oid: Seq<u8>) -> bool {
    oid == ID_PBKDF2@ || oid == ID_SCRYPT@
}

/// The functions that PBKDF2 can iterate here.
pub open spec fn known_prf(oid: Seq<u8>) -> bool {
    ||| oid == ID_HMAC_WITH_SHA1@
    ||| oid == ID_HMAC_WITH_SHA224@
    ||| oid == ID_HMAC_WITH_SHA256@
    ||| oid == ID_HMAC_WITH_SHA384@
    ||| oid == ID_HMAC_WITH_SHA512@
}

/// The ciphers that can stand in PBES2 parameters here.
pub open spec fn known_cipher(oid: Seq<u8>) -> bool {
    ||| oid == ID_AES128_CBC@
    ||| oid == ID_AES192_CBC@
    ||| oid == ID_AES256_CBC@
    ||| oid == ID_AES128_GCM@
    ||| oid == ID_AES256_GCM@
    ||| oid == ID_DES_EDE3_CBC@
}

/// The key derivation and the cipher that PBES2 parameters name.
pub open spec fn pbes2_algorithms(params: Seq<u8>) -> Option<
    (AlgorithmIdentifierView, AlgorithmIdentifierView),
> {
    match sole_element(TAG_SEQUENCE, params) {
        Some(body) => match split_element(TAG_SEQUENCE, body) {
            Some((kdf, rest)) => match (algorithm_fields(kdf), algorithm_of(rest)) {
                (Some(kdf), Some(cipher)) => Some((kdf, cipher)),
                _ => None,
            },
            None => None,
        },
        None => None,
    }
}

/// The function that PBKDF2 parameters name, where they name one: behind the salt, the
/// iteration count and an optional key length.
pub open spec fn pbkdf2_prf(params: Seq<u8>) -> Option<AlgorithmIdentifierView> {
    match sole_element(TAG_SEQUENCE, params) {
        Some(body) => match split_element(TAG_OCTET_STRING, body) {
            Some((_, rest)) => match split_element(TAG_INTEGER, rest) {
                Some((_, rest)) => match split_element(TAG_INTEGER, rest) {
                    Some((_, rest)) => algorithm_of(rest),
                    None => algorithm_of(rest),
                },
                None => None,
            },
            None => None,
        },
        None => None,
    }
}

/// Whether PBES2 parameters name a key derivation, a function for it or a cipher that is
/// not known here.
pub open spec fn names_unknown_algorithm(params: Seq<u8>) -> bool {
    &&& pbes2_algorithms(params) matches Some((kdf, cipher))
    &&& {
        ||| !known_kdf(kdf.oid)
        ||| !known_cipher(cipher.oid)
        ||| kdf.oid == ID_PBKDF2@ && kdf.parameters is Some && (pbkdf2_prf(
            kdf.parameters->0,
        ) matches Some(prf) && !known_prf(prf.oid))
    }
}

/// The algorithm and the ciphertext of the `EncryptedPrivateKeyInfo` that `der` encodes,
/// whatever the algorithm is.
pub open spec fn encrypted_key_fields(der: Seq<u8>) -> Option<
    (AlgorithmIdentifierView, Seq<u8>),
> {
    match sole_element(TAG_SEQUENCE, der) {
        Some(body) => match split_element(TAG_SEQUENCE, body) {
            Some((alg_body, rest)) => match (
                algorithm_fields(alg_body),
                sole_element(TAG_OCTET_STRING, rest),
            ) {
                (Some(alg), Some(ciphertext)) => Some((alg, ciphertext)),
                _ => None,
            },
            None => None,
        },
        None => None,
    }
}

/// The size of a plaintext's ciphertext: whole AES blocks, with at least one octet of
/// padding.
pub open spec fn padded_len(len: nat) -> nat {
    (len / 16 + 1) * 16
}

/// Whether `der` starts with PBES2 parameters that name Triple-DES with an
/// initialization vector shorter than a block.
pub open spec fn short_des_iv(der: Seq<u8>) -> bool {
    &&& split_element(TAG_SEQUENCE, der) matches Some((body, _))
    &&& split_element(TAG_SEQUENCE, body) matches Some((_, rest))
    &&& split_element(TAG_SEQUENCE, rest) matches Some((cipher, _))
    &&& split_element(TAG_OID, cipher) matches Some((oid, iv_der))
    &&& oid == ID_DES_EDE3_CBC@
    &&& split_element(TAG_OCTET_STRING, iv_der) matches Some((iv, _))
    &&& iv.len() < 8
}

/// Whether the PBES2 parameters of an `EncryptedPrivateKeyInfo` have [`short_des_iv`].
pub open spec fn key_with_short_des_iv(der: Seq<u8>) -> bool {
    &&& split_element(TAG_SEQUENCE, der) matches Some((body, _))
    &&& split_element(TAG_SEQUENCE, body) matches Some((alg, _))
    &&& split_element(TAG_OID, alg) matches Some((oid, params))
    &&& oid == ID_PBES2@
    &&& short_des_iv(params)
}

/// Whether the memory that a key derivation asks for can be asked for at all.
pub open spec fn affordable(scrypt: Option<(u64, u16, u16)>) -> bool {
    match scrypt {
        Some((n, r, p)) => n > 0 && 128 * r * n <= isize::MAX && 128 * r * p <= isize::MAX,
        None => true,
    }
}

/// The parameters that are written have a short encoding, which names known algorithms
/// and no Triple-DES.
pub proof fn lemma_written_parameters(params: Pbes2Parameters)
    ensures
        params.encoding().len() <= 200,
        is_element(params.encoding()),
        !names_unknown_algorithm(params.encoding()),
        !short_des_iv(params.encoding()),
{
    let prf = tlv(TAG_OID, ID_HMAC_WITH_SHA256@) + seq![0x05u8, 0x00u8];
    let count = integer_element(params.iterations as i32);
    let kdf_params = tlv(TAG_OCTET_STRING, params.salt@) + (count + tlv(TAG_SEQUENCE, prf));
    lemma_tlv_len(TAG_OID, ID_HMAC_WITH_SHA256@);
    lemma_tlv_len(TAG_SEQUENCE, prf);
    lemma_tlv_len(TAG_INTEGER, integer_octets(params.iterations as i32));
    lemma_tlv_len(TAG_OCTET_STRING, params.salt@);
    lemma_tlv_len(TAG_SEQUENCE, kdf_params);
    lemma_tlv_len(TAG_OID, ID_PBKDF2@);
    lemma_tlv_len(TAG_SEQUENCE, params.kdf_fields());
    lemma_tlv_len(TAG_OCTET_STRING, params.iv@);
    lemma_tlv_len(TAG_OID, ID_AES256_CBC@);
    lemma_tlv_len(TAG_SEQUENCE, params.cipher_fields());
    let cipher = tlv(TAG_SEQUENCE, params.cipher_fields());
    let body = tlv(TAG_SEQUENCE, params.kdf_fields()) + cipher;
    lemma_tlv_len(TAG_SEQUENCE, body);
    lemma_tlv_is_element(TAG_SEQUENCE, body);
    assert(tlv(TAG_SEQUENCE, body) + Seq::<u8>::empty() =~= tlv(TAG_SEQUENCE, body));
    lemma_split_element_of_tlv(TAG_SEQUENCE, body, Seq::empty());
    lemma_split_element_of_tlv(TAG_SEQUENCE, params.kdf_fields(), cipher);
    assert(cipher + Seq::<u8>::empty() =~= cipher);
    lemma_split_element_of_tlv(TAG_SEQUENCE, params.cipher_fields(), Seq::empty());
    lemma_split_element_of_tlv(TAG_OID, ID_AES256_CBC@, tlv(TAG_OCTET_STRING, params.iv@));
    assert(ID_AES256_CBC@.len() != ID_DES_EDE3_CBC@.len());
    lemma_split_element_of_tlv(TAG_OID, ID_PBKDF2@, tlv(TAG_SEQUENCE, kdf_params));
    lemma_sole_element_of_tlv(TAG_SEQUENCE, kdf_params);
    lemma_split_element_of_tlv(TAG_OCTET_STRING, params.salt@, count + tlv(TAG_SEQUENCE, prf));
    lemma_split_element_of_tlv(
        TAG_INTEGER,
        integer_octets(params.iterations as i32),
        tlv(TAG_SEQUENCE, prf),
    );
    lemma_split_element_inverse(TAG_INTEGER, tlv(TAG_SEQUENCE, prf));
    assert(tlv(TAG_SEQUENCE, prf)[0] == TAG_SEQUENCE);
    assert(split_element(TAG_INTEGER, tlv(TAG_SEQUENCE, prf)) is None) by {
        if split_element(TAG_INTEGER, tlv(TAG_SEQUENCE, prf)) is Some {
            let (value, rest) = split_element(TAG_INTEGER, tlv(TAG_SEQUENCE, prf))->0;
            assert((tlv(TAG_INTEGER, value) + rest)[0] == TAG_INTEGER);
        }
    }
    lemma_sole_element_of_tlv(TAG_SEQUENCE, prf);
    lemma_split_element_of_tlv(TAG_OID, ID_HMAC_WITH_SHA256@, seq![0x05u8, 0x00u8]);
}

/// The encrypted keys that are written decode to their fields, and name no Triple-DES.
pub proof fn lemma_written_key(params: Pbes2Parameters, ciphertext: Seq<u8>)
    requires
        params.encrypted_key(ciphertext).len() <= max_der_len(),
    ensures
        encrypted_key_fields(params.encrypted_key(ciphertext)) == Some(
            (params.algorithm(), ciphertext),
        ),
        !key_with_short_des_iv(params.encrypted_key(ciphertext)),
{
    lemma_written_oids();
    lemma_written_parameters(params);
    lemma_tlv_len(TAG_SEQUENCE, params.algorithm().encoding() + tlv(TAG_OCTET_STRING, ciphertext));
    lemma_algorithm_round_trip(params.algorithm());
    lemma_sole_element_of_tlv(TAG_OCTET_STRING, ciphertext);
    let data = tlv(TAG_OCTET_STRING, ciphertext);
    let alg = tlv(TAG_OID, ID_PBES2@) + params.encoding();
    let body = tlv(TAG_SEQUENCE, alg) + data;
    let key = tlv(TAG_SEQUENCE, body);
    assert(key + Seq::<u8>::empty() =~= key);
    lemma_split_element_of_tlv(TAG_SEQUENCE, body, Seq::empty());
    lemma_split_element_of_tlv(TAG_SEQUENCE, alg, data);
    lemma_split_element_of_tlv(TAG_OID, ID_PBES2@, params.encoding());
}

/// The encoding of parameters determines them: what is decoded from it can be no other
/// parameters.
pub proof fn law_parameters_encoding_injective(p: Pbes2Parameters, q: Pbes2Parameters)
    requires
        p.wf(),
        q.wf(),
        p.encoding() == q.encoding(),
    ensures
        p == q,
{
    lemma_written_parameters(p);
    lemma_written_parameters(q);
    let empty = Seq::<u8>::empty();
    let prf = tlv(TAG_SEQUENCE, tlv(TAG_OID, ID_HMAC_WITH_SHA256@) + seq![0x05u8, 0x00u8]);
    let (p_count, q_count) = (p.iterations as i32, q.iterations as i32);
    let p_rest = integer_element(p_count) + prf;
    let q_rest = integer_element(q_count) + prf;
    let p_kdf = tlv(TAG_OCTET_STRING, p.salt@) + p_rest;
    let q_kdf = tlv(TAG_OCTET_STRING, q.salt@) + q_rest;
    let p_cipher = tlv(TAG_SEQUENCE, p.cipher_fields());
    let q_cipher = tlv(TAG_SEQUENCE, q.cipher_fields());
    let p_body = tlv(TAG_SEQUENCE, p.kdf_fields()) + p_cipher;
    let q_body = tlv(TAG_SEQUENCE, q.kdf_fields()) + q_cipher;
    assert(tlv(TAG_SEQUENCE, p_body) + empty =~= tlv(TAG_SEQUENCE, q_body) + empty);
    lemma_tlv_injective(TAG_SEQUENCE, p_body, empty, q_body, empty);
    lemma_tlv_injective(TAG_SEQUENCE, p.kdf_fields(), p_cipher, q.kdf_fields(), q_cipher);
    assert(p_cipher + empty =~= q_cipher + empty);
    lemma_tlv_injective(TAG_SEQUENCE, p.cipher_fields(), empty, q.cipher_fields(), empty);
    let p_iv = tlv(TAG_OCTET_STRING, p.iv@);
    let q_iv = tlv(TAG_OCTET_STRING, q.iv@);
    lemma_tlv_injective(TAG_OID, ID_AES256_CBC@, p_iv, ID_AES256_CBC@, q_iv);
    assert(p_iv + empty =~= q_iv + empty);
    lemma_tlv_injective(TAG_OCTET_STRING, p.iv@, empty, q.iv@, empty);
    let p_params = tlv(TAG_SEQUENCE, p_kdf);
    let q_params = tlv(TAG_SEQUENCE, q_kdf);
    lemma_tlv_injective(TAG_OID, ID_PBKDF2@, p_params, ID_PBKDF2@, q_params);
    assert(p_params + empty =~= q_params + empty);
    lemma_tlv_injective(TAG_SEQUENCE, p_kdf, empty, q_kdf, empty);
    lemma_tlv_injective(TAG_OCTET_STRING, p.salt@, p_rest, q.salt@, q_rest);
    lemma_tlv_injective(TAG_INTEGER, integer_octets(p_count), prf, integer_octets(q_count), prf);
    lemma_integer_octets_injective(p_count, q_count);
    assert(p.salt =~= q.salt);
    assert(p.iv =~= q.iv);
}

/// The encoding of a scheme's algorithm identifier determines the scheme.
pub proof fn law_scheme_encoding_injective(p: Pbes2Parameters, q: Pbes2Parameters)
    requires
        p.wf(),
        q.wf(),
        p.algorithm().encoding() == q.algorithm().encoding(),
    ensures
        p == q,
{
    lemma_written_oids();
    lemma_written_parameters(p);
    lemma_written_parameters(q);
    lemma_tlv_len(TAG_OID, ID_PBES2@);
    lemma_tlv_len(TAG_SEQUENCE, tlv(TAG_OID, ID_PBES2@) + p.encoding());
    lemma_tlv_len(TAG_SEQUENCE, tlv(TAG_OID, ID_PBES2@) + q.encoding());
    lemma_algorithm_round_trip(p.algorithm());
    lemma_algorithm_round_trip(q.algorithm());
    law_parameters_encoding_injective(p, q);
}

/// Reads the algorithm and the ciphertext of an `EncryptedPrivateKeyInfo`.
pub(crate) fn read_encrypted_key_fields<'a>(der: &'a [u8]) -> (r: Result<
    (AlgorithmIdentifier, &'a [u8]),
    der::Error,
>)
    ensures
        match r {
            Ok((alg, ciphertext)) => encrypted_key_fields(der@) == Some((alg@, ciphertext@)),
            Err(_) => encrypted_key_fields(der@) is None,
        },
{
    let body = read_sole_element(TAG_SEQUENCE, der)?;
    let (alg_der, rest) = read_whole_element(TAG_SEQUENCE, body)?;
    proof {
        lemma_split_element_inverse(TAG_SEQUENCE, body@);
        let (alg_body, _) = split_element(TAG_SEQUENCE, body@)->0;
        lemma_sole_element_of_tlv(TAG_SEQUENCE, alg_body);
    }
    let alg = algorithm_from_der(alg_der)?;
    let ciphertext = read_sole_element(TAG_OCTET_STRING, rest)?;
    Ok((alg, ciphertext))
}

/// Whether PBES2 parameters name an algorithm that is not known here.
pub fn has_unknown_algorithm(params: &[u8]) -> (r: bool)
    ensures
        r == names_unknown_algorithm(params@),
{
    match read_pbes2_algorithms(params) {
        Some((kdf, cipher)) => {
            if !is_known_kdf(kdf.oid.as_slice()) || !is_known_cipher(cipher.oid.as_slice()) {
                return true;
            }
            match &kdf.parameters {
                Some(der) => if bytes_equal(kdf.oid.as_slice(), ID_PBKDF2.as_slice()) {
                    match read_pbkdf2_prf(der.as_slice()) {
                        Some(prf) => !is_known_prf(prf.oid.as_slice()),
                        None => false,
                    }
                } else {
                    false
                },
                None => false,
            }
        },
        None => false,
    }
}

/// Whether a key derivation is known here.
fn is_known_kdf(oid: &[u8]) -> (r: bool)
    ensures
        r == known_kdf(oid@),
{
    bytes_equal(oid, ID_PBKDF2.as_slice()) || bytes_equal(oid, ID_SCRYPT.as_slice())
}

/// Whether a function for PBKDF2 is known here.
fn is_known_prf(oid: &[u8]) -> (r: bool)
    ensures
        r == known_prf(oid@),
{
    bytes_equal(oid, ID_HMAC_WITH_SHA1.as_slice()) || bytes_equal(
        oid,
        ID_HMAC_WITH_SHA224.as_slice(),
    ) || bytes_equal(oid, ID_HMAC_WITH_SHA256.as_slice()) || bytes_equal(
        oid,
        ID_HMAC_WITH_SHA384.as_slice(),
    ) || bytes_equal(oid, ID_HMAC_WITH_SHA512.as_slice())
}

/// Whether a cipher is known here.
fn is_known_cipher(oid: &[u8]) -> (r: bool)
    ensures
        r == known_cipher(oid@),
{
    bytes_equal(oid, ID_AES128_CBC.as_slice()) || bytes_equal(oid, ID_AES192_CBC.as_slice())
        || bytes_equal(oid, ID_AES256_CBC.as_slice()) || bytes_equal(oid, ID_AES128_GCM.as_slice())
        || bytes_equal(oid, ID_AES256_GCM.as_slice()) || bytes_equal(
        oid,
        ID_DES_EDE3_CBC.as_slice(),
    )
}

/// Reads the key derivation and the cipher that PBES2 parameters name.
fn read_pbes2_algorithms(params: &[u8]) -> (r: Option<(AlgorithmIdentifier, AlgorithmIdentifier)>)
    ensures
        match r {
            Some((kdf, cipher)) => pbes2_algorithms(params@) == Some((kdf@, cipher@)),
            None => pbes2_algorithms(params@) is None,
        },
{
    if let Ok(body) = read_sole_element(TAG_SEQUENCE, params) {
        if let Ok((kdf_der, rest)) = read_whole_element(TAG_SEQUENCE, body) {
            proof {
                lemma_split_element_inverse(TAG_SEQUENCE, body@);
                let (kdf_body, _) = split_element(TAG_SEQUENCE, body@)->0;
                lemma_sole_element_of_tlv(TAG_SEQUENCE, kdf_body);
            }
            if let Ok(kdf) = algorithm_from_der(kdf_der) {
                if let Ok(cipher) = algorithm_from_der(rest) {
                    return Some((kdf, cipher));
                }
            }
        }
    }
    None
}

/// Reads the function that PBKDF2 parameters name.
fn read_pbkdf2_prf(params: &[u8]) -> (r: Option<AlgorithmIdentifier>)
    ensures
        match r {
            Some(prf) => pbkdf2_prf(params@) == Some(prf@),
            None => pbkdf2_prf(params@) is None,
        },
{
    if let Ok(body) = read_sole_element(TAG_SEQUENCE, params) {
        if let Ok((_, rest)) = read_element(TAG_OCTET_STRING, body) {
            if let Ok((_, rest)) = read_element(TAG_INTEGER, rest) {
                let rest: &[u8] = match read_element(TAG_INTEGER, rest) {
                    Ok((_, rest)) => rest,
                    Err(_) => rest,
                };
                if let Ok(prf) = algorithm_from_der(rest) {
                    return Some(prf);
                }
            }
        }
    }
    None
}

/// Whether `der` starts with PBES2 parameters whose Triple-DES initialization vector
/// is too short.
pub(crate) fn has_short_des_iv(der: &[u8]) -> (r: bool)
    ensures
        r == short_des_iv(der@),
{
    if let Ok((body, _)) = read_element(TAG_SEQUENCE, der) {
        if let Ok((_, rest)) = read_element(TAG_SEQUENCE, body) {
            if let Ok((cipher, _)) = read_element(TAG_SEQUENCE, rest) {
                if let Ok((oid, iv_der)) = read_element(TAG_OID, cipher) {
                    if bytes_equal(oid, ID_DES_EDE3_CBC.as_slice()) {
                        if let Ok((iv, _)) = read_element(TAG_OCTET_STRING, iv_der) {
                            return iv.len() < 8;
                        }
                    }
                }
            }
        }
    }
    false
}

/// Whether the parameters of an `EncryptedPrivateKeyInfo` have a Triple-DES
/// initialization vector that is too short.
pub(crate) fn has_key_with_short_des_iv(der: &[u8]) -> (r: bool)
    ensures
        r == key_with_short_des_iv(der@),
{
    if let Ok((body, _)) = read_element(TAG_SEQUENCE, der) {
        if let Ok((alg, _)) = read_element(TAG_SEQUENCE, body) {
            if let Ok((oid, params)) = read_element(TAG_OID, alg) {
                return bytes_equal(oid, ID_PBES2.as_slice()) && has_short_des_iv(params);
            }
        }
    }
    false
}

/// Whether the memory that a key derivation asks for can be asked for.
pub(crate) fn is_affordable(scrypt: Option<(u64, u16, u16)>) -> (r: bool)
    ensures
        r == affordable(scrypt),
{
    match scrypt {
        Some((n, r, p)) => {
            let block: u128 = 128 * r as u128;
            let (n, p) = (n as u128, p as u128);
            assert(block * n <= 0x80_0000 * 0xffff_ffff_ffff_ffff) by (nonlinear_arith)
                requires
                    block <= 0x80_0000,
                    n <= 0xffff_ffff_ffff_ffff,
            ;
            assert(block * p <= 0x80_0000 * 0xffff) by (nonlinear_arith)
                requires
                    block <= 0x80_0000,
                    p <= 0xffff,
            ;
            n > 0 && block * n <= isize::MAX as u128 && block * p <= isize::MAX as u128
        },
        None => true,
    }
}

/// Calls `from_der` of `pkcs5::pbes2::Parameters`.  Claimed: what it tells depends on
/// the octets alone.  It would index out of bounds on a Triple-DES initialization
/// vector of fewer than eight octets.
#[verifier::external_body]
pub(crate) fn pbes2_from_der(der: &[u8]) -> (r: Result<Option<(u64, u16, u16)>, der::Error>)
    requires
        !short_des_iv(der@),
    ensures
        match r {
            Ok(scrypt) => pbes2_parameters_of(der@) == Some(scrypt),
            Err(_) => pbes2_parameters_of(der@) is None,
        },
{
    let params = pkcs5::pbes2::Parameters::from_der(der)?;
    Ok(params.kdf.scrypt().map(|s| (s.cost_parameter, s.block_size, s.parallelization)))
}

/// Calls `decrypt_in_place` of `pkcs5::EncryptionScheme` for the PBES2 parameters that
/// `params` encodes.  Claimed: the outcome depends on the arguments alone.  It would
/// panic on a scrypt cost of zero, and on buffers larger than any allocation.
#[verifier::external_body]
pub(crate) fn pbes2_decrypt(params: &[u8], password: &[u8], ciphertext: &[u8]) -> (r: Result<
    Vec<u8>,
    pkcs5::Error,
>)
    requires
        !short_des_iv(params@),
        pbes2_parameters_of(params@) matches Some(scrypt) && affordable(scrypt),
    ensures
        match r {
            Ok(plaintext) => pbes2_plaintext(params@, password@, ciphertext@) == Some(plaintext@),
            Err(_) => pbes2_plaintext(params@, password@, ciphertext@) is None,
        },
{
    let params = pkcs5::pbes2::Parameters::from_der(params)
        .map_err(|_| pkcs5::Error::DecryptFailed)?;
    let mut buf = Zeroizing::new(ciphertext.to_vec());
    Ok(EncryptionScheme::from(params).decrypt_in_place(password, &mut buf)?.to_vec())
}

/// Calls `generate_pbkdf2_sha256_aes256cbc` and `encrypt` of
/// `pkcs5::pbes2::Parameters`.  Claimed: they fail exactly where the iteration count is
/// above the bound; the ciphertext depends on the arguments alone, is the plaintext padded
/// to whole AES blocks in size, and decrypts to the plaintext.
#[verifier::external_body]
pub(crate) fn pbes2_encrypt_with(
    params: &Pbes2Parameters,
    password: &[u8],
    plaintext: &[u8],
) -> (r: Result<Vec<u8>, pkcs5::Error>)
    ensures
        match r {
            Ok(ciphertext) => {
                &&& params.wf()
                &&& ciphertext@ == pbes2_ciphertext(params.encoding(), password@, plaintext@)
                &&& ciphertext@.len() == padded_len(plaintext@.len())
                &&& pbes2_plaintext(params.encoding(), password@, ciphertext@) == Some(plaintext@)
            },
            Err(_) => !params.wf(),
        },
{
    pkcs5::pbes2::Parameters::generate_pbkdf2_sha256_aes256cbc(
        params.iterations,
        &params.salt,
        params.iv,
    )?.encrypt(password, plaintext)
}

/// Calls `to_der` of `pkcs5::EncryptionScheme` on PBES2 parameters.  Claimed: it never
/// fails and returns the encoding of the algorithm identifier; its parameters decode,
/// and their key derivation is not scrypt.
#[verifier::external_body]
pub(crate) fn scheme_to_der(params: &Pbes2Parameters) -> (r: Result<Vec<u8>, der::Error>)
    requires
        params.wf(),
    ensures
        r is Ok,
        r matches Ok(der) ==> {
            &&& der@ == params.algorithm().encoding()
            &&& pbes2_parameters_of(params.encoding()) == Some(None::<(u64, u16, u16)>)
        },
{
    let params = pkcs5::pbes2::Parameters::generate_pbkdf2_sha256_aes256cbc(
        params.iterations,
        &params.salt,
        params.iv,
    ).map_err(|_| der::ErrorKind::Failed)?;
    EncryptionScheme::from(params).to_der()
}

/// Calls `from_der` of `pkcs8::EncryptedPrivateKeyInfoRef`.  Claimed: what it returns
/// depends on the octets alone.  It would index out of bounds on a Triple-DES
/// initialization vector of fewer than eight octets.
#[verifier::external_body]
pub(crate) fn encrypted_key_from_der(der: &[u8]) -> (r: Result<
    (Option<Vec<u8>>, Vec<u8>),
    der::Error,
>)
    requires
        !key_with_short_des_iv(der@),
    ensures
        match r {
            Ok((params, ciphertext)) => encrypted_key_of(der@) == Some(
                (crate::cms::optional_view(params), ciphertext@),
            ),
            Err(_) => encrypted_key_of(der@) is None,
        },
{
    let info = pkcs8::EncryptedPrivateKeyInfoRef::from_der(der)?;
    let params = info.encryption_algorithm.pbes2().map(|p| p.to_der()).transpose()?;
    Ok((params, info.encrypted_data.as_bytes().to_vec()))
}

/// Calls `to_der` of `pkcs8::EncryptedPrivateKeyInfoOwned` on PBES2 parameters and a
/// ciphertext.  Claimed: it returns the encoding, which decodes to the same fields, with
/// parameters that decode and whose key derivation is not scrypt; it fails exactly where
/// the encoding would be longer than 2^32-1 octets.
#[verifier::external_body]
pub(crate) fn encrypted_key_to_der(params: &Pbes2Parameters, ciphertext: &[u8]) -> (r: Result<
    Vec<u8>,
    der::Error,
>)
    requires
        params.wf(),
    ensures
        match r {
            Ok(der) => {
                &&& der@ == params.encrypted_key(ciphertext@)
                &&& der@.len() <= max_der_len()
                &&& encrypted_key_of(der@) == Some((Some(params.encoding()), ciphertext@))
                &&& pbes2_parameters_of(params.encoding()) == Some(None::<(u64, u16, u16)>)
            },
            Err(_) => params.encrypted_key(ciphertext@).len() > max_der_len(),
        },
{
    let params = pkcs5::pbes2::Parameters::generate_pbkdf2_sha256_aes256cbc(
        params.iterations,
        &params.salt,
        params.iv,
    ).map_err(|_| der::ErrorKind::Failed)?;
    pkcs8::EncryptedPrivateKeyInfoOwned {
        encryption_algorithm: EncryptionScheme::from(params),
        encrypted_data: der::asn1::OctetString::new(ciphertext)?,
    }.to_der()
}

} // verus!
