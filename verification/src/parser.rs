//! Parser for PKCS#12 archives (`.p12` and `.pfx` files).
//!
//! [`parse_pfx`] decodes an archive, verifies its MAC and returns the decrypted
//! private key and the certificates.  What it returns is stated as one function of
//! the octets and the password, [`parse_outcome`].

use crate::asn1::{
    bytes_equal, failed, read_sole_element, sole_element, TAG_EXPLICIT_0, TAG_OCTET_STRING,
};
use crate::cert_bag::{cert_bag_of, CertBag};
use crate::cms::{
    encrypted_data_from_der, encrypted_data_of, AlgorithmIdentifier, AlgorithmIdentifierView,
    ContentInfo, ContentInfoView, EncryptedData, EncryptedDataView,
};
use crate::hash::{digest_len, hmac_of, hmac_verify, HashAlgorithm};
use crate::kdf::{bmp_encodable, derive_key_utf8, derived_key, encoded_password, Pkcs12KeyType};
use crate::mac_data::{MacData, MacDataView};
use crate::oid::{
    ID_DATA, ID_ENCRYPTED_DATA, ID_PBES2, ID_SHA_1, ID_SHA_256, PKCS_12_CERT_BAG_OID,
    PKCS_12_KEY_BAG_OID, PKCS_12_PBE_WITH_SHAAND3_KEY_TRIPLE_DES_CBC, PKCS_12_PKCS8_KEY_BAG_OID,
};
use crate::pbe_params::{pbe_params_of, Pkcs12PbeParams};
use crate::pbes2::{
    affordable, cipher_error, encrypted_key_fields, encrypted_key_from_der, encrypted_key_of,
    has_key_with_short_des_iv, has_short_des_iv, has_unknown_algorithm, is_affordable,
    key_with_short_des_iv, names_unknown_algorithm, pbes2_decrypt, pbes2_from_der,
    pbes2_parameters_of, pbes2_plaintext, read_encrypted_key_fields, short_des_iv, CipherFault,
};
use crate::pfx::{
    authenticated_safe_from_der, authenticated_safe_of, info_views, pfx_of, Pfx, PfxView,
};
use crate::safe_bag::{bag_views, safe_contents_from_der, safe_contents_of, SafeBag, SafeBagView};
use crate::secret::SecretBytes;
use crate::tdes::{tdes_cbc_decrypt, tdes_cbc_plaintext};
use vstd::prelude::*;
use vstd::slice::slice_to_vec;
use vstd::string::{to_string_from_display_ensures, StringExecFns};
use vstd::utf8::encode_utf8;

verus! {

/// Size of an HMAC-SHA-1 tag and of its key, in octets.
pub const HMAC_SHA1_LEN: usize = 20;

/// Size of an HMAC-SHA-256 tag and of its key, in octets.
pub const HMAC_SHA256_LEN: usize = 32;

/// Size of a three-key Triple-DES key, in octets.
pub const TDES_KEY_LEN: usize = 24;

/// Size of a DES block, in octets.
pub const DES_IV_LEN: usize = 8;

/// Error returned by [`parse_pfx`].
#[derive(Debug)]
#[non_exhaustive]
pub enum Error {
    /// ASN.1 DER decoding error.
    Asn1(der::Error),
    /// Decryption failed (wrong password or corrupt ciphertext).
    Decrypt(pkcs5::Error),
    /// The MAC does not match: the archive is corrupt or the password is wrong.
    MacMismatch,
    /// The archive contains an algorithm that is not supported.
    ///
    /// Supported encryption: PBES2 (PBKDF2 or scrypt; AES or Triple-DES) and PKCS#12's own
    /// scheme with three-key Triple-DES.
    /// Supported MACs: HMAC-SHA-1 and HMAC-SHA-256.
    UnsupportedAlgorithm,
    /// No private key bag was found in the archive.
    MissingKey,
    /// No certificate bag was found in the archive.
    MissingCert,
}

/// The variants of [`Error`], without what they carry.
pub enum Failure {
    Asn1,
    Decrypt,
    MacMismatch,
    UnsupportedAlgorithm,
    MissingKey,
    MissingCert,
}

impl Error {
    /// Which failure this is.
    pub open spec fn failure(self) -> Failure {
        match self {
            Error::Asn1(_) => Failure::Asn1,
            Error::Decrypt(_) => Failure::Decrypt,
            Error::MacMismatch => Failure::MacMismatch,
            Error::UnsupportedAlgorithm => Failure::UnsupportedAlgorithm,
            Error::MissingKey => Failure::MissingKey,
            Error::MissingCert => Failure::MissingCert,
        }
    }
}

impl Error {
    /// What is to be told of the error.
    pub fn message(&self) -> (r: String)
        ensures
            match *self {
                Error::Asn1(e) => exists|text: String|
                    #[trigger] to_string_from_display_ensures(&e, text) && r@ == "ASN.1 error: "@
                        + text@,
                Error::Decrypt(e) => exists|text: String|
                    #[trigger] to_string_from_display_ensures(&e, text) && r@
                        == "decryption error: "@ + text@,
                Error::MacMismatch => r@ == "MAC verification failed"@,
                Error::UnsupportedAlgorithm => r@ == "unsupported algorithm"@,
                Error::MissingKey => r@ == "no private key found in archive"@,
                Error::MissingCert => r@ == "no certificate found in archive"@,
            },
    {
        match self {
            Error::Asn1(e) => "ASN.1 error: ".to_owned().concat(e.to_string().as_str()),
            Error::Decrypt(e) => "decryption error: ".to_owned().concat(e.to_string().as_str()),
            Error::MacMismatch => "MAC verification failed".to_owned(),
            Error::UnsupportedAlgorithm => "unsupported algorithm".to_owned(),
            Error::MissingKey => "no private key found in archive".to_owned(),
            Error::MissingCert => "no certificate found in archive".to_owned(),
        }
    }
}

impl From<der::Error> for Error {
    fn from(e: der::Error) -> (r: Self) {
        Error::Asn1(e)
    }
}

impl vstd::std_specs::convert::FromSpecImpl<der::Error> for Error {
    open spec fn obeys_from_spec() -> bool {
        true
    }

    open spec fn from_spec(e: der::Error) -> Self {
        Error::Asn1(e)
    }
}

impl From<pkcs5::Error> for Error {
    fn from(e: pkcs5::Error) -> (r: Self) {
        Error::Decrypt(e)
    }
}

impl vstd::std_specs::convert::FromSpecImpl<pkcs5::Error> for Error {
    open spec fn obeys_from_spec() -> bool {
        true
    }

    open spec fn from_spec(e: pkcs5::Error) -> Self {
        Error::Decrypt(e)
    }
}

/// What [`parse_pfx`] extracts from an archive.
#[derive(Debug)]
pub struct Pkcs12Contents {
    /// Decrypted private key, a DER-encoded PKCS#8 `PrivateKeyInfo`.
    pub key_der: SecretBytes,
    /// DER-encoded X.509 end-entity certificate: the first one in the archive.
    pub certificate: Vec<u8>,
    /// Any other DER-encoded X.509 certificates, in the archive's order.
    pub additional_certificates: Vec<Vec<u8>>,
    /// Whether the archive had a MAC; it then matched.
    pub mac_verified: bool,
}

/// The mathematical content of a [`Pkcs12Contents`].
#[verifier::ext_equal]
pub struct Pkcs12ContentsView {
    pub key_der: Seq<u8>,
    pub certificate: Seq<u8>,
    pub additional_certificates: Seq<Seq<u8>>,
    pub mac_verified: bool,
}

/// The octets of some certificates.
pub open spec fn vec_views(items: Seq<Vec<u8>>) -> Seq<Seq<u8>> {
    items.map_values(|item: Vec<u8>| item@)
}

impl View for Pkcs12Contents {
    type V = Pkcs12ContentsView;

    open spec fn view(&self) -> Pkcs12ContentsView {
        Pkcs12ContentsView {
            key_der: self.key_der@,
            certificate: self.certificate@,
            additional_certificates: vec_views(self.additional_certificates@),
            mac_verified: self.mac_verified,
        }
    }
}

/// The certificates and the key found so far.
#[derive(Debug)]
pub struct Gathered {
    /// Certificates, in the archive's order.
    pub certs: Vec<Vec<u8>>,
    /// The first private key.
    pub key_der: Option<SecretBytes>,
}

/// The mathematical content of a [`Gathered`].
#[verifier::ext_equal]
pub struct GatheredView {
    pub certs: Seq<Seq<u8>>,
    pub key_der: Option<Seq<u8>>,
}

impl View for Gathered {
    type V = GatheredView;

    open spec fn view(&self) -> GatheredView {
        GatheredView {
            certs: vec_views(self.certs@),
            key_der: match self.key_der {
                Some(key) => Some(key@),
                None => None,
            },
        }
    }
}

impl GatheredView {
    /// Nothing found yet.
    pub open spec fn empty() -> Self {
        GatheredView { certs: Seq::empty(), key_der: None }
    }

    /// With one more certificate.
    pub open spec fn with_cert(self, cert: Seq<u8>) -> Self {
        GatheredView { certs: self.certs.push(cert), key_der: self.key_der }
    }

    /// With a key, where there is none yet.
    pub open spec fn with_key(self, key: Seq<u8>) -> Self {
        if self.key_der is None {
            GatheredView { certs: self.certs, key_der: Some(key) }
        } else {
            self
        }
    }
}

// Verification of the MAC.

/// The digest that a MAC algorithm identifier names, where it is supported.
pub open spec fn mac_hash(oid: Seq<u8>) -> Option<HashAlgorithm> {
    if oid == ID_SHA_256@ {
        Some(HashAlgorithm::Sha256)
    } else if oid == ID_SHA_1@ {
        Some(HashAlgorithm::Sha1)
    } else {
        None
    }
}

/// The MAC key that a password gives: as long as the digest.
pub open spec fn mac_key(
    alg: HashAlgorithm,
    password: Seq<char>,
    salt: Seq<u8>,
    iterations: i32,
) -> Seq<u8> {
    derived_key(
        alg,
        encoded_password(password),
        salt,
        Pkcs12KeyType::Mac,
        iterations as int,
        digest_len(alg),
    )
}

/// The tag that a password gives.
pub open spec fn expected_tag(
    alg: HashAlgorithm,
    mac: MacDataView,
    auth_safe: Seq<u8>,
    password: Seq<char>,
) -> Seq<u8> {
    hmac_of(alg, mac_key(alg, password, mac.mac_salt, mac.iterations), auth_safe)
}

/// What comes of verifying a MAC.
pub open spec fn mac_outcome(mac: MacDataView, auth_safe: Seq<u8>, password: Seq<char>) -> Result<
    (),
    Failure,
> {
    match mac_hash(mac.mac.algorithm.oid) {
        Some(alg) => if !bmp_encodable(password) {
            Err(Failure::Asn1)
        } else if mac.mac.digest == expected_tag(alg, mac, auth_safe, password) {
            Ok(())
        } else {
            Err(Failure::MacMismatch)
        },
        None => Err(Failure::UnsupportedAlgorithm),
    }
}

// Decryption.

/// What comes of decrypting with PBES2: `params` is the encoding of its parameters.
pub open spec fn pbes2_outcome(params: Seq<u8>, ciphertext: Seq<u8>, password: Seq<u8>) -> Result<
    Seq<u8>,
    Failure,
> {
    if names_unknown_algorithm(params) {
        Err(Failure::UnsupportedAlgorithm)
    } else if short_des_iv(params) {
        Err(Failure::Asn1)
    } else {
        match pbes2_parameters_of(params) {
            Some(scrypt) => if !affordable(scrypt) {
                Err(Failure::Decrypt)
            } else {
                match pbes2_plaintext(params, password, ciphertext) {
                    Some(plaintext) => Ok(plaintext),
                    None => Err(Failure::Decrypt),
                }
            },
            None => Err(Failure::Asn1),
        }
    }
}

/// The octets that a password gives under PKCS#12's own scheme with Triple-DES.
pub open spec fn tdes_material(
    password: Seq<char>,
    salt: Seq<u8>,
    id: Pkcs12KeyType,
    iterations: i32,
    len: nat,
) -> Seq<u8> {
    derived_key(
        HashAlgorithm::Sha1,
        encoded_password(password),
        salt,
        id,
        iterations as int,
        len,
    )
}

/// What comes of decrypting with PKCS#12's own scheme with Triple-DES.
pub open spec fn tdes_outcome(
    alg: AlgorithmIdentifierView,
    ciphertext: Seq<u8>,
    password: Seq<char>,
) -> Result<Seq<u8>, Failure> {
    match alg.parameters {
        Some(der) => match pbe_params_of(der) {
            Some(params) => if !bmp_encodable(password) {
                Err(Failure::Asn1)
            } else {
                match tdes_cbc_plaintext(
                    tdes_material(
                        password,
                        params.salt,
                        Pkcs12KeyType::EncryptionKey,
                        params.iterations,
                        24,
                    ),
                    tdes_material(password, params.salt, Pkcs12KeyType::Iv, params.iterations, 8),
                    ciphertext,
                ) {
                    Some(plaintext) => Ok(plaintext),
                    None => Err(Failure::Decrypt),
                }
            },
            None => Err(Failure::Asn1),
        },
        None => Err(Failure::Asn1),
    }
}

/// What comes of decrypting an `EncryptedData`.
pub open spec fn decrypt_outcome(data: EncryptedDataView, password: Seq<char>) -> Result<
    Seq<u8>,
    Failure,
> {
    let alg = data.content_enc_alg;
    if alg.oid == PKCS_12_PBE_WITH_SHAAND3_KEY_TRIPLE_DES_CBC@ {
        match data.encrypted_content {
            Some(ciphertext) => tdes_outcome(alg, ciphertext, password),
            None => Err(Failure::Asn1),
        }
    } else if alg.oid == ID_PBES2@ {
        match (alg.parameters, data.encrypted_content) {
            (Some(params), Some(ciphertext)) => pbes2_outcome(
                params,
                ciphertext,
                encode_utf8(password),
            ),
            _ => Err(Failure::Asn1),
        }
    } else {
        Err(Failure::UnsupportedAlgorithm)
    }
}

/// What comes of decrypting an `EncryptedPrivateKeyInfo`.
pub open spec fn shrouded_key_outcome(der: Seq<u8>, password: Seq<char>) -> Result<
    Seq<u8>,
    Failure,
> {
    match encrypted_key_fields(der) {
        Some((alg, ciphertext)) => if alg.oid == PKCS_12_PBE_WITH_SHAAND3_KEY_TRIPLE_DES_CBC@ {
            tdes_outcome(alg, ciphertext, password)
        } else if alg.oid == ID_PBES2@ {
            if alg.parameters is Some && names_unknown_algorithm(alg.parameters->0) {
                Err(Failure::UnsupportedAlgorithm)
            } else {
                pbes2_key_outcome(der, encode_utf8(password))
            }
        } else {
            Err(Failure::UnsupportedAlgorithm)
        },
        None => Err(Failure::Asn1),
    }
}

/// What comes of decrypting an `EncryptedPrivateKeyInfo` under PBES2.
pub open spec fn pbes2_key_outcome(der: Seq<u8>, password: Seq<u8>) -> Result<Seq<u8>, Failure> {
    if key_with_short_des_iv(der) {
        Err(Failure::Asn1)
    } else {
        match encrypted_key_of(der) {
            Some((Some(params), ciphertext)) => pbes2_outcome(params, ciphertext, password),
            Some((None, _)) => Err(Failure::UnsupportedAlgorithm),
            None => Err(Failure::Asn1),
        }
    }
}

// Walking the archive.

/// The bags of one group: those of a plain or of an encrypted group, and none of a
/// group of any other type.
pub open spec fn unwrap_outcome(info: ContentInfoView, password: Seq<char>) -> Result<
    Seq<SafeBagView>,
    Failure,
> {
    if info.content_type == ID_DATA@ {
        match sole_element(TAG_OCTET_STRING, info.content) {
            Some(der) => match safe_contents_of(der) {
                Some(bags) => Ok(bags),
                None => Err(Failure::Asn1),
            },
            None => Err(Failure::Asn1),
        }
    } else if info.content_type == ID_ENCRYPTED_DATA@ {
        match encrypted_data_of(info.content) {
            Some(data) => match decrypt_outcome(data, password) {
                Ok(plaintext) => match safe_contents_of(plaintext) {
                    Some(bags) => Ok(bags),
                    None => Err(Failure::Asn1),
                },
                Err(failure) => Err(failure),
            },
            None => Err(Failure::Asn1),
        }
    } else {
        Ok(Seq::empty())
    }
}

/// What has been found once `bag` is looked at too.
pub open spec fn bag_outcome(found: GatheredView, bag: SafeBagView, password: Seq<char>) -> Result<
    GatheredView,
    Failure,
> {
    if bag.bag_id == PKCS_12_CERT_BAG_OID@ {
        match sole_element(TAG_EXPLICIT_0, bag.bag_value) {
            Some(der) => match cert_bag_of(der) {
                Some(cert_bag) => Ok(found.with_cert(cert_bag.cert_value)),
                None => Err(Failure::Asn1),
            },
            None => Err(Failure::Asn1),
        }
    } else if bag.bag_id == PKCS_12_PKCS8_KEY_BAG_OID@ && found.key_der is None {
        match sole_element(TAG_EXPLICIT_0, bag.bag_value) {
            Some(der) => match shrouded_key_outcome(der, password) {
                Ok(key) => Ok(found.with_key(key)),
                Err(failure) => Err(failure),
            },
            None => Err(Failure::Asn1),
        }
    } else if bag.bag_id == PKCS_12_KEY_BAG_OID@ && found.key_der is None {
        match sole_element(TAG_EXPLICIT_0, bag.bag_value) {
            Some(der) => Ok(found.with_key(der)),
            None => Err(Failure::Asn1),
        }
    } else {
        Ok(found)
    }
}

/// What has been found once all `bags` are looked at too, in their order.
pub open spec fn bags_outcome(
    found: GatheredView,
    bags: Seq<SafeBagView>,
    password: Seq<char>,
) -> Result<GatheredView, Failure>
    decreases bags.len(),
{
    if bags.len() == 0 {
        Ok(found)
    } else {
        match bags_outcome(found, bags.drop_last(), password) {
            Ok(found) => bag_outcome(found, bags.last(), password),
            Err(failure) => Err(failure),
        }
    }
}

/// What is found in the groups `infos`, in their order.
pub open spec fn groups_outcome(infos: Seq<ContentInfoView>, password: Seq<char>) -> Result<
    GatheredView,
    Failure,
>
    decreases infos.len(),
{
    if infos.len() == 0 {
        Ok(GatheredView::empty())
    } else {
        match groups_outcome(infos.drop_last(), password) {
            Ok(found) => match unwrap_outcome(infos.last(), password) {
                Ok(bags) => bags_outcome(found, bags, password),
                Err(failure) => Err(failure),
            },
            Err(failure) => Err(failure),
        }
    }
}

/// What is returned for what was found.
pub open spec fn assembled(found: GatheredView, mac_verified: bool) -> Result<
    Pkcs12ContentsView,
    Failure,
> {
    match found.key_der {
        Some(key_der) => if found.certs.len() == 0 {
            Err(Failure::MissingCert)
        } else {
            Ok(
                Pkcs12ContentsView {
                    key_der,
                    certificate: found.certs[0],
                    additional_certificates: found.certs.skip(1),
                    mac_verified,
                },
            )
        },
        None => Err(Failure::MissingKey),
    }
}

/// What is returned for the octets of an `AuthenticatedSafe`.
pub open spec fn safe_outcome(
    auth_safe: Seq<u8>,
    password: Seq<char>,
    mac_verified: bool,
) -> Result<Pkcs12ContentsView, Failure> {
    match authenticated_safe_of(auth_safe) {
        Some(infos) => match groups_outcome(infos, password) {
            Ok(found) => assembled(found, mac_verified),
            Err(failure) => Err(failure),
        },
        None => Err(Failure::Asn1),
    }
}

/// What is returned for a decoded archive.
pub open spec fn pfx_outcome(pfx: PfxView, password: Seq<char>) -> Result<
    Pkcs12ContentsView,
    Failure,
> {
    if pfx.auth_safe.content_type != ID_DATA@ {
        Err(Failure::UnsupportedAlgorithm)
    } else {
        match sole_element(TAG_OCTET_STRING, pfx.auth_safe.content) {
            Some(auth_safe) => match pfx.mac_data {
                Some(mac) => match mac_outcome(mac, auth_safe, password) {
                    Ok(_) => safe_outcome(auth_safe, password, true),
                    Err(failure) => Err(failure),
                },
                None => safe_outcome(auth_safe, password, false),
            },
            None => Err(Failure::Asn1),
        }
    }
}

/// What [`parse_pfx`] returns.
pub open spec fn parse_outcome(pfx_der: Seq<u8>, password: Seq<char>) -> Result<
    Pkcs12ContentsView,
    Failure,
> {
    match pfx_of(pfx_der) {
        Some(pfx) => pfx_outcome(pfx, password),
        None => Err(Failure::Asn1),
    }
}

// The code.

/// Passes a decoding error on.
fn asn1<T>(r: Result<T, der::Error>) -> (out: Result<T, Error>)
    ensures
        match (r, out) {
            (Ok(a), Ok(b)) => a == b,
            (Err(e), Err(f)) => f == Error::Asn1(e),
            _ => false,
        },
{
    match r {
        Ok(value) => Ok(value),
        Err(e) => Err(Error::from(e)),
    }
}

/// Turns the answer of a tag comparison into a result.
pub fn mac_verdict(matches: bool) -> (r: Result<(), Error>)
    ensures
        matches ==> r is Ok,
        !matches ==> r == Err::<(), Error>(Error::MacMismatch),
{
    if matches {
        Ok(())
    } else {
        Err(Error::MacMismatch)
    }
}

/// Verifies the MAC of an archive.
///
/// The key is derived from the password by the key derivation of PKCS#12; HMAC-SHA-1
/// and HMAC-SHA-256 are supported.
pub fn verify_mac(mac_data: &MacData, auth_safe_der: &[u8], password: &str) -> (r: Result<
    (),
    Error,
>)
    ensures
        match r {
            Ok(_) => {
                &&& mac_outcome(mac_data@, auth_safe_der@, password@) is Ok
                &&& mac_hash(mac_data@.mac.algorithm.oid) matches Some(alg)
                &&& mac_data@.mac.digest.len() == digest_len(alg)
            },
            Err(e) => mac_outcome(mac_data@, auth_safe_der@, password@) == Err::<(), Failure>(
                e.failure(),
            ),
        },
{
    let oid: &[u8] = mac_data.mac.algorithm.oid.as_slice();
    let (alg, len) = if bytes_equal(oid, ID_SHA_256.as_slice()) {
        (HashAlgorithm::Sha256, HMAC_SHA256_LEN)
    } else if bytes_equal(oid, ID_SHA_1.as_slice()) {
        (HashAlgorithm::Sha1, HMAC_SHA1_LEN)
    } else {
        return Err(Error::UnsupportedAlgorithm);
    };
    let mac_key = SecretBytes::new(
        asn1(
            derive_key_utf8(
                alg,
                password,
                mac_data.mac_salt.as_slice(),
                Pkcs12KeyType::Mac,
                mac_data.iterations,
                len,
            ),
        )?,
    );
    mac_verdict(
        hmac_verify(alg, mac_key.as_slice(), auth_safe_der, mac_data.mac.digest.as_slice()),
    )
}

/// Decrypts with the PBES2 parameters that `params` encodes.
pub fn decrypt_pbes2(params: &[u8], ciphertext: &[u8], password: &[u8]) -> (r: Result<
    Vec<u8>,
    Error,
>)
    ensures
        match r {
            Ok(plaintext) => pbes2_outcome(params@, ciphertext@, password@) == Ok::<
                Seq<u8>,
                Failure,
            >(plaintext@),
            Err(e) => pbes2_outcome(params@, ciphertext@, password@) == Err::<Seq<u8>, Failure>(
                e.failure(),
            ),
        },
{
    if has_unknown_algorithm(params) {
        return Err(Error::UnsupportedAlgorithm);
    }
    if has_short_des_iv(params) {
        return Err(Error::Asn1(failed()));
    }
    let scrypt = asn1(pbes2_from_der(params))?;
    if !is_affordable(scrypt) {
        return Err(Error::Decrypt(cipher_error(CipherFault::Parameters)));
    }
    match pbes2_decrypt(params, password, ciphertext) {
        Ok(plaintext) => Ok(plaintext),
        Err(e) => Err(Error::from(e)),
    }
}

/// Decrypts a bag group protected with `pbeWithSHAAnd3-KeyTripleDES-CBC`.
///
/// Key and initialization vector are derived from the password by the key derivation
/// of PKCS#12 over SHA-1.
pub fn decrypt_pkcs12_pbe_3des(
    alg_id: &AlgorithmIdentifier,
    ciphertext: &[u8],
    password: &str,
) -> (r: Result<Vec<u8>, Error>)
    ensures
        match r {
            Ok(plaintext) => {
                &&& tdes_outcome(alg_id@, ciphertext@, password@) == Ok::<Seq<u8>, Failure>(
                    plaintext@,
                )
                &&& ciphertext@.len() % 8 == 0
                &&& plaintext@.len() + 1 <= ciphertext@.len() <= plaintext@.len() + 8
            },
            Err(e) => tdes_outcome(alg_id@, ciphertext@, password@) == Err::<Seq<u8>, Failure>(
                e.failure(),
            ),
        },
{
    let params = match &alg_id.parameters {
        Some(der) => asn1(Pkcs12PbeParams::from_der(der.as_slice()))?,
        None => {
            return Err(Error::Asn1(failed()));
        },
    };
    let key = SecretBytes::new(
        asn1(
            derive_key_utf8(
                HashAlgorithm::Sha1,
                password,
                params.salt.as_slice(),
                Pkcs12KeyType::EncryptionKey,
                params.iterations,
                TDES_KEY_LEN,
            ),
        )?,
    );
    let iv = SecretBytes::new(
        asn1(
            derive_key_utf8(
                HashAlgorithm::Sha1,
                password,
                params.salt.as_slice(),
                Pkcs12KeyType::Iv,
                params.iterations,
                DES_IV_LEN,
            ),
        )?,
    );
    match tdes_cbc_decrypt(key.as_slice(), iv.as_slice(), ciphertext) {
        Some(plaintext) => Ok(plaintext),
        None => Err(Error::Decrypt(cipher_error(CipherFault::DecryptFailed))),
    }
}

/// Decrypts a bag group.
///
/// Handles PBES2 and PKCS#12's own scheme with three-key Triple-DES.
pub fn decrypt_encrypted_data(enc_data: &EncryptedData, password: &str) -> (r: Result<
    Vec<u8>,
    Error,
>)
    ensures
        match r {
            Ok(plaintext) => decrypt_outcome(enc_data@, password@) == Ok::<Seq<u8>, Failure>(
                plaintext@,
            ),
            Err(e) => decrypt_outcome(enc_data@, password@) == Err::<Seq<u8>, Failure>(
                e.failure(),
            ),
        },
{
    let alg = &enc_data.content_enc_alg;
    let legacy: bool = bytes_equal(
        alg.oid.as_slice(),
        PKCS_12_PBE_WITH_SHAAND3_KEY_TRIPLE_DES_CBC.as_slice(),
    );
    if !legacy && !bytes_equal(alg.oid.as_slice(), ID_PBES2.as_slice()) {
        return Err(Error::UnsupportedAlgorithm);
    }
    let ciphertext: &[u8] = match &enc_data.encrypted_content {
        Some(content) => content.as_slice(),
        None => {
            return Err(Error::Asn1(failed()));
        },
    };
    if legacy {
        return decrypt_pkcs12_pbe_3des(alg, ciphertext, password);
    }
    match &alg.parameters {
        Some(params) => decrypt_pbes2(params.as_slice(), ciphertext, password.as_bytes()),
        None => Err(Error::Asn1(failed())),
    }
}

/// Decrypts an `EncryptedPrivateKeyInfo` under PBES2.
pub fn decrypt_pbes2_key(bag_value: &[u8], password: &[u8]) -> (r: Result<SecretBytes, Error>)
    ensures
        match r {
            Ok(key) => pbes2_key_outcome(bag_value@, password@) == Ok::<Seq<u8>, Failure>(key@),
            Err(e) => pbes2_key_outcome(bag_value@, password@) == Err::<Seq<u8>, Failure>(
                e.failure(),
            ),
        },
{
    if has_key_with_short_des_iv(bag_value) {
        return Err(Error::Asn1(failed()));
    }
    match asn1(encrypted_key_from_der(bag_value))? {
        (Some(params), ciphertext) => {
            let plaintext: Vec<u8> = decrypt_pbes2(
                params.as_slice(),
                ciphertext.as_slice(),
                password,
            )?;
            Ok(SecretBytes::new(plaintext))
        },
        (None, _) => Err(Error::UnsupportedAlgorithm),
    }
}

/// Decrypts an `EncryptedPrivateKeyInfo`, the content of a `pkcs8ShroudedKeyBag`.
///
/// Handles PBES2 and PKCS#12's own scheme with three-key Triple-DES.
pub fn decrypt_shrouded_key(bag_value: &[u8], password: &str) -> (r: Result<SecretBytes, Error>)
    ensures
        match r {
            Ok(key) => shrouded_key_outcome(bag_value@, password@) == Ok::<Seq<u8>, Failure>(key@),
            Err(e) => shrouded_key_outcome(bag_value@, password@) == Err::<Seq<u8>, Failure>(
                e.failure(),
            ),
        },
{
    let (alg, ciphertext) = asn1(read_encrypted_key_fields(bag_value))?;
    if bytes_equal(
        alg.oid.as_slice(),
        PKCS_12_PBE_WITH_SHAAND3_KEY_TRIPLE_DES_CBC.as_slice(),
    ) {
        Ok(SecretBytes::new(decrypt_pkcs12_pbe_3des(&alg, ciphertext, password)?))
    } else if bytes_equal(alg.oid.as_slice(), ID_PBES2.as_slice()) {
        if let Some(params) = &alg.parameters {
            if has_unknown_algorithm(params.as_slice()) {
                return Err(Error::UnsupportedAlgorithm);
            }
        }
        decrypt_pbes2_key(bag_value, password.as_bytes())
    } else {
        Err(Error::UnsupportedAlgorithm)
    }
}

/// Decrypts or unwraps the bags of one group.
///
/// Groups of another type than `id-data` and `id-encryptedData` are skipped: no bag
/// comes of them.
pub fn unwrap_safe_contents(ci: &ContentInfo, password: &str) -> (r: Result<Vec<SafeBag>, Error>)
    ensures
        match r {
            Ok(bags) => unwrap_outcome(ci@, password@) == Ok::<Seq<SafeBagView>, Failure>(
                bag_views(bags@),
            ),
            Err(e) => unwrap_outcome(ci@, password@) == Err::<Seq<SafeBagView>, Failure>(
                e.failure(),
            ),
        },
{
    if bytes_equal(ci.content_type.as_slice(), ID_DATA.as_slice()) {
        let der = asn1(read_sole_element(TAG_OCTET_STRING, ci.content.as_slice()))?;
        asn1(safe_contents_from_der(der))
    } else if bytes_equal(ci.content_type.as_slice(), ID_ENCRYPTED_DATA.as_slice()) {
        let data = asn1(encrypted_data_from_der(ci.content.as_slice()))?;
        let plaintext: Vec<u8> = decrypt_encrypted_data(&data, password)?;
        asn1(safe_contents_from_der(plaintext.as_slice()))
    } else {
        let none: Vec<SafeBag> = Vec::new();
        assert(bag_views(none@) =~= Seq::empty());
        Ok(none)
    }
}

impl Gathered {
    /// Nothing found yet.
    pub fn new() -> (r: Self)
        ensures
            r@ == GatheredView::empty(),
    {
        let r = Gathered { certs: Vec::new(), key_der: None };
        assert(r@.certs =~= Seq::empty());
        r
    }

    /// Adds the certificate that a `CertBag` holds.
    pub fn add_cert(&mut self, cert_bag: CertBag)
        ensures
            final(self)@ == old(self)@.with_cert(cert_bag@.cert_value),
    {
        self.certs.push(cert_bag.cert_value);
        assert(vec_views(self.certs@) =~= vec_views(old(self).certs@).push(cert_bag.cert_value@));
    }

    /// Adds a key, unless there is one already.
    pub fn add_key(&mut self, key_der: SecretBytes)
        ensures
            final(self)@ == old(self)@.with_key(key_der@),
    {
        if self.key_der.is_none() {
            self.key_der = Some(key_der);
        }
    }

    /// Looks at one bag; kinds of bags that are not needed are skipped.
    pub fn add_bag(&mut self, bag: &SafeBag, password: &str) -> (r: Result<(), Error>)
        ensures
            match r {
                Ok(_) => bag_outcome(old(self)@, bag@, password@) == Ok::<GatheredView, Failure>(
                    final(self)@,
                ),
                Err(e) => {
                    &&& bag_outcome(old(self)@, bag@, password@) == Err::<GatheredView, Failure>(
                        e.failure(),
                    )
                    &&& final(self)@ == old(self)@
                },
            },
    {
        let bag_id: &[u8] = bag.bag_id.as_slice();
        let bag_value: &[u8] = bag.bag_value.as_slice();
        if bytes_equal(bag_id, PKCS_12_CERT_BAG_OID.as_slice()) {
            let der = asn1(read_sole_element(TAG_EXPLICIT_0, bag_value))?;
            self.add_cert(asn1(CertBag::from_der(der))?);
        } else if bytes_equal(bag_id, PKCS_12_PKCS8_KEY_BAG_OID.as_slice()) {
            if self.key_der.is_none() {
                let der = asn1(read_sole_element(TAG_EXPLICIT_0, bag_value))?;
                self.add_key(decrypt_shrouded_key(der, password)?);
            }
        } else if bytes_equal(bag_id, PKCS_12_KEY_BAG_OID.as_slice()) {
            if self.key_der.is_none() {
                let der = asn1(read_sole_element(TAG_EXPLICIT_0, bag_value))?;
                self.add_key(SecretBytes::new(slice_to_vec(der)));
            }
        }
        Ok(())
    }

    /// Looks at the bags of one group, in their order, up to the first that is refused.
    pub fn add_bags(&mut self, bags: &Vec<SafeBag>, password: &str) -> (r: Result<(), Error>)
        ensures
            match r {
                Ok(_) => bags_outcome(old(self)@, bag_views(bags@), password@) == Ok::<
                    GatheredView,
                    Failure,
                >(final(self)@),
                Err(e) => {
                    &&& bags_outcome(old(self)@, bag_views(bags@), password@) == Err::<
                        GatheredView,
                        Failure,
                    >(e.failure())
                    &&& exists|i: int|
                        0 <= i < bags@.len() && bags_outcome(
                            old(self)@,
                            #[trigger] bag_views(bags@).take(i),
                            password@,
                        ) == Ok::<GatheredView, Failure>(final(self)@)
                },
            },
    {
        let ghost start = self@;
        let ghost views = bag_views(bags@);
        let mut i: usize = 0;
        while i < bags.len()
            invariant
                start == old(self)@,
                views == bag_views(bags@),
                i <= bags@.len(),
                bags_outcome(start, views.take(i as int), password@) == Ok::<GatheredView, Failure>(
                    self@,
                ),
            decreases bags@.len() - i,
        {
            proof {
                let next = views.take(i + 1);
                assert(next.drop_last() =~= views.take(i as int));
                assert(next.last() == bags@[i as int]@);
            }
            match self.add_bag(&bags[i], password) {
                Ok(_) => {},
                Err(e) => {
                    proof {
                        lemma_bags_outcome_stops(start, views, i + 1, password@);
                    }
                    return Err(e);
                },
            }
            i = i + 1;
        }
        assert(views.take(bags@.len() as int) =~= views);
        Ok(())
    }

    /// Assembles the result from what was found.
    pub fn assemble(self, mac_verified: bool) -> (r: Result<Pkcs12Contents, Error>)
        ensures
            match r {
                Ok(contents) => assembled(self@, mac_verified) == Ok::<Pkcs12ContentsView, Failure>(
                    contents@,
                ),
                Err(e) => assembled(self@, mac_verified) == Err::<Pkcs12ContentsView, Failure>(
                    e.failure(),
                ),
            },
    {
        let ghost found = self@;
        let key_der = match self.key_der {
            Some(key_der) => key_der,
            None => {
                return Err(Error::MissingKey);
            },
        };
        let mut certs: Vec<Vec<u8>> = self.certs;
        if certs.len() == 0 {
            return Err(Error::MissingCert);
        }
        let certificate: Vec<u8> = certs.remove(0);
        assert(vec_views(certs@) =~= found.certs.skip(1));
        Ok(Pkcs12Contents { key_der, certificate, additional_certificates: certs, mac_verified })
    }
}

/// Where a bag stops the walk, the bags behind it are not looked at.
proof fn lemma_bags_outcome_stops(
    found: GatheredView,
    bags: Seq<SafeBagView>,
    i: int,
    password: Seq<char>,
)
    requires
        0 <= i <= bags.len(),
        bags_outcome(found, bags.take(i), password) is Err,
    ensures
        bags_outcome(found, bags, password) == bags_outcome(found, bags.take(i), password),
    decreases bags.len() - i,
{
    if i < bags.len() {
        assert(bags.take(i + 1).drop_last() =~= bags.take(i));
        lemma_bags_outcome_stops(found, bags, i + 1, password);
    } else {
        assert(bags.take(i) =~= bags);
    }
}

/// Where a group stops the walk, the groups behind it are not looked at.
proof fn lemma_groups_outcome_stops(infos: Seq<ContentInfoView>, i: int, password: Seq<char>)
    requires
        0 <= i <= infos.len(),
        groups_outcome(infos.take(i), password) is Err,
    ensures
        groups_outcome(infos, password) == groups_outcome(infos.take(i), password),
    decreases infos.len() - i,
{
    if i < infos.len() {
        assert(infos.take(i + 1).drop_last() =~= infos.take(i));
        lemma_groups_outcome_stops(infos, i + 1, password);
    } else {
        assert(infos.take(i) =~= infos);
    }
}

/// Collects certificates and key from the groups of an archive, in their order.
pub fn gather(auth_safe: &Vec<ContentInfo>, password: &str) -> (r: Result<Gathered, Error>)
    ensures
        match r {
            Ok(found) => groups_outcome(info_views(auth_safe@), password@) == Ok::<
                GatheredView,
                Failure,
            >(found@),
            Err(e) => groups_outcome(info_views(auth_safe@), password@) == Err::<
                GatheredView,
                Failure,
            >(e.failure()),
        },
{
    let ghost views = info_views(auth_safe@);
    let mut found = Gathered::new();
    let mut i: usize = 0;
    while i < auth_safe.len()
        invariant
            views == info_views(auth_safe@),
            i <= auth_safe@.len(),
            groups_outcome(views.take(i as int), password@) == Ok::<GatheredView, Failure>(found@),
        decreases auth_safe@.len() - i,
    {
        proof {
            let next = views.take(i + 1);
            assert(next.drop_last() =~= views.take(i as int));
            assert(next.last() == auth_safe@[i as int]@);
        }
        let added: Result<(), Error> = match unwrap_safe_contents(&auth_safe[i], password) {
            Ok(bags) => found.add_bags(&bags, password),
            Err(e) => Err(e),
        };
        match added {
            Ok(_) => {},
            Err(e) => {
                proof {
                    lemma_groups_outcome_stops(views, i + 1, password@);
                }
                return Err(e);
            },
        }
        i = i + 1;
    }
    assert(views.take(auth_safe@.len() as int) =~= views);
    Ok(found)
}

/// Parses and decrypts an archive.
///
/// 1. Decodes the outer structure from `pfx_der`.
/// 2. Verifies the MAC, where there is one.  An absent MAC is not an error; the caller
///    can inspect [`Pkcs12Contents::mac_verified`].
/// 3. Decrypts or unwraps each group of bags.
/// 4. Returns the first private key and all certificates found.
///
/// # Errors
///
/// Returns an [`Error`] where decoding fails, the MAC is present and does not match, an
/// algorithm is not supported, decryption fails, or no private key or no certificate is
/// found.
pub fn parse_pfx(pfx_der: &[u8], password: &str) -> (r: Result<Pkcs12Contents, Error>)
    ensures
        match r {
            Ok(contents) => parse_outcome(pfx_der@, password@) == Ok::<
                Pkcs12ContentsView,
                Failure,
            >(contents@),
            Err(e) => parse_outcome(pfx_der@, password@) == Err::<Pkcs12ContentsView, Failure>(
                e.failure(),
            ),
        },
{
    let pfx = asn1(Pfx::from_der(pfx_der))?;
    if !bytes_equal(pfx.auth_safe.content_type.as_slice(), ID_DATA.as_slice()) {
        return Err(Error::UnsupportedAlgorithm);
    }
    let auth_safe_der = asn1(
        read_sole_element(TAG_OCTET_STRING, pfx.auth_safe.content.as_slice()),
    )?;
    let mac_verified: bool = match &pfx.mac_data {
        Some(mac_data) => {
            verify_mac(mac_data, auth_safe_der, password)?;
            true
        },
        None => false,
    };
    let auth_safe: Vec<ContentInfo> = asn1(authenticated_safe_from_der(auth_safe_der))?;
    gather(&auth_safe, password)?.assemble(mac_verified)
}

} // verus!
