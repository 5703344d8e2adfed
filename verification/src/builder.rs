//! Builder for PKCS#12 archives (`.p12` and `.pfx` files).
//!
//! [`PfxBuilder`] makes an archive of a certificate, a private key and optional CA
//! certificates.  The certificates and the key are encrypted with PBES2
//! (PBKDF2-HMAC-SHA-256 and AES-256-CBC), and an HMAC-SHA-256 under a key from the
//! key derivation of PKCS#12 protects the whole.

use crate::asn1::{
    joined, lemma_joined_item_len, lemma_tlv_is_element, lemma_tlv_len, max_der_len, tlv,
    write_element, TAG_EXPLICIT_0, TAG_OCTET_STRING, TAG_OID, TAG_SEQUENCE,
};
use crate::cert_bag::{CertBag, CertBagView};
use crate::cms::{
    algorithm_from_der, encrypted_data_to_der, lemma_algorithm_round_trip,
    lemma_encrypted_data_round_trip, AlgorithmIdentifier, AlgorithmIdentifierView, ContentInfo,
    ContentInfoView, EncryptedData, EncryptedDataView,
};
use crate::hash::{hmac_sha256, hmac_sha256_tag, HashAlgorithm};
use crate::kdf::{bmp_encodable, derive_key_utf8, Pkcs12KeyType};
use crate::mac_data::{DigestInfo, DigestInfoView, MacData, MacDataView};
use crate::oid::{
    lemma_written_oids, ID_DATA, ID_ENCRYPTED_DATA, ID_PBES2, ID_SHA_256, PKCS_12_CERT_BAG_OID,
    PKCS_12_PKCS8_KEY_BAG_OID, PKCS_12_X509_CERT_OID,
};
use crate::parser::{mac_key, parse_outcome, vec_views, Pkcs12ContentsView};
use crate::pbes2::{
    encrypted_key_of, encrypted_key_to_der, lemma_written_parameters, padded_len, pbes2_ciphertext,
    pbes2_encrypt_with, pbes2_parameters_of, pbes2_plaintext, scheme_to_der, Pbes2Parameters,
    AES_IV_LEN, PBKDF2_SALT_LEN,
};
use crate::pfx::{
    authenticated_safe_encoding, authenticated_safe_to_der, info_views, Pfx, PfxView, Version,
};
use crate::round_trip::{
    archive_decrypts, lemma_built_archive_parses, lemma_content_len, lemma_part_lens,
};
use crate::safe_bag::{
    bag_encodings, bag_views, safe_contents_encoding, safe_contents_to_der, SafeBag, SafeBagView,
};
use crate::secret::{SecretBytes, SecretString};
use vstd::prelude::*;
use vstd::slice::slice_to_vec;
use vstd::string::{to_string_from_display_ensures, StringExecFns};
use vstd::utf8::encode_utf8;

verus! {

/// Size of an HMAC-SHA-256 tag and of its key, in octets.
pub const HMAC_SHA256_LEN: usize = 32;

/// Size of the MAC salt, in octets.
pub const MAC_SALT_LEN: usize = 8;

/// Error returned by [`PfxBuilder::build_with_rng`].
#[derive(Debug)]
#[non_exhaustive]
pub enum Error {
    /// ASN.1 DER encoding or decoding error.
    Asn1(der::Error),
    /// PBES2 encryption error.
    Encrypt(pkcs5::Error),
    /// A required field was not set; the string names it.
    MissingField(&'static str),
}

/// The variants of [`Error`], without the errors they carry.
pub enum Failure {
    Asn1,
    Encrypt,
    MissingField(Seq<char>),
}

impl Error {
    /// Which failure this is.
    pub open spec fn failure(self) -> Failure {
        match self {
            Error::Asn1(_) => Failure::Asn1,
            Error::Encrypt(_) => Failure::Encrypt,
            Error::MissingField(name) => Failure::MissingField(name@),
        }
    }
}

impl Error {
    /// What is to be told of the error.
    pub fn message(&self) -> (r: String)
        ensures
            match *self {
                Error::Asn1(e) => exists|text: String|
                    #[trigger] to_string_from_display_ensures(&e, text) && r@ == "ASN.1 error: "@
                        + text@,
                Error::Encrypt(e) => exists|text: String|
                    #[trigger] to_string_from_display_ensures(&e, text) && r@
                        == "encryption error: "@ + text@,
                Error::MissingField(name) => r@ == "required field not set: "@ + name@,
            },
    {
        match self {
            Error::Asn1(e) => "ASN.1 error: ".to_owned().concat(e.to_string().as_str()),
            Error::Encrypt(e) => "encryption error: ".to_owned().concat(e.to_string().as_str()),
            Error::MissingField(name) => "required field not set: ".to_owned().concat(name),
        }
    }
}

impl From<der::Error> for Error {
    fn from(e: der::Error) -> (r: Self) {
        Error::Asn1(e)
    }
}

impl vstd::std_specs::convert::FromSpecImpl<der::Error> for Error {
    open spec fn obeys_from_spec() -> bool {
        true
    }

    open spec fn from_spec(e: der::Error) -> Self {
        Error::Asn1(e)
    }
}

impl From<pkcs5::Error> for Error {
    fn from(e: pkcs5::Error) -> (r: Self) {
        Error::Encrypt(e)
    }
}

impl vstd::std_specs::convert::FromSpecImpl<pkcs5::Error> for Error {
    open spec fn obeys_from_spec() -> bool {
        true
    }

    open spec fn from_spec(e: pkcs5::Error) -> Self {
        Error::Encrypt(e)
    }
}

/// Encryption algorithm for the bags of an archive.
#[derive(Debug)]
#[non_exhaustive]
pub enum EncryptionAlgorithm {
    /// PBES2 with PBKDF2-HMAC-SHA-256 and AES-256-CBC.
    Pbes2Aes256Cbc {
        /// PBKDF2 iteration count.
        iterations: u32,
    },
}

impl Clone for EncryptionAlgorithm {
    fn clone(&self) -> (r: Self)
        ensures
            r == *self,
    {
        match self {
            EncryptionAlgorithm::Pbes2Aes256Cbc { iterations } => {
                EncryptionAlgorithm::Pbes2Aes256Cbc { iterations: *iterations }
            },
        }
    }
}

impl Default for EncryptionAlgorithm {
    fn default() -> (r: Self)
        ensures
            r == (EncryptionAlgorithm::Pbes2Aes256Cbc { iterations: 600_000 }),
    {
        EncryptionAlgorithm::Pbes2Aes256Cbc { iterations: 600_000 }
    }
}

/// MAC algorithm for an archive.
#[derive(Debug)]
#[non_exhaustive]
pub enum MacAlgorithm {
    /// HMAC-SHA-256 under a key from the key derivation of PKCS#12.
    HmacSha256 {
        /// Iteration count of the key derivation.
        iterations: i32,
    },
}

impl Clone for MacAlgorithm {
    fn clone(&self) -> (r: Self)
        ensures
            r == *self,
    {
        match self {
            MacAlgorithm::HmacSha256 { iterations } => MacAlgorithm::HmacSha256 {
                iterations: *iterations,
            },
        }
    }
}

impl Default for MacAlgorithm {
    fn default() -> (r: Self)
        ensures
            r == (MacAlgorithm::HmacSha256 { iterations: 100_000 }),
    {
        MacAlgorithm::HmacSha256 { iterations: 100_000 }
    }
}

/// The random octets that go into one archive, in the order in which they are drawn.
#[derive(Debug)]
pub struct Randomness {
    /// PBKDF2 salt for the certificates.
    pub cert_salt: [u8; PBKDF2_SALT_LEN],
    /// Initialization vector for the certificates.
    pub cert_iv: [u8; AES_IV_LEN],
    /// PBKDF2 salt for the key.
    pub key_salt: [u8; PBKDF2_SALT_LEN],
    /// Initialization vector for the key.
    pub key_iv: [u8; AES_IV_LEN],
    /// Salt for the MAC key.
    pub mac_salt: [u8; MAC_SALT_LEN],
}

/// Builder for PKCS#12 archives.
///
/// Each `with_*` method takes the builder by value and returns it changed.
///
/// The `AuthenticatedSafe` of the archive has two groups:
///
/// - an `id-encryptedData` group whose plaintext is one `certBag` per certificate, the
///   end-entity certificate first;
/// - an `id-data` group with a single `pkcs8ShroudedKeyBag` that holds the encrypted
///   private key.
pub struct PfxBuilder {
    password: SecretString,
    cert_der: Option<Vec<u8>>,
    key_der: Option<SecretBytes>,
    ca_certs_der: Vec<Vec<u8>>,
    cert_enc_alg: EncryptionAlgorithm,
    key_enc_alg: EncryptionAlgorithm,
    mac_alg: MacAlgorithm,
}

/// The mathematical content of a [`PfxBuilder`].
#[verifier::ext_equal]
pub struct PfxBuilderView {
    pub password: Seq<char>,
    pub cert_der: Option<Seq<u8>>,
    pub key_der: Option<Seq<u8>>,
    pub ca_certs_der: Seq<Seq<u8>>,
    pub cert_enc_alg: EncryptionAlgorithm,
    pub key_enc_alg: EncryptionAlgorithm,
    pub mac_alg: MacAlgorithm,
}

impl View for PfxBuilder {
    type V = PfxBuilderView;

    closed spec fn view(&self) -> PfxBuilderView {
        PfxBuilderView {
            password: self.password@,
            cert_der: match self.cert_der {
                Some(cert) => Some(cert@),
                None => None,
            },
            key_der: match self.key_der {
                Some(key) => Some(key@),
                None => None,
            },
            ca_certs_der: vec_views(self.ca_certs_der@),
            cert_enc_alg: self.cert_enc_alg,
            key_enc_alg: self.key_enc_alg,
            mac_alg: self.mac_alg,
        }
    }
}

// What an archive is made of.

/// The bag of one certificate.
pub open spec fn cert_safe_bag(cert: Seq<u8>) -> SafeBagView {
    SafeBagView {
        bag_id: PKCS_12_CERT_BAG_OID@,
        bag_value: tlv(
            TAG_EXPLICIT_0,
            (CertBagView { cert_id: PKCS_12_X509_CERT_OID@, cert_value: cert }).encoding(),
        ),
        bag_attributes: None,
    }
}

/// The bags of some certificates.
pub open spec fn cert_safe_bags(certs: Seq<Seq<u8>>) -> Seq<SafeBagView> {
    certs.map_values(|cert: Seq<u8>| cert_safe_bag(cert))
}

/// The PBES2 parameters that an algorithm, a salt and a vector give.
pub open spec fn pbes2_parameters(
    alg: EncryptionAlgorithm,
    salt: [u8; PBKDF2_SALT_LEN],
    iv: [u8; AES_IV_LEN],
) -> Pbes2Parameters {
    match alg {
        EncryptionAlgorithm::Pbes2Aes256Cbc { iterations } => Pbes2Parameters {
            iterations,
            salt,
            iv,
        },
    }
}

/// The message around a ciphertext.
pub open spec fn message(params: Pbes2Parameters, ciphertext: Seq<u8>) -> EncryptedDataView {
    EncryptedDataView {
        version: 0,
        content_type: ID_DATA@,
        content_enc_alg: params.algorithm(),
        encrypted_content: Some(ciphertext),
    }
}

/// The group around a ciphertext.
pub open spec fn message_group(params: Pbes2Parameters, ciphertext: Seq<u8>) -> ContentInfoView {
    ContentInfoView {
        content_type: ID_ENCRYPTED_DATA@,
        content: message(params, ciphertext).encoding(),
    }
}

/// The group that holds `plaintext` encrypted.
pub open spec fn encrypted_group(
    params: Pbes2Parameters,
    password: Seq<u8>,
    plaintext: Seq<u8>,
) -> ContentInfoView {
    message_group(params, pbes2_ciphertext(params.encoding(), password, plaintext))
}

/// The group that holds `payload` as it is.
pub open spec fn data_group(payload: Seq<u8>) -> ContentInfoView {
    ContentInfoView { content_type: ID_DATA@, content: tlv(TAG_OCTET_STRING, payload) }
}

/// The encrypted form of a private key.
pub open spec fn encrypted_key(
    params: Pbes2Parameters,
    password: Seq<u8>,
    key: Seq<u8>,
) -> Seq<u8> {
    params.encrypted_key(pbes2_ciphertext(params.encoding(), password, key))
}

/// The bag of an encrypted private key.
pub open spec fn key_safe_bag(encrypted_key: Seq<u8>) -> SafeBagView {
    SafeBagView {
        bag_id: PKCS_12_PKCS8_KEY_BAG_OID@,
        bag_value: tlv(TAG_EXPLICIT_0, encrypted_key),
        bag_attributes: None,
    }
}

/// The MAC data around an HMAC-SHA-256 tag.
pub open spec fn tag_data(digest: Seq<u8>, salt: Seq<u8>, iterations: i32) -> MacDataView {
    MacDataView {
        mac: DigestInfoView {
            algorithm: AlgorithmIdentifierView { oid: ID_SHA_256@, parameters: None },
            digest,
        },
        mac_salt: salt,
        iterations,
    }
}

/// The MAC data over the octets of an `AuthenticatedSafe`.
pub open spec fn mac_data(
    alg: MacAlgorithm,
    password: Seq<char>,
    auth_safe: Seq<u8>,
    salt: Seq<u8>,
) -> MacDataView {
    match alg {
        MacAlgorithm::HmacSha256 { iterations } => tag_data(
            hmac_sha256_tag(
                mac_key(HashAlgorithm::Sha256, password, salt, iterations),
                auth_safe,
            ),
            salt,
            iterations,
        ),
    }
}

/// The bags of some certificates, encoded.
pub open spec fn cert_contents(certs: Seq<Seq<u8>>) -> Seq<u8> {
    safe_contents_encoding(cert_safe_bags(certs))
}

/// The bag of an encrypted private key, encoded.
pub open spec fn key_contents(encrypted_key: Seq<u8>) -> Seq<u8> {
    safe_contents_encoding(seq![key_safe_bag(encrypted_key)])
}

impl PfxBuilderView {
    /// All certificates, the end-entity certificate first.
    pub open spec fn certs(self) -> Seq<Seq<u8>> {
        seq![self.cert_der->0] + self.ca_certs_der
    }
}

/// The parameters that the certificates are encrypted with.
pub open spec fn cert_parameters(b: PfxBuilderView, random: Randomness) -> Pbes2Parameters {
    pbes2_parameters(b.cert_enc_alg, random.cert_salt, random.cert_iv)
}

/// The parameters that the key is encrypted with.
pub open spec fn key_parameters(b: PfxBuilderView, random: Randomness) -> Pbes2Parameters {
    pbes2_parameters(b.key_enc_alg, random.key_salt, random.key_iv)
}

/// The first group of the archive: the certificates.
pub open spec fn cert_group(b: PfxBuilderView, random: Randomness) -> ContentInfoView {
    encrypted_group(
        cert_parameters(b, random),
        encode_utf8(b.password),
        cert_contents(b.certs()),
    )
}

/// The second group of the archive: the key.
pub open spec fn key_group(b: PfxBuilderView, random: Randomness) -> ContentInfoView {
    data_group(
        key_contents(
            encrypted_key(key_parameters(b, random), encode_utf8(b.password), b.key_der->0),
        ),
    )
}

/// The octets of the archive's `AuthenticatedSafe`.
pub open spec fn built_auth_safe(b: PfxBuilderView, random: Randomness) -> Seq<u8> {
    authenticated_safe_encoding(seq![cert_group(b, random), key_group(b, random)])
}

/// An archive around the octets of its `AuthenticatedSafe`.
pub open spec fn sealed_pfx(
    auth_safe: Seq<u8>,
    alg: MacAlgorithm,
    password: Seq<char>,
    salt: Seq<u8>,
) -> PfxView {
    PfxView {
        auth_safe: data_group(auth_safe),
        mac_data: Some(mac_data(alg, password, auth_safe, salt)),
    }
}

/// The archive.
pub open spec fn built_pfx(b: PfxBuilderView, random: Randomness) -> PfxView {
    sealed_pfx(built_auth_safe(b, random), b.mac_alg, b.password, random.mac_salt@)
}

/// What [`PfxBuilder::build_with_rng`] returns.
///
/// The sizes count because no DER encoding is longer than 2^32-1 octets.
pub open spec fn build_outcome(b: PfxBuilderView, random: Randomness) -> Result<Seq<u8>, Failure> {
    if b.cert_der is None {
        Err(Failure::MissingField("cert"@))
    } else if b.key_der is None {
        Err(Failure::MissingField("key"@))
    } else if cert_contents(b.certs()).len() > max_der_len() {
        Err(Failure::Asn1)
    } else if !cert_parameters(b, random).wf() {
        Err(Failure::Encrypt)
    } else if cert_group(b, random).content.len() > max_der_len() {
        Err(Failure::Asn1)
    } else if !key_parameters(b, random).wf() {
        Err(Failure::Encrypt)
    } else if !bmp_encodable(b.password) || built_pfx(b, random).encoding().len()
        > max_der_len() {
        Err(Failure::Asn1)
    } else {
        Ok(built_pfx(b, random).encoding())
    }
}

/// What is put into the archive, as a parser returns it.
pub open spec fn built_contents(b: PfxBuilderView) -> Pkcs12ContentsView {
    Pkcs12ContentsView {
        key_der: b.key_der->0,
        certificate: b.cert_der->0,
        additional_certificates: b.ca_certs_der,
        mac_verified: true,
    }
}

// Building.

/// Passes an encoding error on.
fn asn1<T>(r: Result<T, der::Error>) -> (out: Result<T, Error>)
    ensures
        match (r, out) {
            (Ok(a), Ok(b)) => a == b,
            (Err(e), Err(f)) => f == Error::Asn1(e),
            _ => false,
        },
{
    match r {
        Ok(value) => Ok(value),
        Err(e) => Err(Error::from(e)),
    }
}

/// Makes the bag of one certificate.
///
/// Fails exactly where its value would be too long.
pub fn make_cert_bag(cert_der: &[u8]) -> (r: Result<SafeBag, Error>)
    ensures
        match r {
            Ok(bag) => bag@ == cert_safe_bag(cert_der@),
            Err(e) => e.failure() == Failure::Asn1 && cert_safe_bag(cert_der@).bag_value.len()
                > max_der_len(),
        },
{
    let cert_bag = CertBag {
        cert_id: slice_to_vec(PKCS_12_X509_CERT_OID.as_slice()),
        cert_value: slice_to_vec(cert_der),
    };
    let der: Vec<u8> = asn1(cert_bag.to_der())?;
    let bag_value: Vec<u8> = asn1(write_element(TAG_EXPLICIT_0, der.as_slice()))?;
    Ok(
        SafeBag {
            bag_id: slice_to_vec(PKCS_12_CERT_BAG_OID.as_slice()),
            bag_value,
            bag_attributes: None,
        },
    )
}

/// Wraps `payload` in an `id-data` group.
///
/// Fails exactly where its content would be too long.
pub fn data_content_info(payload: &[u8]) -> (r: Result<ContentInfo, Error>)
    ensures
        match r {
            Ok(info) => info@ == data_group(payload@) && info@.wf(),
            Err(e) => e.failure() == Failure::Asn1 && data_group(payload@).content.len()
                > max_der_len(),
        },
{
    let content: Vec<u8> = asn1(write_element(TAG_OCTET_STRING, payload))?;
    proof {
        lemma_written_oids();
        lemma_tlv_is_element(TAG_OCTET_STRING, payload@);
    }
    Ok(ContentInfo { content_type: slice_to_vec(ID_DATA.as_slice()), content })
}

/// Encrypts `plaintext` with the given random salt and initialization vector.
///
/// Fails exactly where the iteration count is out of bounds.
pub fn pbes2_encrypt(
    salt: &[u8; PBKDF2_SALT_LEN],
    iv: &[u8; AES_IV_LEN],
    plaintext: &[u8],
    password: &[u8],
    alg: &EncryptionAlgorithm,
) -> (r: Result<(Pbes2Parameters, Vec<u8>), Error>)
    ensures
        match r {
            Ok((params, ciphertext)) => {
                &&& params == pbes2_parameters(*alg, *salt, *iv)
                &&& params.wf()
                &&& ciphertext@ == pbes2_ciphertext(params.encoding(), password@, plaintext@)
                &&& ciphertext@.len() == padded_len(plaintext@.len())
                &&& pbes2_plaintext(params.encoding(), password@, ciphertext@) == Some(plaintext@)
            },
            Err(e) => e.failure() == Failure::Encrypt && !pbes2_parameters(*alg, *salt, *iv).wf(),
        },
{
    match alg {
        EncryptionAlgorithm::Pbes2Aes256Cbc { iterations } => {
            let params = Pbes2Parameters { iterations: *iterations, salt: *salt, iv: *iv };
            match pbes2_encrypt_with(&params, password, plaintext) {
                Ok(ciphertext) => Ok((params, ciphertext)),
                Err(e) => Err(Error::from(e)),
            }
        },
    }
}

/// Encodes PBES2 parameters as an algorithm identifier.
pub fn scheme_to_alg_id(params: &Pbes2Parameters) -> (r: Result<AlgorithmIdentifier, Error>)
    requires
        params.wf(),
    ensures
        r is Ok,
        r matches Ok(alg) ==> {
            &&& alg@ == params.algorithm()
            &&& alg@.wf()
            &&& pbes2_parameters_of(params.encoding()) == Some(None::<(u64, u16, u16)>)
        },
{
    let der: Vec<u8> = asn1(scheme_to_der(params))?;
    proof {
        lemma_written_oids();
        lemma_written_parameters(*params);
        lemma_tlv_len(TAG_OID, ID_PBES2@);
        lemma_tlv_len(TAG_SEQUENCE, tlv(TAG_OID, ID_PBES2@) + params.encoding());
        lemma_algorithm_round_trip(params.algorithm());
    }
    asn1(algorithm_from_der(der.as_slice()))
}

/// Puts a ciphertext and how it was made into an `id-encryptedData` group.
///
/// Fails exactly where the group's content would be too long.
pub fn encrypted_content_info(params: &Pbes2Parameters, ciphertext: Vec<u8>) -> (r: Result<
    ContentInfo,
    Error,
>)
    requires
        params.wf(),
    ensures
        match r {
            Ok(info) => {
                &&& info@ == message_group(*params, ciphertext@)
                &&& info@.wf()
                &&& pbes2_parameters_of(params.encoding()) == Some(None::<(u64, u16, u16)>)
            },
            Err(e) => e.failure() == Failure::Asn1 && message_group(
                *params,
                ciphertext@,
            ).content.len() > max_der_len(),
        },
{
    let content_enc_alg = scheme_to_alg_id(params)?;
    let enc_data = EncryptedData {
        version: 0,
        content_type: slice_to_vec(ID_DATA.as_slice()),
        content_enc_alg,
        encrypted_content: Some(ciphertext),
    };
    proof {
        lemma_written_oids();
        assert(enc_data@ =~= message(*params, ciphertext@));
    }
    let content: Vec<u8> = asn1(encrypted_data_to_der(&enc_data))?;
    proof {
        lemma_encrypted_data_round_trip(enc_data@);
    }
    Ok(ContentInfo { content_type: slice_to_vec(ID_ENCRYPTED_DATA.as_slice()), content })
}

/// Encrypts the bags `safe_contents_der` into an `id-encryptedData` group.
pub fn encrypt_safe_contents(
    salt: &[u8; PBKDF2_SALT_LEN],
    iv: &[u8; AES_IV_LEN],
    safe_contents_der: &[u8],
    password: &[u8],
    alg: &EncryptionAlgorithm,
) -> (r: Result<ContentInfo, Error>)
    ensures
        ({
            let params = pbes2_parameters(*alg, *salt, *iv);
            let group = encrypted_group(params, password@, safe_contents_der@);
            let ciphertext = pbes2_ciphertext(params.encoding(), password@, safe_contents_der@);
            match r {
                Ok(info) => {
                    &&& params.wf()
                    &&& info@ == group
                    &&& info@.wf()
                    &&& pbes2_parameters_of(params.encoding()) == Some(None::<(u64, u16, u16)>)
                    &&& ciphertext.len() == padded_len(safe_contents_der@.len())
                    &&& pbes2_plaintext(params.encoding(), password@, ciphertext) == Some(
                        safe_contents_der@,
                    )
                },
                Err(e) => if params.wf() {
                    e.failure() == Failure::Asn1 && group.content.len() > max_der_len()
                } else {
                    e.failure() == Failure::Encrypt
                },
            }
        }),
{
    let (params, ciphertext) = pbes2_encrypt(salt, iv, safe_contents_der, password, alg)?;
    encrypted_content_info(&params, ciphertext)
}

/// Puts a ciphertext and how it was made into an `EncryptedPrivateKeyInfo`.
///
/// Fails exactly where that would be too long.
pub fn encrypted_private_key(params: &Pbes2Parameters, ciphertext: &[u8]) -> (r: Result<
    Vec<u8>,
    Error,
>)
    requires
        params.wf(),
    ensures
        match r {
            Ok(der) => {
                &&& der@ == params.encrypted_key(ciphertext@)
                &&& der@.len() <= max_der_len()
                &&& encrypted_key_of(der@) == Some((Some(params.encoding()), ciphertext@))
                &&& pbes2_parameters_of(params.encoding()) == Some(None::<(u64, u16, u16)>)
            },
            Err(e) => e.failure() == Failure::Asn1 && params.encrypted_key(ciphertext@).len()
                > max_der_len(),
        },
{
    asn1(encrypted_key_to_der(params, ciphertext))
}

/// Encrypts a private key into an `EncryptedPrivateKeyInfo`.
pub fn encrypt_key(
    salt: &[u8; PBKDF2_SALT_LEN],
    iv: &[u8; AES_IV_LEN],
    plaintext: &[u8],
    password: &[u8],
    alg: &EncryptionAlgorithm,
) -> (r: Result<Vec<u8>, Error>)
    ensures
        ({
            let params = pbes2_parameters(*alg, *salt, *iv);
            let key = encrypted_key(params, password@, plaintext@);
            let ciphertext = pbes2_ciphertext(params.encoding(), password@, plaintext@);
            match r {
                Ok(der) => {
                    &&& params.wf()
                    &&& der@ == key
                    &&& der@.len() <= max_der_len()
                    &&& ciphertext.len() == padded_len(plaintext@.len())
                    &&& encrypted_key_of(der@) == Some((Some(params.encoding()), ciphertext))
                    &&& pbes2_parameters_of(params.encoding()) == Some(None::<(u64, u16, u16)>)
                    &&& pbes2_plaintext(params.encoding(), password@, ciphertext) == Some(
                        plaintext@,
                    )
                },
                Err(e) => if params.wf() {
                    e.failure() == Failure::Asn1 && key.len() > max_der_len()
                } else {
                    e.failure() == Failure::Encrypt
                },
            }
        }),
{
    let (params, ciphertext) = pbes2_encrypt(salt, iv, plaintext, password, alg)?;
    encrypted_private_key(&params, ciphertext.as_slice())
}

/// Puts an HMAC-SHA-256 tag and how its key was derived into MAC data.
pub fn hmac_sha256_mac_data(digest: Vec<u8>, mac_salt: &[u8], iterations: i32) -> (r: MacData)
    ensures
        r@ == tag_data(digest@, mac_salt@, iterations),
        r@.mac.algorithm.wf(),
{
    proof {
        lemma_written_oids();
    }
    MacData {
        mac: DigestInfo {
            algorithm: AlgorithmIdentifier {
                oid: slice_to_vec(ID_SHA_256.as_slice()),
                parameters: None,
            },
            digest,
        },
        mac_salt: slice_to_vec(mac_salt),
        iterations,
    }
}

/// Computes the MAC data over the octets of an `AuthenticatedSafe`.
///
/// Fails exactly where no key can be derived from the password.
pub fn compute_mac(
    password: &str,
    auth_safe_der: &[u8],
    alg: &MacAlgorithm,
    mac_salt: &[u8; MAC_SALT_LEN],
) -> (r: Result<MacData, Error>)
    ensures
        match r {
            Ok(data) => {
                &&& bmp_encodable(password@)
                &&& data@ == mac_data(*alg, password@, auth_safe_der@, mac_salt@)
                &&& data@.mac.digest.len() == 32
                &&& data@.mac.algorithm.wf()
            },
            Err(e) => e.failure() == Failure::Asn1 && !bmp_encodable(password@),
        },
{
    match alg {
        MacAlgorithm::HmacSha256 { iterations } => {
            let mac_key = SecretBytes::new(
                asn1(
                    derive_key_utf8(
                        HashAlgorithm::Sha256,
                        password,
                        mac_salt.as_slice(),
                        Pkcs12KeyType::Mac,
                        *iterations,
                        HMAC_SHA256_LEN,
                    ),
                )?,
            );
            let digest: Vec<u8> = hmac_sha256(mac_key.as_slice(), auth_safe_der);
            Ok(hmac_sha256_mac_data(digest, mac_salt.as_slice(), *iterations))
        },
    }
}

/// Encodes the bags of all certificates.
///
/// Fails exactly where the encoding would be too long.
pub fn cert_safe_contents(cert_der: &Vec<u8>, ca_certs_der: &Vec<Vec<u8>>) -> (r: Result<
    Vec<u8>,
    Error,
>)
    ensures
        ({
            let contents = cert_contents(seq![cert_der@] + vec_views(ca_certs_der@));
            match r {
                Ok(der) => der@ == contents && der@.len() <= max_der_len(),
                Err(e) => e.failure() == Failure::Asn1 && contents.len() > max_der_len(),
            }
        }),
{
    let ghost certs = seq![cert_der@] + vec_views(ca_certs_der@);
    let ghost bags = cert_safe_bags(certs);
    let mut cert_bags: Vec<SafeBag> = Vec::new();
    proof {
        assert(bags[0] == cert_safe_bag(cert_der@));
        lemma_bag_value_len(bags, 0);
    }
    cert_bags.push(make_cert_bag(cert_der.as_slice())?);
    assert(bag_views(cert_bags@) =~= bags.take(1));
    let mut i: usize = 0;
    while i < ca_certs_der.len()
        invariant
            certs == seq![cert_der@] + vec_views(ca_certs_der@),
            bags == cert_safe_bags(certs),
            i <= ca_certs_der@.len(),
            bag_views(cert_bags@) == bags.take(i + 1),
        decreases ca_certs_der@.len() - i,
    {
        proof {
            assert(certs[i + 1] == ca_certs_der@[i as int]@);
            assert(bags[i + 1] == cert_safe_bag(ca_certs_der@[i as int]@));
            lemma_bag_value_len(bags, i + 1);
        }
        let ghost before = bag_views(cert_bags@);
        cert_bags.push(make_cert_bag(ca_certs_der[i].as_slice())?);
        assert(bag_views(cert_bags@) =~= before.push(bags[i + 1]));
        assert(bags.take(i + 2) =~= before.push(bags[i + 1]));
        i = i + 1;
    }
    assert(bags.take(bags.len() as int) =~= bags);
    asn1(safe_contents_to_der(&cert_bags))
}

/// Wraps an encrypted private key in its bag and that in an `id-data` group.
///
/// Fails exactly where the group's content would be too long.
pub fn key_content_info(epki_der: &[u8]) -> (r: Result<ContentInfo, Error>)
    ensures
        match r {
            Ok(info) => info@ == data_group(key_contents(epki_der@)) && info@.wf(),
            Err(e) => e.failure() == Failure::Asn1 && data_group(
                key_contents(epki_der@),
            ).content.len() > max_der_len(),
        },
{
    proof {
        lemma_bag_value_len(seq![key_safe_bag(epki_der@)], 0);
        lemma_tlv_len(TAG_OCTET_STRING, key_contents(epki_der@));
    }
    let bag_value: Vec<u8> = asn1(write_element(TAG_EXPLICIT_0, epki_der))?;
    let key_bag = SafeBag {
        bag_id: slice_to_vec(PKCS_12_PKCS8_KEY_BAG_OID.as_slice()),
        bag_value,
        bag_attributes: None,
    };
    let key_bags: Vec<SafeBag> = vec![key_bag];
    assert(bag_views(key_bags@) =~= seq![key_safe_bag(epki_der@)]);
    let key_safe_contents_der: Vec<u8> = asn1(safe_contents_to_der(&key_bags))?;
    data_content_info(key_safe_contents_der.as_slice())
}

/// Puts the MAC on an `AuthenticatedSafe` and encodes the archive.
///
/// Fails exactly where no MAC key can be derived or the archive would be too long.
pub fn seal(
    auth_safe_der: &[u8],
    password: &str,
    alg: &MacAlgorithm,
    mac_salt: &[u8; MAC_SALT_LEN],
) -> (r: Result<Vec<u8>, Error>)
    ensures
        ({
            let pfx = sealed_pfx(auth_safe_der@, *alg, password@, mac_salt@);
            match r {
                Ok(der) => {
                    &&& bmp_encodable(password@)
                    &&& der@ == pfx.encoding()
                    &&& der@.len() <= max_der_len()
                },
                Err(e) => {
                    &&& e.failure() == Failure::Asn1
                    &&& !bmp_encodable(password@) || pfx.encoding().len() > max_der_len()
                },
            }
        }),
{
    let ghost sealed = sealed_pfx(auth_safe_der@, *alg, password@, mac_salt@);
    proof {
        lemma_content_len(sealed.auth_safe);
        lemma_tlv_len(TAG_SEQUENCE, sealed.fields());
    }
    let pfx_auth_safe = data_content_info(auth_safe_der)?;
    let mac_data = compute_mac(password, auth_safe_der, alg, mac_salt)?;
    let pfx = Pfx { version: Version::V3, auth_safe: pfx_auth_safe, mac_data: Some(mac_data) };
    assert(pfx@ =~= sealed);
    asn1(pfx.to_der())
}

impl PfxBuilder {
    /// Creates a builder with the given password.
    ///
    /// The password must consist of characters of the Unicode Basic Multilingual Plane
    /// (U+0000 to U+FFFF); others make [`Self::build_with_rng`] fail.
    pub fn new(password: &str) -> (r: Self)
        ensures
            r@ == (PfxBuilderView {
                password: password@,
                cert_der: None,
                key_der: None,
                ca_certs_der: Seq::empty(),
                cert_enc_alg: EncryptionAlgorithm::Pbes2Aes256Cbc { iterations: 600_000 },
                key_enc_alg: EncryptionAlgorithm::Pbes2Aes256Cbc { iterations: 600_000 },
                mac_alg: MacAlgorithm::HmacSha256 { iterations: 100_000 },
            }),
    {
        let r = PfxBuilder {
            password: SecretString::new(password.to_owned()),
            cert_der: None,
            key_der: None,
            ca_certs_der: Vec::new(),
            cert_enc_alg: EncryptionAlgorithm::default(),
            key_enc_alg: EncryptionAlgorithm::default(),
            mac_alg: MacAlgorithm::default(),
        };
        assert(r@.ca_certs_der =~= Seq::empty());
        r
    }

    /// Sets the end-entity certificate (DER-encoded X.509 `Certificate`).
    pub fn with_cert(self, cert_der: &[u8]) -> (r: Self)
        ensures
            r@ == (PfxBuilderView { cert_der: Some(cert_der@), ..self@ }),
    {
        PfxBuilder { cert_der: Some(slice_to_vec(cert_der)), ..self }
    }

    /// Sets the private key (DER-encoded PKCS#8 `PrivateKeyInfo`).
    ///
    /// The builder's copy is erased when the builder is dropped.
    pub fn with_key(self, key_der: &[u8]) -> (r: Self)
        ensures
            r@ == (PfxBuilderView { key_der: Some(key_der@), ..self@ }),
    {
        PfxBuilder { key_der: Some(SecretBytes::new(slice_to_vec(key_der))), ..self }
    }

    /// Adds a CA certificate (DER-encoded X.509 `Certificate`) behind those added
    /// before.
    pub fn with_ca_cert(self, ca_der: &[u8]) -> (r: Self)
        ensures
            r@ == (PfxBuilderView { ca_certs_der: self@.ca_certs_der.push(ca_der@), ..self@ }),
    {
        let mut builder = self;
        builder.ca_certs_der.push(slice_to_vec(ca_der));
        assert(builder@.ca_certs_der =~= self@.ca_certs_der.push(ca_der@));
        builder
    }

    /// Selects the encryption algorithm for the certificates.
    pub fn with_cert_encryption(self, alg: EncryptionAlgorithm) -> (r: Self)
        ensures
            r@ == (PfxBuilderView { cert_enc_alg: alg, ..self@ }),
    {
        PfxBuilder { cert_enc_alg: alg, ..self }
    }

    /// Selects the encryption algorithm for the private key.
    pub fn with_key_encryption(self, alg: EncryptionAlgorithm) -> (r: Self)
        ensures
            r@ == (PfxBuilderView { key_enc_alg: alg, ..self@ }),
    {
        PfxBuilder { key_enc_alg: alg, ..self }
    }

    /// Selects the MAC algorithm.
    pub fn with_mac_algorithm(self, alg: MacAlgorithm) -> (r: Self)
        ensures
            r@ == (PfxBuilderView { mac_alg: alg, ..self@ }),
    {
        PfxBuilder { mac_alg: alg, ..self }
    }

    /// Whether everything that an archive needs has been set: the certificate, then the
    /// key.
    pub fn check_fields(&self) -> (r: Result<(), Error>)
        ensures
            match r {
                Ok(_) => self@.cert_der is Some && self@.key_der is Some,
                Err(e) => e.failure() == Failure::MissingField(
                    if self@.cert_der is None {
                        "cert"@
                    } else {
                        "key"@
                    },
                ) && (self@.cert_der is None || self@.key_der is None),
            },
    {
        if self.cert_der.is_none() {
            Err(Error::MissingField("cert"))
        } else if self.key_der.is_none() {
            Err(Error::MissingField("key"))
        } else {
            Ok(())
        }
    }

    /// Puts the archive together and encodes it.
    fn assemble(self, random: &Randomness) -> (r: Result<Vec<u8>, Error>)
        ensures
            match r {
                Ok(der) => {
                    &&& build_outcome(self@, *random) == Ok::<Seq<u8>, Failure>(der@)
                    &&& archive_decrypts(self@, *random)
                },
                Err(e) => build_outcome(self@, *random) == Err::<Seq<u8>, Failure>(e.failure()),
            },
    {
        let ghost b = self@;
        let cert_der: Vec<u8> = match self.cert_der {
            Some(cert_der) => cert_der,
            None => {
                return Err(Error::MissingField("cert"));
            },
        };
        let key_der: SecretBytes = match self.key_der {
            Some(key_der) => key_der,
            None => {
                return Err(Error::MissingField("key"));
            },
        };
        let password: &str = self.password.as_str();
        let cert_safe_contents_der: Vec<u8> = cert_safe_contents(&cert_der, &self.ca_certs_der)?;
        let cert_ci = encrypt_safe_contents(
            &random.cert_salt,
            &random.cert_iv,
            cert_safe_contents_der.as_slice(),
            password.as_bytes(),
            &self.cert_enc_alg,
        )?;
        proof {
            lemma_part_lens(b, *random);
        }
        let epki_der: Vec<u8> = encrypt_key(
            &random.key_salt,
            &random.key_iv,
            key_der.as_slice(),
            password.as_bytes(),
            &self.key_enc_alg,
        )?;
        let key_ci = key_content_info(epki_der.as_slice())?;
        let auth_safe: Vec<ContentInfo> = vec![cert_ci, key_ci];
        assert(info_views(auth_safe@) =~= seq![cert_group(b, *random), key_group(b, *random)]);
        let auth_safe_der: Vec<u8> = asn1(authenticated_safe_to_der(&auth_safe))?;
        seal(auth_safe_der.as_slice(), password, &self.mac_alg, &random.mac_salt)
    }

    /// Builds the archive from the given random octets and returns its DER encoding.
    ///
    /// The certificates and the key in it are encrypted, and decrypt under the password.
    /// What was put in can be read back from it, by [`crate::parser::parse_pfx`], under
    /// the same password.
    ///
    /// # Errors
    ///
    /// Returns an [`Error`] where the certificate or the key has not been set, an
    /// encoding would be too long, an iteration count is out of bounds, or the password
    /// contains characters outside the Unicode BMP.
    pub fn build_with_rng(self, random: &Randomness) -> (r: Result<Vec<u8>, Error>)
        ensures
            match r {
                Ok(der) => {
                    &&& build_outcome(self@, *random) == Ok::<Seq<u8>, Failure>(der@)
                    &&& archive_decrypts(self@, *random)
                    &&& parse_outcome(der@, self@.password) == Ok::<
                        Pkcs12ContentsView,
                        crate::parser::Failure,
                    >(built_contents(self@))
                },
                Err(e) => build_outcome(self@, *random) == Err::<Seq<u8>, Failure>(e.failure()),
            },
    {
        let ghost b = self@;
        let der: Vec<u8> = self.assemble(random)?;
        proof {
            lemma_built_archive_parses(b, *random);
        }
        Ok(der)
    }
}

/// The value of a bag is no longer than the encoding of all bags.
proof fn lemma_bag_value_len(bags: Seq<SafeBagView>, i: int)
    requires
        0 <= i < bags.len(),
    ensures
        bags[i].bag_value.len() <= safe_contents_encoding(bags).len(),
{
    let items = bag_encodings(bags);
    assert(items[i] == bags[i].encoding());
    lemma_joined_item_len(items, i);
    lemma_tlv_len(TAG_SEQUENCE, bags[i].fields());
    lemma_tlv_len(TAG_SEQUENCE, joined(items));
}

} // verus!
