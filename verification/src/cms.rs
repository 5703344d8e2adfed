//! The Cryptographic Message Syntax structures that an archive is wrapped in.
//!
//! The structures hold plain octets: an object identifier by its contents octets,
//! and what a structure leaves open by the octets of its whole element.

use crate::asn1::{
    is_element, joined, lemma_sole_element_of_tlv, lemma_split_element_of_tlv,
    lemma_tlv_is_element, max_der_len, sequence_items, sole_element, split_element, tlv,
    TAG_EXPLICIT_0, TAG_INTEGER, TAG_OID, TAG_SEQUENCE, TAG_SET,
};
use crate::oid::is_oid;
use cms::content_info::CmsVersion;
use cms::enveloped_data::EncryptedContentInfo;
use const_oid::ObjectIdentifier;
use der::asn1::OctetString;
use der::{Decode, Encode};
use vstd::prelude::*;

verus! {

/// An `AlgorithmIdentifier`.
#[derive(Debug)]
pub struct AlgorithmIdentifier {
    /// The algorithm.
    pub oid: Vec<u8>,
    /// The element that holds its parameters.
    pub parameters: Option<Vec<u8>>,
}

/// The mathematical content of an [`AlgorithmIdentifier`].
#[verifier::ext_equal]
pub struct AlgorithmIdentifierView {
    pub oid: Seq<u8>,
    pub parameters: Option<Seq<u8>>,
}

/// A `ContentInfo`.
#[derive(Debug)]
pub struct ContentInfo {
    /// What `content` is.
    pub content_type: Vec<u8>,
    /// The element inside the explicit tag.
    pub content: Vec<u8>,
}

/// The mathematical content of a [`ContentInfo`].
#[verifier::ext_equal]
pub struct ContentInfoView {
    pub content_type: Seq<u8>,
    pub content: Seq<u8>,
}

/// An `EncryptedData`, without its unprotected attributes.
#[derive(Debug)]
pub struct EncryptedData {
    /// Syntax version.
    pub version: u8,
    /// What the plaintext is.
    pub content_type: Vec<u8>,
    /// How the content is encrypted.
    pub content_enc_alg: AlgorithmIdentifier,
    /// The ciphertext, where the message holds it.
    pub encrypted_content: Option<Vec<u8>>,
}

/// The mathematical content of an [`EncryptedData`].
#[verifier::ext_equal]
pub struct EncryptedDataView {
    pub version: u8,
    pub content_type: Seq<u8>,
    pub content_enc_alg: AlgorithmIdentifierView,
    pub encrypted_content: Option<Seq<u8>>,
}

/// The octets of an optional vector.
pub open spec fn optional_view(v: Option<Vec<u8>>) -> Option<Seq<u8>> {
    match v {
        Some(v) => Some(v@),
        None => None,
    }
}

/// The octets of an optional element: none where it is absent.
pub open spec fn optional_octets(v: Option<Seq<u8>>) -> Seq<u8> {
    match v {
        Some(v) => v,
        None => Seq::empty(),
    }
}

impl View for AlgorithmIdentifier {
    type V = AlgorithmIdentifierView;

    open spec fn view(&self) -> AlgorithmIdentifierView {
        AlgorithmIdentifierView { oid: self.oid@, parameters: optional_view(self.parameters) }
    }
}

impl View for ContentInfo {
    type V = ContentInfoView;

    open spec fn view(&self) -> ContentInfoView {
        ContentInfoView { content_type: self.content_type@, content: self.content@ }
    }
}

impl View for EncryptedData {
    type V = EncryptedDataView;

    open spec fn view(&self) -> EncryptedDataView {
        EncryptedDataView {
            version: self.version,
            content_type: self.content_type@,
            content_enc_alg: self.content_enc_alg@,
            encrypted_content: optional_view(self.encrypted_content),
        }
    }
}

impl AlgorithmIdentifierView {
    /// Whether this can be encoded.
    pub open spec fn wf(self) -> bool {
        is_oid(self.oid) && (self.parameters matches Some(p) ==> is_element(p))
    }

    /// The DER encoding.
    pub open spec fn encoding(self) -> Seq<u8> {
        tlv(TAG_SEQUENCE, tlv(TAG_OID, self.oid) + optional_octets(self.parameters))
    }
}

impl ContentInfoView {
    /// Whether this can be encoded.
    pub open spec fn wf(self) -> bool {
        is_oid(self.content_type) && is_element(self.content)
    }

    /// The DER encoding.
    pub open spec fn encoding(self) -> Seq<u8> {
        tlv(TAG_SEQUENCE, tlv(TAG_OID, self.content_type) + tlv(TAG_EXPLICIT_0, self.content))
    }
}

/// Identifier octet of the primitive context-specific tag `[0]`.
pub open spec fn tag_implicit_0() -> u8 {
    0x80
}

/// Identifier octet of the constructed context-specific tag `[1]`.
pub open spec fn tag_implicit_1() -> u8 {
    0xa1
}

impl EncryptedDataView {
    /// Whether this can be encoded.
    pub open spec fn wf(self) -> bool {
        self.version <= 5 && is_oid(self.content_type) && self.content_enc_alg.wf()
    }

    /// The DER encoding of the encrypted content with its description.
    pub open spec fn content_encoding(self) -> Seq<u8> {
        tlv(
            TAG_SEQUENCE,
            tlv(TAG_OID, self.content_type) + (self.content_enc_alg.encoding()
                + match self.encrypted_content {
                Some(c) => tlv(tag_implicit_0(), c),
                None => Seq::empty(),
            }),
        )
    }

    /// The DER encoding.
    pub open spec fn encoding(self) -> Seq<u8> {
        tlv(TAG_SEQUENCE, tlv(TAG_INTEGER, seq![self.version]) + self.content_encoding())
    }
}

/// The algorithm identifier whose SEQUENCE has the contents `body`.
pub open spec fn algorithm_fields(body: Seq<u8>) -> Option<AlgorithmIdentifierView> {
    match split_element(TAG_OID, body) {
        Some((oid, rest)) => if !is_oid(oid) {
            None
        } else if rest.len() == 0 {
            Some(AlgorithmIdentifierView { oid, parameters: None })
        } else if is_element(rest) {
            Some(AlgorithmIdentifierView { oid, parameters: Some(rest) })
        } else {
            None
        },
        None => None,
    }
}

/// The algorithm identifier that `der` encodes.
pub open spec fn algorithm_of(der: Seq<u8>) -> Option<AlgorithmIdentifierView> {
    match sole_element(TAG_SEQUENCE, der) {
        Some(body) => algorithm_fields(body),
        None => None,
    }
}

/// The content info whose SEQUENCE has the contents `body`.
pub open spec fn content_info_fields(body: Seq<u8>) -> Option<ContentInfoView> {
    match split_element(TAG_OID, body) {
        Some((content_type, rest)) => match sole_element(TAG_EXPLICIT_0, rest) {
            Some(content) => if is_oid(content_type) && is_element(content) {
                Some(ContentInfoView { content_type, content })
            } else {
                None
            },
            None => None,
        },
        None => None,
    }
}

/// The content info that `der` encodes.
pub open spec fn content_info_of(der: Seq<u8>) -> Option<ContentInfoView> {
    match sole_element(TAG_SEQUENCE, der) {
        Some(body) => content_info_fields(body),
        None => None,
    }
}

/// Whether each of `items` is one element, whatever its tag.
pub open spec fn all_elements(items: Seq<Seq<u8>>) -> bool {
    forall|i: int| 0 <= i < items.len() ==> is_element(#[trigger] items[i])
}

/// Whether elements, whatever their tags, fill `contents`.
pub open spec fn is_elements(contents: Seq<u8>) -> bool {
    exists|items: Seq<Seq<u8>>| #[trigger] all_elements(items) && contents == joined(items)
}

/// Whether `der` is an attribute: a type and a SET OF values of any kind, in any order.
pub open spec fn attribute_valid(der: Seq<u8>) -> bool {
    &&& sole_element(TAG_SEQUENCE, der) matches Some(body)
    &&& split_element(TAG_OID, body) matches Some((oid, rest))
    &&& is_oid(oid)
    &&& sole_element(TAG_SET, rest) matches Some(values)
    &&& is_elements(values)
}

/// Whether `contents` are the contents of a SET OF attributes, in any order.
pub open spec fn attributes_valid(contents: Seq<u8>) -> bool {
    &&& sequence_items(contents) matches Some(items)
    &&& forall|i: int| 0 <= i < items.len() ==> attribute_valid(#[trigger] items[i])
}

/// The ciphertext field: absent, or `[0]` and nothing behind it.
pub open spec fn encrypted_content_of(der: Seq<u8>) -> Option<Option<Seq<u8>>> {
    if der.len() == 0 {
        Some(None)
    } else {
        match sole_element(tag_implicit_0(), der) {
            Some(content) => Some(Some(content)),
            None => None,
        }
    }
}

/// The encrypted data with the given version whose content SEQUENCE has the contents
/// `body`.
pub open spec fn encrypted_content_fields(version: u8, body: Seq<u8>) -> Option<EncryptedDataView> {
    match split_element(TAG_OID, body) {
        Some((content_type, rest)) => match split_element(TAG_SEQUENCE, rest) {
            Some((alg_body, rest)) => match (
                algorithm_fields(alg_body),
                encrypted_content_of(rest),
            ) {
                (Some(content_enc_alg), Some(encrypted_content)) => if is_oid(content_type) {
                    Some(
                        EncryptedDataView {
                            version,
                            content_type,
                            content_enc_alg,
                            encrypted_content,
                        },
                    )
                } else {
                    None
                },
                _ => None,
            },
            None => None,
        },
        None => None,
    }
}

/// Whether `der` is nothing, or unprotected attributes under their tag `[1]`.
pub open spec fn unprotected_attributes_valid(der: Seq<u8>) -> bool {
    der.len() == 0 || (sole_element(tag_implicit_1(), der) matches Some(set) && attributes_valid(
        set,
    ))
}

/// The encrypted data that `der` encodes.
pub open spec fn encrypted_data_of(der: Seq<u8>) -> Option<EncryptedDataView> {
    match sole_element(TAG_SEQUENCE, der) {
        Some(body) => match split_element(TAG_INTEGER, body) {
            Some((version, rest)) => match split_element(TAG_SEQUENCE, rest) {
                Some((content, rest)) => if version.len() == 1 && version[0] <= 5
                    && unprotected_attributes_valid(rest) {
                    encrypted_content_fields(version[0], content)
                } else {
                    None
                },
                None => None,
            },
            None => None,
        },
        None => None,
    }
}

/// Calls `from_der` of `spki::AlgorithmIdentifierOwned`.  Claimed: it accepts exactly
/// the encodings that [`algorithm_of`] describes, and returns their fields.
#[verifier::external_body]
pub(crate) fn algorithm_from_der(der: &[u8]) -> (r: Result<AlgorithmIdentifier, der::Error>)
    ensures
        match r {
            Ok(alg) => algorithm_of(der@) == Some(alg@),
            Err(_) => algorithm_of(der@) is None,
        },
{
    let alg = spki::AlgorithmIdentifierOwned::from_der(der)?;
    let parameters = match alg.parameters {
        Some(p) => Some(p.to_der()?),
        None => None,
    };
    Ok(AlgorithmIdentifier { oid: alg.oid.as_bytes().to_vec(), parameters })
}

/// Calls `to_der` of `spki::AlgorithmIdentifierOwned`.  Claimed: it returns the
/// encoding, and fails exactly where that would be longer than 2^32-1 octets.
#[verifier::external_body]
pub(crate) fn algorithm_to_der(alg: &AlgorithmIdentifier) -> (r: Result<Vec<u8>, der::Error>)
    requires
        alg@.wf(),
    ensures
        match r {
            Ok(der) => der@ == alg@.encoding() && der@.len() <= max_der_len(),
            Err(_) => alg@.encoding().len() > max_der_len(),
        },
{
    let parameters = match &alg.parameters {
        Some(p) => Some(der::Any::from_der(p)?),
        None => None,
    };
    spki::AlgorithmIdentifierOwned { oid: ObjectIdentifier::from_bytes(&alg.oid)?, parameters }
        .to_der()
}

/// Calls `from_der` of `cms::content_info::ContentInfo`.  Claimed: it accepts exactly
/// the encodings that [`content_info_of`] describes, and returns their fields.
#[verifier::external_body]
pub(crate) fn content_info_from_der(der: &[u8]) -> (r: Result<ContentInfo, der::Error>)
    ensures
        match r {
            Ok(info) => content_info_of(der@) == Some(info@),
            Err(_) => content_info_of(der@) is None,
        },
{
    let info = cms::content_info::ContentInfo::from_der(der)?;
    Ok(ContentInfo {
        content_type: info.content_type.as_bytes().to_vec(),
        content: info.content.to_der()?,
    })
}

/// Calls `to_der` of `cms::content_info::ContentInfo`.  Claimed: it returns the
/// encoding, and fails exactly where that would be longer than 2^32-1 octets.
#[verifier::external_body]
pub(crate) fn content_info_to_der(info: &ContentInfo) -> (r: Result<Vec<u8>, der::Error>)
    requires
        info@.wf(),
    ensures
        match r {
            Ok(der) => der@ == info@.encoding() && der@.len() <= max_der_len(),
            Err(_) => info@.encoding().len() > max_der_len(),
        },
{
    cms::content_info::ContentInfo {
        content_type: ObjectIdentifier::from_bytes(&info.content_type)?,
        content: der::Any::from_der(&info.content)?,
    }.to_der()
}

/// Calls `from_der` of `cms::encrypted_data::EncryptedData`.  Claimed: it accepts
/// exactly the encodings that [`encrypted_data_of`] describes, and returns their
/// fields; unprotected attributes are checked and dropped.
#[verifier::external_body]
pub(crate) fn encrypted_data_from_der(der: &[u8]) -> (r: Result<EncryptedData, der::Error>)
    ensures
        match r {
            Ok(data) => encrypted_data_of(der@) == Some(data@),
            Err(_) => encrypted_data_of(der@) is None,
        },
{
    let data = cms::encrypted_data::EncryptedData::from_der(der)?;
    let info = data.enc_content_info;
    let parameters = match info.content_enc_alg.parameters {
        Some(p) => Some(p.to_der()?),
        None => None,
    };
    let oid = info.content_enc_alg.oid.as_bytes().to_vec();
    Ok(EncryptedData {
        version: data.version as u8,
        content_type: info.content_type.as_bytes().to_vec(),
        content_enc_alg: AlgorithmIdentifier { oid, parameters },
        encrypted_content: info.encrypted_content.map(|c| c.into_bytes().into_vec()),
    })
}

/// Calls `to_der` of `cms::encrypted_data::EncryptedData` on a message without
/// unprotected attributes.  Claimed: it returns the encoding, and fails exactly where
/// that would be longer than 2^32-1 octets.
#[verifier::external_body]
pub(crate) fn encrypted_data_to_der(data: &EncryptedData) -> (r: Result<Vec<u8>, der::Error>)
    requires
        data@.wf(),
    ensures
        match r {
            Ok(der) => der@ == data@.encoding() && der@.len() <= max_der_len(),
            Err(_) => data@.encoding().len() > max_der_len(),
        },
{
    let oid = ObjectIdentifier::from_bytes(&data.content_enc_alg.oid)?;
    let parameters = data.content_enc_alg.parameters.as_ref().map(|p| der::Any::from_der(p));
    let content = data.encrypted_content.as_ref().map(|c| OctetString::new(c.as_slice()));
    let enc_content_info = EncryptedContentInfo {
        content_type: ObjectIdentifier::from_bytes(&data.content_type)?,
        content_enc_alg: spki::AlgorithmIdentifier { oid, parameters: parameters.transpose()? },
        encrypted_content: content.transpose()?,
    };
    let version = CmsVersion::from_der(&[0x02, 0x01, data.version])?;
    cms::encrypted_data::EncryptedData { version, enc_content_info, unprotected_attrs: None }
        .to_der()
}

/// Calls `from_der` of `x509_cert::attr::Attributes`.  Claimed: it accepts exactly the
/// SETs whose contents [`attributes_valid`] describes.
#[verifier::external_body]
pub(crate) fn check_attributes(der: &[u8]) -> (r: bool)
    ensures
        r == (sole_element(TAG_SET, der@) matches Some(set) && attributes_valid(set)),
{
    cms::cert::x509::attr::Attributes::from_der(der).is_ok()
}

/// Decoding an encoded algorithm identifier gives it back.
pub proof fn lemma_algorithm_round_trip(alg: AlgorithmIdentifierView)
    requires
        alg.wf(),
        alg.encoding().len() <= max_der_len(),
    ensures
        algorithm_of(alg.encoding()) == Some(alg),
        algorithm_fields(tlv(TAG_OID, alg.oid) + optional_octets(alg.parameters)) == Some(alg),
{
    let body = tlv(TAG_OID, alg.oid) + optional_octets(alg.parameters);
    lemma_sole_element_of_tlv(TAG_SEQUENCE, body);
    lemma_split_element_of_tlv(TAG_OID, alg.oid, optional_octets(alg.parameters));
}

/// Decoding an encoded content info gives it back.
pub proof fn lemma_content_info_round_trip(info: ContentInfoView)
    requires
        info.wf(),
        info.encoding().len() <= max_der_len(),
    ensures
        content_info_of(info.encoding()) == Some(info),
{
    let explicit = tlv(TAG_EXPLICIT_0, info.content);
    lemma_sole_element_of_tlv(TAG_SEQUENCE, tlv(TAG_OID, info.content_type) + explicit);
    lemma_split_element_of_tlv(TAG_OID, info.content_type, explicit);
    lemma_sole_element_of_tlv(TAG_EXPLICIT_0, info.content);
}

/// Decoding encoded encrypted data gives it back.
pub proof fn lemma_encrypted_data_round_trip(data: EncryptedDataView)
    requires
        data.wf(),
        data.encoding().len() <= max_der_len(),
    ensures
        encrypted_data_of(data.encoding()) == Some(data),
        is_element(data.encoding()),
{
    let alg = data.content_enc_alg;
    let content = match data.encrypted_content {
        Some(c) => tlv(tag_implicit_0(), c),
        None => Seq::empty(),
    };
    let alg_body = tlv(TAG_OID, alg.oid) + optional_octets(alg.parameters);
    let body = tlv(TAG_OID, data.content_type) + (alg.encoding() + content);
    lemma_tlv_is_element(
        TAG_SEQUENCE,
        tlv(TAG_INTEGER, seq![data.version]) + data.content_encoding(),
    );
    lemma_sole_element_of_tlv(
        TAG_SEQUENCE,
        tlv(TAG_INTEGER, seq![data.version]) + data.content_encoding(),
    );
    lemma_split_element_of_tlv(TAG_INTEGER, seq![data.version], data.content_encoding());
    assert(data.content_encoding() + Seq::<u8>::empty() =~= data.content_encoding());
    lemma_split_element_of_tlv(TAG_SEQUENCE, body, Seq::empty());
    lemma_split_element_of_tlv(TAG_OID, data.content_type, alg.encoding() + content);
    lemma_split_element_of_tlv(TAG_SEQUENCE, alg_body, content);
    lemma_algorithm_round_trip(alg);
    if data.encrypted_content is Some {
        lemma_sole_element_of_tlv(tag_implicit_0(), data.encrypted_content->0);
    }
}

} // verus!
