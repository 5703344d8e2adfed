//! What holds of an archive that was built, whatever builds it.

use crate::asn1::{
    integer_element, joined, lemma_tlv_is_element, lemma_tlv_len, sole_element, tlv,
};
use crate::builder::{
    build_outcome, built_auth_safe, built_pfx, cert_contents, cert_group, cert_parameters,
    cert_safe_bags, data_group, encrypted_key, key_contents, key_group, key_parameters,
    key_safe_bag, mac_data, message, message_group, pbes2_parameters, sealed_pfx,
    EncryptionAlgorithm, Error, Failure, MacAlgorithm, PfxBuilderView, Randomness,
};
use crate::cms::{
    encrypted_data_of, lemma_encrypted_data_round_trip, ContentInfoView, EncryptedDataView,
};
use crate::hash::{hmac_sha256_tag, HashAlgorithm};
use crate::kdf::{bmp_encodable, derived_key, encoded_password, Pkcs12KeyType};
use crate::kdf_laws::law_password_encodable;
use crate::laws::law_built_structure;
use crate::oid::{
    lemma_written_oids, ID_AES256_CBC, ID_DATA, ID_ENCRYPTED_DATA, ID_HMAC_WITH_SHA256, ID_PBES2,
    ID_PBKDF2, ID_SHA_256, PKCS_12_CERT_BAG_OID, PKCS_12_PKCS8_KEY_BAG_OID, PKCS_12_X509_CERT_OID,
};
use crate::parser::parse_outcome;
use crate::parser_laws::{holds_cert, in_plane, sha256_tag};
use crate::pbes2::{
    encrypted_key_fields, lemma_written_key, lemma_written_parameters, padded_len, pbes2_ciphertext,
    pbes2_plaintext, Pbes2Parameters, AES_IV_LEN, PBKDF2_SALT_LEN,
};
use crate::pfx::{authenticated_safe_of, pfx_of, PfxView};
use crate::round_trip::{
    archive_decrypts, lemma_bag_len, lemma_built_archive_parses, lemma_cert_contents_read,
    lemma_key_contents_read, lemma_outer_read, lemma_part_lens,
};
use crate::safe_bag::safe_contents_of;
use crate::syntax_laws::{law_joined, law_safe_contents_written, law_sole_element};
use vstd::prelude::*;
use vstd::utf8::encode_utf8;

verus! {

/// The encoding of PBES2 parameters: PBKDF2 over HMAC-SHA-256 with this salt and iteration
/// count, and AES-256 in CBC mode with this vector.
pub open spec fn is_pbes2_encoding(
    params: Seq<u8>,
    iterations: u32,
    salt: Seq<u8>,
    iv: Seq<u8>,
) -> bool {
    params == tlv(
        0x30,
        tlv(
            0x30,
            tlv(0x06, ID_PBKDF2@) + tlv(
                0x30,
                tlv(0x04, salt) + (integer_element(iterations as i32) + tlv(
                    0x30,
                    tlv(0x06, ID_HMAC_WITH_SHA256@) + seq![0x05u8, 0x00u8],
                )),
            ),
        ) + tlv(0x30, tlv(0x06, ID_AES256_CBC@) + tlv(0x04, iv)),
    )
}

/// The parameters of an encryption are the iteration count that was asked for, as it is,
/// and the salt and the vector that were drawn; they can be used up to 100 million
/// iterations.
pub proof fn law_encryption_settings(
    iterations: u32,
    salt: [u8; PBKDF2_SALT_LEN],
    iv: [u8; AES_IV_LEN],
)
    ensures
        ({
            let params = pbes2_parameters(
                EncryptionAlgorithm::Pbes2Aes256Cbc { iterations },
                salt,
                iv,
            );
            &&& params.iterations == iterations
            &&& params.salt == salt
            &&& params.iv == iv
            &&& is_pbes2_encoding(params.encoding(), iterations, salt@, iv@)
            &&& params.wf() <==> iterations <= 100_000_000
        }),
{
}

/// A ciphertext is whole blocks of 16 octets, and between one octet and a block longer than
/// the plaintext.
pub proof fn law_padding(len: nat)
    ensures
        padded_len(len) % 16 == 0,
        len < padded_len(len) <= len + 16,
{
}

/// The groups of the archive that `der` encodes.
#[verifier::opaque]
pub open spec fn archive_groups(der: Seq<u8>) -> Option<Seq<ContentInfoView>> {
    match pfx_of(der) {
        Some(pfx) => if pfx.auth_safe.content_type == ID_DATA@ {
            match sole_element(0x04, pfx.auth_safe.content) {
                Some(auth_safe) => authenticated_safe_of(auth_safe),
                None => None,
            }
        } else {
            None
        },
        None => None,
    }
}

proof fn lemma_archive_groups(b: PfxBuilderView, random: Randomness)
    requires
        build_outcome(b, random) is Ok,
    ensures
        archive_groups(build_outcome(b, random)->Ok_0) == Some(
            seq![cert_group(b, random), key_group(b, random)],
        ),
{
    lemma_built_sizes(b, random);
    lemma_built_message_read(b, random);
    lemma_built_key_contents_read(b, random);
    lemma_outer_read(b, random);
    lemma_groups_of(
        build_outcome(b, random)->Ok_0,
        built_pfx(b, random),
        built_auth_safe(b, random),
        seq![cert_group(b, random), key_group(b, random)],
    );
}

proof fn lemma_built_sizes(b: PfxBuilderView, random: Randomness)
    requires
        build_outcome(b, random) is Ok,
    ensures
        build_outcome(b, random) == Ok::<Seq<u8>, Failure>(built_pfx(b, random).encoding()),
        built_pfx(b, random).encoding().len() <= 0xffff_ffff,
        cert_contents(b.certs()).len() <= 0xffff_ffff,
        cert_group(b, random).content.len() <= 0xffff_ffff,
        key_group(b, random).content.len() <= 0xffff_ffff,
        b.cert_der is Some,
        b.key_der is Some,
{
    lemma_part_lens(b, random);
}

proof fn lemma_built_message_read(b: PfxBuilderView, random: Randomness)
    requires
        cert_group(b, random).content.len() <= 0xffff_ffff,
    ensures
        cert_group(b, random).wf(),
        encrypted_data_of(cert_group(b, random).content) == Some(
            message(
                cert_parameters(b, random),
                pbes2_ciphertext(
                    cert_parameters(b, random).encoding(),
                    encode_utf8(b.password),
                    cert_contents(b.certs()),
                ),
            ),
        ),
{
    let params = cert_parameters(b, random);
    lemma_written_oids();
    lemma_written_parameters(params);
    lemma_encrypted_data_round_trip(
        message(
            params,
            pbes2_ciphertext(
                params.encoding(),
                encode_utf8(b.password),
                cert_contents(b.certs()),
            ),
        ),
    );
}

proof fn lemma_built_key_contents_read(b: PfxBuilderView, random: Randomness)
    requires
        key_group(b, random).content.len() <= 0xffff_ffff,
    ensures
        key_group(b, random).wf(),
        sole_element(0x04, key_group(b, random).content) == Some(
            key_contents(
                encrypted_key(key_parameters(b, random), encode_utf8(b.password), b.key_der->0),
            ),
        ),
{
    let contents = key_contents(
        encrypted_key(key_parameters(b, random), encode_utf8(b.password), b.key_der->0),
    );
    lemma_written_oids();
    lemma_tlv_is_element(0x04, contents);
    law_sole_element(0x04, tlv(0x04, contents), contents);
}

proof fn lemma_groups_of(
    der: Seq<u8>,
    pfx: PfxView,
    auth_safe: Seq<u8>,
    infos: Seq<ContentInfoView>,
)
    requires
        pfx_of(der) == Some(pfx),
        pfx.auth_safe.content_type == ID_DATA@,
        sole_element(0x04, pfx.auth_safe.content) == Some(auth_safe),
        authenticated_safe_of(auth_safe) == Some(infos),
    ensures
        archive_groups(der) == Some(infos),
{
    reveal(archive_groups);
}

/// Whether `plaintext` encodes one bag per certificate, in order, and nothing else.
#[verifier::opaque]
pub open spec fn is_cert_bags(plaintext: Seq<u8>, cert: Seq<u8>, ca_certs: Seq<Seq<u8>>) -> bool {
    &&& safe_contents_of(plaintext) matches Some(bags)
    &&& bags.len() == 1 + ca_certs.len()
    &&& holds_cert(bags[0], PKCS_12_X509_CERT_OID@, cert)
    &&& forall|i: int|
        0 <= i < ca_certs.len() ==> holds_cert(
            bags[i + 1],
            PKCS_12_X509_CERT_OID@,
            #[trigger] ca_certs[i],
        )
    &&& forall|i: int|
        0 <= i < bags.len() ==> (#[trigger] bags[i]).bag_id == PKCS_12_CERT_BAG_OID@
            && bags[i].bag_attributes is None
}

/// Whether a message is a ciphertext of `plaintext`, under PBES2 with this iteration count,
/// salt and vector, and says so.
#[verifier::opaque]
pub open spec fn is_message_of(
    data: EncryptedDataView,
    plaintext: Seq<u8>,
    password: Seq<u8>,
    iterations: u32,
    salt: Seq<u8>,
    iv: Seq<u8>,
) -> bool {
    &&& data.version == 0
    &&& data.content_type == ID_DATA@
    &&& data.content_enc_alg.oid == ID_PBES2@
    &&& data.content_enc_alg.parameters matches Some(params)
    &&& is_pbes2_encoding(params, iterations, salt, iv)
    &&& data.encrypted_content == Some(pbes2_ciphertext(params, password, plaintext))
}

/// The certificate group of an archive, read back: one message under PBES2 with the
/// builder's own iteration count, salt and vector, whose plaintext is one bag per
/// certificate, in order, and nothing else.
pub proof fn law_built_cert_group(b: PfxBuilderView, random: Randomness, iterations: u32)
    requires
        build_outcome(b, random) is Ok,
        b.cert_enc_alg == (EncryptionAlgorithm::Pbes2Aes256Cbc { iterations }),
    ensures
        ({
            &&& archive_groups(build_outcome(b, random)->Ok_0) matches Some(infos)
            &&& infos.len() == 2
            &&& infos[0].content_type == ID_ENCRYPTED_DATA@
            &&& encrypted_data_of(infos[0].content) matches Some(data)
            &&& exists|plaintext: Seq<u8>|
                is_message_of(
                    data,
                    plaintext,
                    encode_utf8(b.password),
                    iterations,
                    random.cert_salt@,
                    random.cert_iv@,
                ) && is_cert_bags(plaintext, b.cert_der->0, b.ca_certs_der)
        }),
{
    lemma_archive_groups(b, random);
    lemma_built_sizes(b, random);
    lemma_built_message(b, random, iterations);
    lemma_built_message_read(b, random);
}

proof fn lemma_built_message(b: PfxBuilderView, random: Randomness, iterations: u32)
    requires
        build_outcome(b, random) is Ok,
        b.cert_enc_alg == (EncryptionAlgorithm::Pbes2Aes256Cbc { iterations }),
    ensures
        is_message_of(
            message(
                cert_parameters(b, random),
                pbes2_ciphertext(
                    cert_parameters(b, random).encoding(),
                    encode_utf8(b.password),
                    cert_contents(b.certs()),
                ),
            ),
            cert_contents(b.certs()),
            encode_utf8(b.password),
            iterations,
            random.cert_salt@,
            random.cert_iv@,
        ),
        is_cert_bags(cert_contents(b.certs()), b.cert_der->0, b.ca_certs_der),
{
    reveal(is_message_of);
    law_encryption_settings(iterations, random.cert_salt, random.cert_iv);
    lemma_cert_bags_shape(b);
}

proof fn lemma_cert_bags_shape(b: PfxBuilderView)
    requires
        b.cert_der is Some,
        cert_contents(b.certs()).len() <= 0xffff_ffff,
    ensures
        is_cert_bags(cert_contents(b.certs()), b.cert_der->0, b.ca_certs_der),
{
    reveal(is_cert_bags);
    let certs = b.certs();
    let bags = cert_safe_bags(certs);
    lemma_written_oids();
    lemma_cert_contents_read(certs, b.password);
    assert forall|i: int| 0 <= i < bags.len() implies holds_cert(
        #[trigger] bags[i],
        PKCS_12_X509_CERT_OID@,
        certs[i],
    ) by {
        lemma_bag_len(bags, i);
        lemma_tlv_len(0x30, bags[i].fields());
    }
    assert forall|i: int| 0 <= i < b.ca_certs_der.len() implies holds_cert(
        bags[i + 1],
        PKCS_12_X509_CERT_OID@,
        #[trigger] b.ca_certs_der[i],
    ) by {
        assert(certs[i + 1] == b.ca_certs_der[i]);
    }
    assert(certs[0] == b.cert_der->0);
    assert(holds_cert(bags[0], PKCS_12_X509_CERT_OID@, certs[0]));
}

/// Whether `contents` encode a single shrouded key bag that holds the key, under PBES2 with
/// this iteration count, salt and vector.
#[verifier::opaque]
pub open spec fn is_key_bag_of(
    contents: Seq<u8>,
    key: Seq<u8>,
    password: Seq<u8>,
    iterations: u32,
    salt: Seq<u8>,
    iv: Seq<u8>,
) -> bool {
    &&& safe_contents_of(contents) matches Some(bags)
    &&& bags.len() == 1
    &&& bags[0].bag_id == PKCS_12_PKCS8_KEY_BAG_OID@
    &&& bags[0].bag_attributes is None
    &&& sole_element(0xa0, bags[0].bag_value) matches Some(der)
    &&& encrypted_key_fields(der) matches Some((alg, ciphertext))
    &&& alg.oid == ID_PBES2@
    &&& alg.parameters matches Some(params)
    &&& is_pbes2_encoding(params, iterations, salt, iv)
    &&& ciphertext == pbes2_ciphertext(params, password, key)
}

/// The key group of an archive, read back: a single shrouded key bag, with the key under
/// PBES2 with the builder's own iteration count, salt and vector.
pub proof fn law_built_key_group(b: PfxBuilderView, random: Randomness, iterations: u32)
    requires
        build_outcome(b, random) is Ok,
        b.key_enc_alg == (EncryptionAlgorithm::Pbes2Aes256Cbc { iterations }),
    ensures
        ({
            &&& archive_groups(build_outcome(b, random)->Ok_0) matches Some(infos)
            &&& infos.len() == 2
            &&& infos[1].content_type == ID_DATA@
            &&& sole_element(0x04, infos[1].content) matches Some(contents)
            &&& is_key_bag_of(
                contents,
                b.key_der->0,
                encode_utf8(b.password),
                iterations,
                random.key_salt@,
                random.key_iv@,
            )
        }),
{
    lemma_archive_groups(b, random);
    lemma_built_sizes(b, random);
    lemma_built_key_bag(b, random, iterations);
    lemma_built_key_contents_read(b, random);
}

proof fn lemma_built_key_bag(b: PfxBuilderView, random: Randomness, iterations: u32)
    requires
        build_outcome(b, random) is Ok,
        b.key_enc_alg == (EncryptionAlgorithm::Pbes2Aes256Cbc { iterations }),
    ensures
        is_key_bag_of(
            key_contents(
                encrypted_key(key_parameters(b, random), encode_utf8(b.password), b.key_der->0),
            ),
            b.key_der->0,
            encode_utf8(b.password),
            iterations,
            random.key_salt@,
            random.key_iv@,
        ),
{
    let params = key_parameters(b, random);
    assert(key_contents(encrypted_key(params, encode_utf8(b.password), b.key_der->0)).len()
        <= 0xffff_ffff) by {
        lemma_part_lens(b, random);
    }
    lemma_key_bag_shape(params, encode_utf8(b.password), b.key_der->0);
}

proof fn lemma_key_bag_shape(params: Pbes2Parameters, password: Seq<u8>, key: Seq<u8>)
    requires
        key_contents(encrypted_key(params, password, key)).len() <= 0xffff_ffff,
    ensures
        is_key_bag_of(
            key_contents(encrypted_key(params, password, key)),
            key,
            password,
            params.iterations,
            params.salt@,
            params.iv@,
        ),
{
    reveal(is_key_bag_of);
    let der = encrypted_key(params, password, key);
    lemma_key_contents_read(der);
    lemma_tlv_len(0xa0, der);
    law_sole_element(0xa0, tlv(0xa0, der), der);
    lemma_written_key(params, pbes2_ciphertext(params.encoding(), password, key));
}

/// The MAC of an archive, read back: HMAC-SHA-256, without parameters, with the builder's
/// own iteration count and salt, over the octets of the groups.
pub proof fn law_built_mac(b: PfxBuilderView, random: Randomness, iterations: i32)
    requires
        build_outcome(b, random) is Ok,
        b.mac_alg == (MacAlgorithm::HmacSha256 { iterations }),
    ensures
        ({
            &&& pfx_of(build_outcome(b, random)->Ok_0) matches Some(pfx)
            &&& sole_element(0x04, pfx.auth_safe.content) matches Some(auth_safe)
            &&& pfx.mac_data matches Some(mac)
            &&& mac.mac.algorithm.oid == ID_SHA_256@
            &&& mac.mac.algorithm.parameters is None
            &&& mac.mac_salt == random.mac_salt@
            &&& mac.iterations == iterations
            &&& mac.mac.digest == sha256_tag(mac, auth_safe, b.password)
        }),
{
    law_built_structure(b, random);
}

/// Building fails exactly for these reasons: the certificate is not set, or else the key; an
/// iteration count is above 100 million; the password has a character beyond U+FFFF; or the
/// archive, or what is encrypted in it, is longer than any DER encoding.
pub proof fn law_build_failures(
    b: PfxBuilderView,
    random: Randomness,
    cert_iterations: u32,
    key_iterations: u32,
)
    requires
        b.cert_enc_alg == (EncryptionAlgorithm::Pbes2Aes256Cbc { iterations: cert_iterations }),
        b.key_enc_alg == (EncryptionAlgorithm::Pbes2Aes256Cbc { iterations: key_iterations }),
    ensures
        b.cert_der is None ==> build_outcome(b, random) == Err::<Seq<u8>, Failure>(
            Failure::MissingField("cert"@),
        ),
        b.cert_der is Some && b.key_der is None ==> build_outcome(b, random) == Err::<
            Seq<u8>,
            Failure,
        >(Failure::MissingField("key"@)),
        b.cert_der is Some && b.key_der is Some ==> {
            let cert_fits = cert_contents(b.certs()).len() <= 0xffff_ffff;
            let group_fits = cert_group(b, random).content.len() <= 0xffff_ffff;
            let fits = cert_fits && group_fits && built_pfx(b, random).encoding().len()
                <= 0xffff_ffff;
            let bounded = cert_iterations <= 100_000_000 && key_iterations <= 100_000_000;
            &&& build_outcome(b, random) matches Err(failure) ==> failure == Failure::Asn1
                || failure == Failure::Encrypt
            &&& !cert_fits ==> build_outcome(b, random) == Err::<Seq<u8>, Failure>(Failure::Asn1)
            &&& cert_fits && cert_iterations > 100_000_000 ==> build_outcome(b, random) == Err::<
                Seq<u8>,
                Failure,
            >(Failure::Encrypt)
            &&& cert_fits && cert_iterations <= 100_000_000 && !group_fits ==> build_outcome(
                b,
                random,
            ) == Err::<Seq<u8>, Failure>(Failure::Asn1)
            &&& cert_fits && cert_iterations <= 100_000_000 && group_fits && key_iterations
                > 100_000_000 ==> build_outcome(b, random) == Err::<Seq<u8>, Failure>(
                Failure::Encrypt,
            )
            &&& build_outcome(b, random) is Ok <==> fits && bounded && in_plane(b.password)
            &&& build_outcome(b, random) == Ok::<Seq<u8>, Failure>(built_pfx(b, random).encoding())
                || build_outcome(b, random) is Err
            &&& bounded && !(fits && in_plane(b.password)) ==> build_outcome(b, random) == Err::<
                Seq<u8>,
                Failure,
            >(Failure::Asn1)
        },
{
    law_password_encodable(b.password);
    assert(in_plane(b.password) == bmp_encodable(b.password));
}

/// What the cipher's own functions promise of what they wrote: the certificates and the key
/// of the archive decrypt under the password.
pub proof fn law_archive_decrypts(b: PfxBuilderView, random: Randomness)
    requires
        archive_decrypts(b, random),
    ensures
        ({
            let password = encode_utf8(b.password);
            let certs = cert_parameters(b, random).encoding();
            let key = key_parameters(b, random).encoding();
            let plaintext = cert_contents(b.certs());
            &&& pbes2_plaintext(certs, password, pbes2_ciphertext(certs, password, plaintext))
                == Some(plaintext)
            &&& pbes2_plaintext(key, password, pbes2_ciphertext(key, password, b.key_der->0))
                == Some(b.key_der->0)
        }),
{
}

/// An archive gives back, under the password that it was built with, the key, the
/// certificate and the CA certificates in their order, as verified.
pub proof fn law_round_trip(b: PfxBuilderView, random: Randomness)
    requires
        build_outcome(b, random) is Ok,
        archive_decrypts(b, random),
    ensures
        ({
            &&& parse_outcome(build_outcome(b, random)->Ok_0, b.password) matches Ok(contents)
            &&& Some(contents.key_der) == b.key_der
            &&& Some(contents.certificate) == b.cert_der
            &&& contents.additional_certificates == b.ca_certs_der
            &&& contents.mac_verified
        }),
{
    lemma_built_archive_parses(b, random);
}

/// The octets of some certificates are a SEQUENCE of their bags, each a bag of type
/// `certBag` that holds an X.509 certificate.
pub proof fn law_cert_contents(certs: Seq<Seq<u8>>, items: Seq<Seq<u8>>)
    requires
        items.len() == certs.len(),
        forall|i: int|
            0 <= i < certs.len() ==> items[i] == tlv(
                0x30,
                tlv(0x06, PKCS_12_CERT_BAG_OID@) + tlv(
                    0xa0,
                    tlv(
                        0x30,
                        tlv(0x06, PKCS_12_X509_CERT_OID@) + tlv(
                            0xa0,
                            tlv(0x04, #[trigger] certs[i]),
                        ),
                    ),
                ),
            ),
    ensures
        cert_contents(certs) == tlv(0x30, joined(items)),
{
    let bags = cert_safe_bags(certs);
    assert forall|i: int| 0 <= i < bags.len() implies items[i] == (
    #[trigger] bags[i]).encoding() by {
        let value = bags[i].bag_value;
        assert(items[i] == tlv(
            0x30,
            tlv(0x06, PKCS_12_CERT_BAG_OID@) + tlv(
                0xa0,
                tlv(
                    0x30,
                    tlv(0x06, PKCS_12_X509_CERT_OID@) + tlv(0xa0, tlv(0x04, certs[i])),
                ),
            ),
        ));
        assert(value + Seq::<u8>::empty() =~= value);
    }
    law_safe_contents_written(bags, items);
}

/// The other parts of an archive, as they are put together.
pub proof fn law_parts(
    b: PfxBuilderView,
    params: Pbes2Parameters,
    octets: Seq<u8>,
    password: Seq<char>,
    salt: Seq<u8>,
    iterations: i32,
)
    ensures
        b.cert_der matches Some(cert) ==> b.certs().len() == 1 + b.ca_certs_der.len()
            && b.certs()[0] == cert && b.certs().skip(1) == b.ca_certs_der,
        data_group(octets).content_type == ID_DATA@ && data_group(octets).content == tlv(
            0x04,
            octets,
        ),
        message_group(params, octets).content_type == ID_ENCRYPTED_DATA@,
        message_group(params, octets).content == tlv(
            0x30,
            tlv(0x02, seq![0u8]) + tlv(
                0x30,
                tlv(0x06, ID_DATA@) + (tlv(0x30, tlv(0x06, ID_PBES2@) + params.encoding()) + tlv(
                    0x80,
                    octets,
                )),
            ),
        ),
        key_contents(octets) == tlv(
            0x30,
            tlv(0x30, tlv(0x06, PKCS_12_PKCS8_KEY_BAG_OID@) + tlv(0xa0, octets)),
        ),
        ({
            let mac = mac_data(MacAlgorithm::HmacSha256 { iterations }, password, octets, salt);
            &&& mac.mac.algorithm.oid == ID_SHA_256@ && mac.mac.algorithm.parameters is None
            &&& mac.mac_salt == salt && mac.iterations == iterations
            &&& mac.mac.digest == hmac_sha256_tag(
                derived_key(
                    HashAlgorithm::Sha256,
                    encoded_password(password),
                    salt,
                    Pkcs12KeyType::Mac,
                    iterations as int,
                    32,
                ),
                octets,
            )
            &&& sealed_pfx(
                octets,
                MacAlgorithm::HmacSha256 { iterations },
                password,
                salt,
            ).auth_safe == data_group(octets)
            &&& sealed_pfx(
                octets,
                MacAlgorithm::HmacSha256 { iterations },
                password,
                salt,
            ).mac_data == Some(mac)
        }),
{
    if b.cert_der is Some {
        assert(b.certs().skip(1) =~= b.ca_certs_der);
    }
    let bag = key_safe_bag(octets);
    let items = seq![bag.encoding()];
    assert(bag.bag_value + Seq::<u8>::empty() =~= bag.bag_value);
    law_safe_contents_written(seq![bag], items);
    law_joined(items, Seq::empty());
}

/// Each error is the failure of its own name.
pub proof fn law_build_errors(e: Error)
    ensures
        e.failure() == Failure::Asn1 <==> e is Asn1,
        e.failure() == Failure::Encrypt <==> e is Encrypt,
        e.failure() is MissingField <==> e is MissingField,
        e matches Error::MissingField(name) ==> e.failure() == Failure::MissingField(name@),
{
}

} // verus!
