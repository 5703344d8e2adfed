//! What holds of reading an archive, whatever reads it.

use crate::asn1::{integer_element, lemma_tlv_len, sole_element, split_element, tlv};
use crate::cert_bag::{cert_bag_of, CertBagView};
use crate::cms::{
    encrypted_data_of, AlgorithmIdentifierView, ContentInfoView, EncryptedDataView,
};
use crate::hash::{hmac_sha1_tag, hmac_sha256_tag, HashAlgorithm};
use crate::kdf::{bmp_encodable, derived_key, encoded_password, Pkcs12KeyType};
use crate::kdf_laws::law_password_encodable;
use crate::mac_data::MacDataView;
use crate::oid::{
    is_oid, ID_AES128_CBC, ID_AES128_GCM, ID_AES192_CBC, ID_AES256_CBC, ID_AES256_GCM, ID_DATA,
    ID_DES_EDE3_CBC, ID_ENCRYPTED_DATA, ID_HMAC_WITH_SHA1, ID_HMAC_WITH_SHA224,
    ID_HMAC_WITH_SHA256, ID_HMAC_WITH_SHA384, ID_HMAC_WITH_SHA512, ID_PBES2, ID_PBKDF2, ID_SCRYPT,
    ID_SHA_1, ID_SHA_256, PKCS_12_CERT_BAG_OID, PKCS_12_KEY_BAG_OID,
    PKCS_12_PBE_WITH_SHAAND3_KEY_TRIPLE_DES_CBC, PKCS_12_PKCS8_KEY_BAG_OID,
};
use crate::parser::{
    bag_outcome, bags_outcome, decrypt_outcome, groups_outcome, mac_outcome, parse_outcome,
    pfx_outcome, shrouded_key_outcome, unwrap_outcome, Error, Failure, Gathered, GatheredView,
    Pkcs12Contents, Pkcs12ContentsView,
};
use crate::pbe_params::{pbe_params_of, Pkcs12PbeParamsView};
use crate::pbes2::{
    affordable, encrypted_key_fields, encrypted_key_of, key_with_short_des_iv,
    names_unknown_algorithm, pbes2_algorithms, pbes2_parameters_of, pbes2_plaintext, pbkdf2_prf,
    short_des_iv,
};
use crate::pfx::{authenticated_safe_of, pfx_of, PfxView};
use crate::safe_bag::{safe_contents_of, SafeBagView};
use crate::syntax_laws::{
    law_cert_bag, law_encrypted_key_fields, law_pbe_params, law_sole_element, law_split_element,
};
use crate::tdes::tdes_cbc_plaintext;
use vstd::prelude::*;
use vstd::utf8::encode_utf8;

verus! {

/// Whether a password is made of the characters from U+0000 to U+FFFF alone.
pub open spec fn in_plane(password: Seq<char>) -> bool {
    forall|i: int| 0 <= i < password.len() ==> (#[trigger] password[i] as u32) <= 0xffff
}

proof fn lemma_in_plane(password: Seq<char>)
    ensures
        in_plane(password) == bmp_encodable(password),
{
    law_password_encodable(password);
}

// The MAC.

/// The HMAC-SHA-256 of `auth_safe` under the MAC key of 32 octets that the whole password
/// gives with the salt and the iteration count of the MAC data.
pub open spec fn sha256_tag(mac: MacDataView, auth_safe: Seq<u8>, password: Seq<char>) -> Seq<u8> {
    hmac_sha256_tag(
        derived_key(
            HashAlgorithm::Sha256,
            encoded_password(password),
            mac.mac_salt,
            Pkcs12KeyType::Mac,
            mac.iterations as int,
            32,
        ),
        auth_safe,
    )
}

/// The HMAC-SHA-1 of `auth_safe` under the MAC key of 20 octets that the whole password
/// gives with the salt and the iteration count of the MAC data.
pub open spec fn sha1_tag(mac: MacDataView, auth_safe: Seq<u8>, password: Seq<char>) -> Seq<u8> {
    hmac_sha1_tag(
        derived_key(
            HashAlgorithm::Sha1,
            encoded_password(password),
            mac.mac_salt,
            Pkcs12KeyType::Mac,
            mac.iterations as int,
            20,
        ),
        auth_safe,
    )
}

/// A MAC is accepted exactly where its digest is the tag under the derived key.  Of the
/// algorithm only the object identifier counts, not its parameters.
pub proof fn law_mac_decision(mac: MacDataView, auth_safe: Seq<u8>, password: Seq<char>)
    ensures
        ({
            let oid = mac.mac.algorithm.oid;
            let digest = mac.mac.digest;
            let outcome = mac_outcome(mac, auth_safe, password);
            &&& oid == ID_SHA_256@ && in_plane(password) ==> {
                &&& digest == sha256_tag(mac, auth_safe, password) ==> outcome is Ok
                &&& digest != sha256_tag(mac, auth_safe, password) ==> outcome == Err::<
                    (),
                    Failure,
                >(Failure::MacMismatch)
            }
            &&& oid == ID_SHA_1@ && in_plane(password) ==> {
                &&& digest == sha1_tag(mac, auth_safe, password) ==> outcome is Ok
                &&& digest != sha1_tag(mac, auth_safe, password) ==> outcome == Err::<(), Failure>(
                    Failure::MacMismatch,
                )
            }
            &&& (oid == ID_SHA_256@ || oid == ID_SHA_1@) && !in_plane(password) ==> outcome
                == Err::<(), Failure>(Failure::Asn1)
            &&& oid != ID_SHA_256@ && oid != ID_SHA_1@ ==> outcome == Err::<(), Failure>(
                Failure::UnsupportedAlgorithm,
            )
        }),
{
    lemma_in_plane(password);
    assert(ID_SHA_256@.len() != ID_SHA_1@.len());
}

/// An archive whose MAC names SHA-256 or SHA-1, with whatever parameters, and holds the tag
/// that the password gives is read as the same archive without a MAC, but as verified.
pub proof fn law_right_mac_is_accepted(
    pfx_der: Seq<u8>,
    pfx: PfxView,
    mac: MacDataView,
    auth_safe: Seq<u8>,
    password: Seq<char>,
)
    requires
        pfx_of(pfx_der) == Some(pfx),
        pfx.auth_safe.content_type == ID_DATA@,
        sole_element(0x04, pfx.auth_safe.content) == Some(auth_safe),
        pfx.mac_data == Some(mac),
        in_plane(password),
        ({
            ||| mac.mac.algorithm.oid == ID_SHA_256@ && mac.mac.digest == sha256_tag(
                mac,
                auth_safe,
                password,
            )
            ||| mac.mac.algorithm.oid == ID_SHA_1@ && mac.mac.digest == sha1_tag(
                mac,
                auth_safe,
                password,
            )
        }),
    ensures
        parse_outcome(pfx_der, password) == match pfx_outcome(
            PfxView { auth_safe: pfx.auth_safe, mac_data: None },
            password,
        ) {
            Ok(contents) => Ok::<Pkcs12ContentsView, Failure>(
                Pkcs12ContentsView {
                    key_der: contents.key_der,
                    certificate: contents.certificate,
                    additional_certificates: contents.additional_certificates,
                    mac_verified: true,
                },
            ),
            Err(failure) => Err(failure),
        },
{
    law_mac_decision(mac, auth_safe, password);
}

/// An archive with any other MAC is refused, whatever else is in it.
pub proof fn law_other_mac_is_refused(
    pfx_der: Seq<u8>,
    pfx: PfxView,
    mac: MacDataView,
    auth_safe: Seq<u8>,
    password: Seq<char>,
)
    requires
        pfx_of(pfx_der) == Some(pfx),
        pfx.auth_safe.content_type == ID_DATA@,
        sole_element(0x04, pfx.auth_safe.content) == Some(auth_safe),
        pfx.mac_data == Some(mac),
    ensures
        ({
            let oid = mac.mac.algorithm.oid;
            let outcome = parse_outcome(pfx_der, password);
            &&& in_plane(password) && ({
                ||| oid == ID_SHA_256@ && mac.mac.digest != sha256_tag(mac, auth_safe, password)
                ||| oid == ID_SHA_1@ && mac.mac.digest != sha1_tag(mac, auth_safe, password)
            }) ==> outcome == Err::<Pkcs12ContentsView, Failure>(Failure::MacMismatch)
            &&& !in_plane(password) && (oid == ID_SHA_256@ || oid == ID_SHA_1@) ==> outcome
                == Err::<Pkcs12ContentsView, Failure>(Failure::Asn1)
            &&& oid != ID_SHA_256@ && oid != ID_SHA_1@ ==> outcome == Err::<
                Pkcs12ContentsView,
                Failure,
            >(Failure::UnsupportedAlgorithm)
        }),
{
    law_mac_decision(mac, auth_safe, password);
}

// The outer structure.

/// Whether the MAC of an archive, if it has one, is right: of SHA-256 or SHA-1, with the tag
/// that the password gives.
pub open spec fn is_intact(pfx: PfxView, auth_safe: Seq<u8>, password: Seq<char>) -> bool {
    match pfx.mac_data {
        Some(mac) => in_plane(password) && ({
            ||| mac.mac.algorithm.oid == ID_SHA_256@ && mac.mac.digest == sha256_tag(
                mac,
                auth_safe,
                password,
            )
            ||| mac.mac.algorithm.oid == ID_SHA_1@ && mac.mac.digest == sha1_tag(
                mac,
                auth_safe,
                password,
            )
        }),
        None => true,
    }
}

/// An archive with a right MAC, or without one, gives what its groups hold: the key, the
/// first certificate and all the others, and whether there was a MAC.  It is refused where
/// its groups do not decode or are refused, where they hold no key, and, next, where they
/// hold no certificate.
pub proof fn law_archive(
    pfx_der: Seq<u8>,
    pfx: PfxView,
    auth_safe: Seq<u8>,
    password: Seq<char>,
)
    requires
        pfx_of(pfx_der) == Some(pfx),
        pfx.auth_safe.content_type == ID_DATA@,
        sole_element(0x04, pfx.auth_safe.content) == Some(auth_safe),
        is_intact(pfx, auth_safe, password),
    ensures
        authenticated_safe_of(auth_safe) is None ==> parse_outcome(pfx_der, password) == Err::<
            Pkcs12ContentsView,
            Failure,
        >(Failure::Asn1),
        authenticated_safe_of(auth_safe) matches Some(infos) ==> match groups_outcome(
            infos,
            password,
        ) {
            Ok(found) => {
                &&& found.key_der is None ==> parse_outcome(pfx_der, password) == Err::<
                    Pkcs12ContentsView,
                    Failure,
                >(Failure::MissingKey)
                &&& found.key_der is Some && found.certs.len() == 0 ==> parse_outcome(
                    pfx_der,
                    password,
                ) == Err::<Pkcs12ContentsView, Failure>(Failure::MissingCert)
                &&& found.key_der is Some && found.certs.len() > 0 ==> {
                    &&& parse_outcome(pfx_der, password) matches Ok(contents)
                    &&& contents.key_der == found.key_der->0
                    &&& seq![contents.certificate] + contents.additional_certificates == found.certs
                    &&& contents.mac_verified <==> pfx.mac_data is Some
                }
            },
            Err(failure) => parse_outcome(pfx_der, password) == Err::<Pkcs12ContentsView, Failure>(
                failure,
            ),
        },
{
    if pfx.mac_data is Some {
        law_mac_decision(pfx.mac_data->0, auth_safe, password);
    }
    if authenticated_safe_of(auth_safe) is Some {
        let infos = authenticated_safe_of(auth_safe)->0;
        if groups_outcome(infos, password) is Ok {
            let found = groups_outcome(infos, password)->Ok_0;
            if found.certs.len() > 0 {
                assert(seq![found.certs[0]] + found.certs.skip(1) =~= found.certs);
            }
        }
    }
}

/// What does not decode is refused as that, and an archive of another type than `id-data`
/// as not supported, whatever else is in it.
pub proof fn law_malformed_archive(pfx_der: Seq<u8>, password: Seq<char>)
    ensures
        pfx_of(pfx_der) is None ==> parse_outcome(pfx_der, password) == Err::<
            Pkcs12ContentsView,
            Failure,
        >(Failure::Asn1),
        pfx_of(pfx_der) matches Some(pfx) && pfx.auth_safe.content_type != ID_DATA@
            ==> parse_outcome(pfx_der, password) == Err::<Pkcs12ContentsView, Failure>(
            Failure::UnsupportedAlgorithm,
        ),
        pfx_of(pfx_der) matches Some(pfx) && pfx.auth_safe.content_type == ID_DATA@
            && sole_element(0x04, pfx.auth_safe.content) is None ==> parse_outcome(
            pfx_der,
            password,
        ) == Err::<Pkcs12ContentsView, Failure>(Failure::Asn1),
{
}

// The groups.

/// A plain group gives all the bags that its OCTET STRING encodes, and is refused where
/// that encodes no bags.
pub proof fn law_plain_group(info: ContentInfoView, contents: Seq<u8>, password: Seq<char>)
    requires
        info.content_type == ID_DATA@,
        info.content == tlv(0x04, contents),
        info.content.len() <= 0xffff_ffff,
    ensures
        safe_contents_of(contents) matches Some(bags) ==> unwrap_outcome(info, password) == Ok::<
            Seq<SafeBagView>,
            Failure,
        >(bags),
        safe_contents_of(contents) is None ==> unwrap_outcome(info, password) == Err::<
            Seq<SafeBagView>,
            Failure,
        >(Failure::Asn1),
{
    law_sole_element(0x04, info.content, contents);
}

/// A plain group that is no OCTET STRING is refused.
pub proof fn law_plain_group_of_other_content(info: ContentInfoView, password: Seq<char>)
    requires
        info.content_type == ID_DATA@,
        forall|contents: Seq<u8>| info.content != #[trigger] tlv(0x04, contents),
    ensures
        unwrap_outcome(info, password) == Err::<Seq<SafeBagView>, Failure>(Failure::Asn1),
{
    if sole_element(0x04, info.content) is Some {
        let contents = sole_element(0x04, info.content)->0;
        law_sole_element(0x04, info.content, contents);
    }
}

/// An encrypted group gives all the bags that its plaintext encodes, whatever the scheme; it
/// is refused where it does not decode or decrypt, or where the plaintext encodes no bags.
pub proof fn law_encrypted_group(info: ContentInfoView, password: Seq<char>)
    requires
        info.content_type == ID_ENCRYPTED_DATA@,
    ensures
        encrypted_data_of(info.content) is None ==> unwrap_outcome(info, password) == Err::<
            Seq<SafeBagView>,
            Failure,
        >(Failure::Asn1),
        encrypted_data_of(info.content) matches Some(data) ==> match decrypt_outcome(
            data,
            password,
        ) {
            Ok(plaintext) => {
                &&& safe_contents_of(plaintext) matches Some(bags) ==> unwrap_outcome(
                    info,
                    password,
                ) == Ok::<Seq<SafeBagView>, Failure>(bags)
                &&& safe_contents_of(plaintext) is None ==> unwrap_outcome(info, password) == Err::<
                    Seq<SafeBagView>,
                    Failure,
                >(Failure::Asn1)
            },
            Err(failure) => unwrap_outcome(info, password) == Err::<Seq<SafeBagView>, Failure>(
                failure,
            ),
        },
{
    assert(ID_DATA@[8] != ID_ENCRYPTED_DATA@[8]);
}

/// A group of another type gives no bags, and no error.
pub proof fn law_other_group(info: ContentInfoView, password: Seq<char>)
    requires
        info.content_type != ID_DATA@,
        info.content_type != ID_ENCRYPTED_DATA@,
    ensures
        unwrap_outcome(info, password) matches Ok(bags) && bags.len() == 0,
{
}

/// The groups of an archive are read one after the other, and the first failure ends it.
pub proof fn law_group_by_group(
    infos: Seq<ContentInfoView>,
    info: ContentInfoView,
    password: Seq<char>,
)
    ensures
        groups_outcome(Seq::empty(), password) matches Ok(found) && found.certs.len() == 0
            && found.key_der is None,
        groups_outcome(infos, password) is Err ==> groups_outcome(infos.push(info), password)
            == groups_outcome(infos, password),
        groups_outcome(infos, password) is Ok && unwrap_outcome(info, password) is Err ==> (
        groups_outcome(infos.push(info), password) matches Err(failure) && failure
            == unwrap_outcome(info, password)->Err_0),
        groups_outcome(infos, password) matches Ok(found) && (unwrap_outcome(
            info,
            password,
        ) matches Ok(bags) && groups_outcome(infos.push(info), password) == bags_outcome(
            found,
            bags,
            password,
        )) || groups_outcome(infos, password) is Err || unwrap_outcome(info, password) is Err,
{
    assert(infos.push(info).drop_last() =~= infos);
}

// The bags.

/// The bags of a group are read one after the other, and the first failure ends it.
pub proof fn law_bag_by_bag(
    found: GatheredView,
    bags: Seq<SafeBagView>,
    bag: SafeBagView,
    password: Seq<char>,
)
    ensures
        bags_outcome(found, Seq::empty(), password) == Ok::<GatheredView, Failure>(found),
        match bags_outcome(found, bags, password) {
            Ok(between) => bags_outcome(found, bags.push(bag), password) == bag_outcome(
                between,
                bag,
                password,
            ),
            Err(failure) => bags_outcome(found, bags.push(bag), password) == Err::<
                GatheredView,
                Failure,
            >(failure),
        },
{
    assert(bags.push(bag).drop_last() =~= bags);
}

/// Whether a bag's value is `der` under the explicit tag.
pub open spec fn holds(bag: SafeBagView, der: Seq<u8>) -> bool {
    bag.bag_value == tlv(0xa0, der) && bag.bag_value.len() <= 0xffff_ffff
}

/// A certificate bag adds the certificate that it holds behind those found before, and
/// nothing else; it is refused exactly where it holds none.
pub proof fn law_cert_bag_adds(found: GatheredView, bag: SafeBagView, password: Seq<char>)
    requires
        bag.bag_id == PKCS_12_CERT_BAG_OID@,
    ensures
        forall|id: Seq<u8>, cert: Seq<u8>| #[trigger]
            holds_cert(bag, id, cert) ==> bag_outcome(found, bag, password) == Ok::<
                GatheredView,
                Failure,
            >(GatheredView { certs: found.certs.push(cert), key_der: found.key_der }),
        bag_outcome(found, bag, password) is Ok ==> exists|id: Seq<u8>, cert: Seq<u8>| #[trigger]
            holds_cert(bag, id, cert),
        bag_outcome(found, bag, password) matches Err(failure) ==> failure == Failure::Asn1,
{
    assert forall|id: Seq<u8>, cert: Seq<u8>| #[trigger] holds_cert(bag, id, cert) implies
        bag_outcome(found, bag, password) == Ok::<GatheredView, Failure>(
        GatheredView { certs: found.certs.push(cert), key_der: found.key_der },
    ) by {
        let view = CertBagView { cert_id: id, cert_value: cert };
        let der = tlv(0x30, tlv(0x06, id) + tlv(0xa0, tlv(0x04, cert)));
        lemma_tlv_len(0xa0, der);
        law_sole_element(0xa0, bag.bag_value, der);
        law_cert_bag(der, view);
    }
    if bag_outcome(found, bag, password) is Ok {
        let der = sole_element(0xa0, bag.bag_value)->0;
        let view = cert_bag_of(der)->0;
        law_sole_element(0xa0, bag.bag_value, der);
        law_cert_bag(der, view);
        assert(holds_cert(bag, view.cert_id, view.cert_value));
    }
}

/// Whether a bag's value is a certificate bag of this certificate.
pub open spec fn holds_cert(bag: SafeBagView, id: Seq<u8>, cert: Seq<u8>) -> bool {
    is_oid(id) && holds(bag, tlv(0x30, tlv(0x06, id) + tlv(0xa0, tlv(0x04, cert))))
}

/// A shrouded key bag gives the key that it decrypts to, where there is no key yet.
pub proof fn law_shrouded_bag(
    found: GatheredView,
    bag: SafeBagView,
    der: Seq<u8>,
    password: Seq<char>,
)
    requires
        bag.bag_id == PKCS_12_PKCS8_KEY_BAG_OID@,
        found.key_der is None,
        holds(bag, der),
    ensures
        match shrouded_key_outcome(der, password) {
            Ok(key) => bag_outcome(found, bag, password) == Ok::<GatheredView, Failure>(
                GatheredView { certs: found.certs, key_der: Some(key) },
            ),
            Err(failure) => bag_outcome(found, bag, password) == Err::<GatheredView, Failure>(
                failure,
            ),
        },
{
    law_sole_element(0xa0, bag.bag_value, der);
    lemma_bag_types();
}

/// A plain key bag gives the key that it holds, where there is no key yet.
pub proof fn law_plain_key_bag(
    found: GatheredView,
    bag: SafeBagView,
    der: Seq<u8>,
    password: Seq<char>,
)
    requires
        bag.bag_id == PKCS_12_KEY_BAG_OID@,
        found.key_der is None,
        holds(bag, der),
    ensures
        bag_outcome(found, bag, password) == Ok::<GatheredView, Failure>(
            GatheredView { certs: found.certs, key_der: Some(der) },
        ),
{
    law_sole_element(0xa0, bag.bag_value, der);
    lemma_bag_types();
}

/// Every other bag, and a key bag where there is a key already, changes nothing; a key bag
/// that is needed and holds nothing is refused.
pub proof fn law_other_bags(found: GatheredView, bag: SafeBagView, password: Seq<char>)
    requires
        bag.bag_id != PKCS_12_CERT_BAG_OID@,
    ensures
        bag.bag_id != PKCS_12_PKCS8_KEY_BAG_OID@ && bag.bag_id != PKCS_12_KEY_BAG_OID@
            ==> bag_outcome(found, bag, password) == Ok::<GatheredView, Failure>(found),
        found.key_der is Some ==> bag_outcome(found, bag, password) == Ok::<GatheredView, Failure>(
            found,
        ),
        (bag.bag_id == PKCS_12_PKCS8_KEY_BAG_OID@ || bag.bag_id == PKCS_12_KEY_BAG_OID@)
            && found.key_der is None && (forall|der: Seq<u8>| !(#[trigger] holds(bag, der)))
            ==> bag_outcome(found, bag, password) == Err::<GatheredView, Failure>(Failure::Asn1),
{
    lemma_bag_types();
    if sole_element(0xa0, bag.bag_value) is Some {
        let der = sole_element(0xa0, bag.bag_value)->0;
        law_sole_element(0xa0, bag.bag_value, der);
        assert(holds(bag, der));
    }
}

proof fn lemma_bag_types()
    ensures
        PKCS_12_CERT_BAG_OID@ != PKCS_12_PKCS8_KEY_BAG_OID@,
        PKCS_12_CERT_BAG_OID@ != PKCS_12_KEY_BAG_OID@,
        PKCS_12_PKCS8_KEY_BAG_OID@ != PKCS_12_KEY_BAG_OID@,
{
    assert(PKCS_12_CERT_BAG_OID@[10] != PKCS_12_PKCS8_KEY_BAG_OID@[10]);
    assert(PKCS_12_CERT_BAG_OID@[10] != PKCS_12_KEY_BAG_OID@[10]);
    assert(PKCS_12_PKCS8_KEY_BAG_OID@[10] != PKCS_12_KEY_BAG_OID@[10]);
}

// Decryption.

/// What Triple-DES makes of a ciphertext under the key of 24 octets and the vector of eight
/// that PKCS#12's derivation over SHA-1 gives for the whole password.
pub open spec fn legacy_plaintext(
    password: Seq<char>,
    salt: Seq<u8>,
    iterations: i32,
    ciphertext: Seq<u8>,
) -> Option<Seq<u8>> {
    tdes_cbc_plaintext(
        derived_key(
            HashAlgorithm::Sha1,
            encoded_password(password),
            salt,
            Pkcs12KeyType::EncryptionKey,
            iterations as int,
            24,
        ),
        derived_key(
            HashAlgorithm::Sha1,
            encoded_password(password),
            salt,
            Pkcs12KeyType::Iv,
            iterations as int,
            8,
        ),
        ciphertext,
    )
}

/// The identifier of PKCS#12's own scheme with Triple-DES, under this salt and iteration
/// count.
pub open spec fn is_legacy_algorithm(
    alg: AlgorithmIdentifierView,
    salt: Seq<u8>,
    iterations: i32,
) -> bool {
    &&& alg.oid == PKCS_12_PBE_WITH_SHAAND3_KEY_TRIPLE_DES_CBC@
    &&& alg.parameters == Some(tlv(0x30, tlv(0x04, salt) + integer_element(iterations)))
    &&& tlv(0x30, tlv(0x04, salt) + integer_element(iterations)).len() <= 0xffff_ffff
}

/// What decrypting gives where the password is, or is not, of the plane: what Triple-DES
/// makes of the ciphertext, or that it does not decrypt.
pub open spec fn legacy_result(
    password: Seq<char>,
    salt: Seq<u8>,
    iterations: i32,
    ciphertext: Seq<u8>,
    outcome: Result<Seq<u8>, Failure>,
) -> bool {
    &&& !in_plane(password) ==> outcome == Err::<Seq<u8>, Failure>(Failure::Asn1)
    &&& in_plane(password) && legacy_plaintext(password, salt, iterations, ciphertext) is Some
        ==> outcome == Ok::<Seq<u8>, Failure>(
        legacy_plaintext(password, salt, iterations, ciphertext)->0,
    )
    &&& in_plane(password) && legacy_plaintext(password, salt, iterations, ciphertext) is None
        ==> outcome == Err::<Seq<u8>, Failure>(Failure::Decrypt)
}

/// A group under PKCS#12's own scheme with Triple-DES decrypts under key and vector derived
/// from the whole password, of whatever length, and the salt and iteration count beside it.
pub proof fn law_triple_des_group(
    data: EncryptedDataView,
    salt: Seq<u8>,
    iterations: i32,
    ciphertext: Seq<u8>,
    password: Seq<char>,
)
    requires
        is_legacy_algorithm(data.content_enc_alg, salt, iterations),
        data.encrypted_content == Some(ciphertext),
    ensures
        legacy_result(password, salt, iterations, ciphertext, decrypt_outcome(data, password)),
{
    lemma_in_plane(password);
    law_pbe_params(
        data.content_enc_alg.parameters->0,
        Pkcs12PbeParamsView { salt, iterations },
    );
}

/// A private key under PKCS#12's own scheme with Triple-DES decrypts likewise.
pub proof fn law_triple_des_key(
    der: Seq<u8>,
    alg: AlgorithmIdentifierView,
    salt: Seq<u8>,
    iterations: i32,
    ciphertext: Seq<u8>,
    password: Seq<char>,
)
    requires
        is_legacy_algorithm(alg, salt, iterations),
        alg.wf(),
        der == tlv(0x30, alg.encoding() + tlv(0x04, ciphertext)),
        der.len() <= 0xffff_ffff,
    ensures
        legacy_result(password, salt, iterations, ciphertext, shrouded_key_outcome(der, password)),
{
    lemma_in_plane(password);
    law_encrypted_key_fields(der, alg, ciphertext);
    law_pbe_params(alg.parameters->0, Pkcs12PbeParamsView { salt, iterations });
}

/// What decrypting under PBES2 gives: what the cipher makes of the ciphertext under the
/// octets of the password, or the failure that comes first.
pub open spec fn pbes2_result(
    params: Seq<u8>,
    ciphertext: Seq<u8>,
    password: Seq<u8>,
    outcome: Result<Seq<u8>, Failure>,
) -> bool {
    let unknown = names_unknown_algorithm(params);
    let readable = !short_des_iv(params) && pbes2_parameters_of(params) is Some;
    let possible = affordable(pbes2_parameters_of(params)->0);
    &&& unknown ==> outcome == Err::<Seq<u8>, Failure>(Failure::UnsupportedAlgorithm)
    &&& !unknown && !readable ==> outcome == Err::<Seq<u8>, Failure>(Failure::Asn1)
    &&& !unknown && readable && !possible ==> outcome == Err::<Seq<u8>, Failure>(Failure::Decrypt)
    &&& !unknown && readable && possible && pbes2_plaintext(params, password, ciphertext) is Some
        ==> outcome == Ok::<Seq<u8>, Failure>(pbes2_plaintext(params, password, ciphertext)->0)
    &&& !unknown && readable && possible && pbes2_plaintext(params, password, ciphertext) is None
        ==> outcome == Err::<Seq<u8>, Failure>(Failure::Decrypt)
}

/// A group under PBES2 decrypts under the password's octets in UTF-8, all of them.
pub proof fn law_pbes2_group(
    data: EncryptedDataView,
    params: Seq<u8>,
    ciphertext: Seq<u8>,
    password: Seq<char>,
)
    requires
        data.content_enc_alg.oid == ID_PBES2@,
        data.content_enc_alg.parameters == Some(params),
        data.encrypted_content == Some(ciphertext),
    ensures
        pbes2_result(params, ciphertext, encode_utf8(password), decrypt_outcome(data, password)),
{
    assert(ID_PBES2@.len() != PKCS_12_PBE_WITH_SHAAND3_KEY_TRIPLE_DES_CBC@.len());
}

/// A group under another scheme is not supported; one without ciphertext or parameters is
/// malformed.
pub proof fn law_other_encrypted_data(data: EncryptedDataView, password: Seq<char>)
    ensures
        data.content_enc_alg.oid != ID_PBES2@ && data.content_enc_alg.oid
            != PKCS_12_PBE_WITH_SHAAND3_KEY_TRIPLE_DES_CBC@ ==> decrypt_outcome(data, password)
            == Err::<Seq<u8>, Failure>(Failure::UnsupportedAlgorithm),
        (data.content_enc_alg.oid == ID_PBES2@ || data.content_enc_alg.oid
            == PKCS_12_PBE_WITH_SHAAND3_KEY_TRIPLE_DES_CBC@) && (data.encrypted_content is None
            || data.content_enc_alg.parameters is None) ==> decrypt_outcome(data, password)
            == Err::<Seq<u8>, Failure>(Failure::Asn1),
        data.content_enc_alg.oid == PKCS_12_PBE_WITH_SHAAND3_KEY_TRIPLE_DES_CBC@
            && data.encrypted_content is Some && (forall|salt: Seq<u8>, iterations: i32|
            !(#[trigger] is_legacy_algorithm(data.content_enc_alg, salt, iterations)))
            ==> decrypt_outcome(data, password) == Err::<Seq<u8>, Failure>(Failure::Asn1),
{
    let alg = data.content_enc_alg;
    if alg.oid == PKCS_12_PBE_WITH_SHAAND3_KEY_TRIPLE_DES_CBC@ && alg.parameters is Some {
        let der = alg.parameters->0;
        if pbe_params_of(der) is Some {
            let params = pbe_params_of(der)->0;
            law_pbe_params(der, params);
            assert(is_legacy_algorithm(alg, params.salt, params.iterations));
        }
    }
    assert(ID_PBES2@.len() != PKCS_12_PBE_WITH_SHAAND3_KEY_TRIPLE_DES_CBC@.len());
}

/// A private key under PBES2 decrypts as its parameters and ciphertext say; under any other
/// scheme than PBES2 and PKCS#12's own it is not supported; octets that are no encrypted
/// private key are malformed.
pub proof fn law_shrouded_key(der: Seq<u8>, password: Seq<char>)
    ensures
        encrypted_key_fields(der) is None ==> shrouded_key_outcome(der, password) == Err::<
            Seq<u8>,
            Failure,
        >(Failure::Asn1),
        encrypted_key_fields(der) matches Some((alg, ciphertext)) ==> {
            &&& alg.oid == PKCS_12_PBE_WITH_SHAAND3_KEY_TRIPLE_DES_CBC@ && (forall|
                salt: Seq<u8>,
                iterations: i32,
            |
                !(#[trigger] is_legacy_algorithm(alg, salt, iterations))) ==> shrouded_key_outcome(
                der,
                password,
            ) == Err::<Seq<u8>, Failure>(Failure::Asn1)
            &&& alg.oid != ID_PBES2@ && alg.oid != PKCS_12_PBE_WITH_SHAAND3_KEY_TRIPLE_DES_CBC@
                ==> shrouded_key_outcome(der, password) == Err::<Seq<u8>, Failure>(
                Failure::UnsupportedAlgorithm,
            )
            &&& alg.oid == ID_PBES2@ && (alg.parameters matches Some(params)
                && names_unknown_algorithm(params)) ==> shrouded_key_outcome(der, password)
                == Err::<Seq<u8>, Failure>(Failure::UnsupportedAlgorithm)
            &&& alg.oid == ID_PBES2@ && !(alg.parameters matches Some(params)
                && names_unknown_algorithm(params)) ==> {
                &&& key_with_short_des_iv(der) || encrypted_key_of(der) is None
                    ==> shrouded_key_outcome(der, password) == Err::<Seq<u8>, Failure>(
                    Failure::Asn1,
                )
                &&& !key_with_short_des_iv(der) ==> match encrypted_key_of(der) {
                    Some((Some(params), data)) => pbes2_result(
                        params,
                        data,
                        encode_utf8(password),
                        shrouded_key_outcome(der, password),
                    ),
                    Some((None, _)) => shrouded_key_outcome(der, password) == Err::<
                        Seq<u8>,
                        Failure,
                    >(Failure::UnsupportedAlgorithm),
                    None => true,
                }
            }
        },
{
    assert(ID_PBES2@.len() != PKCS_12_PBE_WITH_SHAAND3_KEY_TRIPLE_DES_CBC@.len());
    if encrypted_key_fields(der) is Some {
        let (alg, ciphertext) = encrypted_key_fields(der)->0;
        if alg.parameters is Some && pbe_params_of(alg.parameters->0) is Some {
            let params = pbe_params_of(alg.parameters->0)->0;
            law_pbe_params(alg.parameters->0, params);
            if alg.oid == PKCS_12_PBE_WITH_SHAAND3_KEY_TRIPLE_DES_CBC@ {
                assert(is_legacy_algorithm(alg, params.salt, params.iterations));
            }
        }
    }
}

/// A key derivation can be run exactly where it is PBKDF2, or scrypt with a cost that is not
/// zero and with buffers, of 128 octets times block size times cost and times
/// parallelization, that can be allocated.
pub proof fn law_affordable(n: u64, r: u16, p: u16)
    ensures
        affordable(None),
        affordable(Some((n, r, p))) <==> n != 0 && (128 * r) * n <= isize::MAX && (128 * r) * p
            <= isize::MAX,
{
}

/// PBES2 parameters name an unknown algorithm exactly where the key derivation is neither
/// PBKDF2 nor scrypt, the cipher neither AES in CBC or GCM mode nor Triple-DES, or the
/// function of PBKDF2 no HMAC of SHA-1 or SHA-2.
pub proof fn law_unknown_algorithms(params: Seq<u8>)
    ensures
        names_unknown_algorithm(params) <==> exists|
            kdf: AlgorithmIdentifierView,
            cipher: AlgorithmIdentifierView,
        |
            #![trigger is_unknown_pair(kdf, cipher)]
            pbes2_algorithms(params) == Some((kdf, cipher)) && is_unknown_pair(kdf, cipher),
{
    let kdfs = seq![ID_PBKDF2@, ID_SCRYPT@];
    let ciphers = seq![
        ID_AES128_CBC@,
        ID_AES192_CBC@,
        ID_AES256_CBC@,
        ID_AES128_GCM@,
        ID_AES256_GCM@,
        ID_DES_EDE3_CBC@,
    ];
    let prfs = seq![
        ID_HMAC_WITH_SHA1@,
        ID_HMAC_WITH_SHA224@,
        ID_HMAC_WITH_SHA256@,
        ID_HMAC_WITH_SHA384@,
        ID_HMAC_WITH_SHA512@,
    ];
    assert(kdfs[0] == ID_PBKDF2@ && kdfs[1] == ID_SCRYPT@);
    assert(ciphers[0] == ID_AES128_CBC@ && ciphers[1] == ID_AES192_CBC@ && ciphers[2]
        == ID_AES256_CBC@ && ciphers[3] == ID_AES128_GCM@ && ciphers[4] == ID_AES256_GCM@
        && ciphers[5] == ID_DES_EDE3_CBC@);
    assert(prfs[0] == ID_HMAC_WITH_SHA1@ && prfs[1] == ID_HMAC_WITH_SHA224@ && prfs[2]
        == ID_HMAC_WITH_SHA256@ && prfs[3] == ID_HMAC_WITH_SHA384@ && prfs[4]
        == ID_HMAC_WITH_SHA512@);
    if pbes2_algorithms(params) is Some {
        let (kdf, cipher) = pbes2_algorithms(params)->0;
        assert(is_unknown_pair(kdf, cipher) == names_unknown_algorithm(params));
    }
}

/// Whether a key derivation with its parameters, or a cipher, is none of those known here.
pub open spec fn is_unknown_pair(
    kdf: AlgorithmIdentifierView,
    cipher: AlgorithmIdentifierView,
) -> bool {
    ||| !seq![ID_PBKDF2@, ID_SCRYPT@].contains(kdf.oid)
    ||| !seq![
        ID_AES128_CBC@,
        ID_AES192_CBC@,
        ID_AES256_CBC@,
        ID_AES128_GCM@,
        ID_AES256_GCM@,
        ID_DES_EDE3_CBC@,
    ].contains(cipher.oid)
    ||| kdf.oid == ID_PBKDF2@ && kdf.parameters is Some && (pbkdf2_prf(
        kdf.parameters->0,
    ) matches Some(prf) && !seq![
        ID_HMAC_WITH_SHA1@,
        ID_HMAC_WITH_SHA224@,
        ID_HMAC_WITH_SHA256@,
        ID_HMAC_WITH_SHA384@,
        ID_HMAC_WITH_SHA512@,
    ].contains(prf.oid))
}

/// Octets that start with PBES2 parameters of Triple-DES, with this vector.
pub open spec fn is_des_parameters(
    der: Seq<u8>,
    kdf: Seq<u8>,
    iv: Seq<u8>,
    tails: (Seq<u8>, Seq<u8>, Seq<u8>),
) -> bool {
    &&& der.len() <= 0xffff_ffff
    &&& der == tlv(
        0x30,
        tlv(0x30, kdf) + (tlv(0x30, tlv(0x06, ID_DES_EDE3_CBC@) + (tlv(0x04, iv) + tails.2))
            + tails.1),
    ) + tails.0
}

/// Parameters are refused for a short vector exactly where they name Triple-DES with one of
/// fewer than eight octets.
pub proof fn law_short_des_iv(der: Seq<u8>)
    ensures
        short_des_iv(der) <==> exists|
            kdf: Seq<u8>,
            iv: Seq<u8>,
            tails: (Seq<u8>, Seq<u8>, Seq<u8>),
        | #[trigger]
            is_des_parameters(der, kdf, iv, tails) && iv.len() < 8,
{
    if short_des_iv(der) {
        let (body, t0) = split_element(0x30, der)->0;
        let (kdf, rest) = split_element(0x30, body)->0;
        let (cipher, t1) = split_element(0x30, rest)->0;
        let (oid, iv_der) = split_element(0x06, cipher)->0;
        let (iv, t2) = split_element(0x04, iv_der)->0;
        law_split_element(0x30, der, body, t0);
        law_split_element(0x30, body, kdf, rest);
        law_split_element(0x30, rest, cipher, t1);
        law_split_element(0x06, cipher, oid, iv_der);
        law_split_element(0x04, iv_der, iv, t2);
        assert(is_des_parameters(der, kdf, iv, (t0, t1, t2)));
    }
    if exists|kdf: Seq<u8>, iv: Seq<u8>, tails: (Seq<u8>, Seq<u8>, Seq<u8>)| #[trigger]
        is_des_parameters(der, kdf, iv, tails) && iv.len() < 8 {
        let (kdf, iv, tails) = choose|
            kdf: Seq<u8>,
            iv: Seq<u8>,
            tails: (Seq<u8>, Seq<u8>, Seq<u8>),
        | #[trigger]
            is_des_parameters(der, kdf, iv, tails) && iv.len() < 8;
        let iv_der = tlv(0x04, iv) + tails.2;
        let cipher = tlv(0x06, ID_DES_EDE3_CBC@) + iv_der;
        let rest = tlv(0x30, cipher) + tails.1;
        let body = tlv(0x30, kdf) + rest;
        lemma_tlv_len(0x30, body);
        lemma_tlv_len(0x30, cipher);
        law_split_element(0x30, der, body, tails.0);
        law_split_element(0x30, body, kdf, rest);
        law_split_element(0x30, rest, cipher, tails.1);
        law_split_element(0x06, cipher, ID_DES_EDE3_CBC@, iv_der);
        law_split_element(0x04, iv_der, iv, tails.2);
    }
}

/// The octets `der` start with an encrypted private key under PBES2 with the parameters
/// `params`.
pub open spec fn is_pbes2_key(
    der: Seq<u8>,
    params: Seq<u8>,
    tails: (Seq<u8>, Seq<u8>),
) -> bool {
    &&& der.len() <= 0xffff_ffff
    &&& der == tlv(0x30, tlv(0x30, tlv(0x06, ID_PBES2@) + params) + tails.1) + tails.0
}

/// A key is refused for a short vector exactly where its PBES2 parameters are.
pub proof fn law_key_with_short_des_iv(der: Seq<u8>)
    ensures
        key_with_short_des_iv(der) <==> exists|params: Seq<u8>, tails: (Seq<u8>, Seq<u8>)|
            #[trigger]
            is_pbes2_key(der, params, tails) && short_des_iv(params),
{
    if key_with_short_des_iv(der) {
        let (body, t0) = split_element(0x30, der)->0;
        let (alg, t1) = split_element(0x30, body)->0;
        let (oid, params) = split_element(0x06, alg)->0;
        law_split_element(0x30, der, body, t0);
        law_split_element(0x30, body, alg, t1);
        law_split_element(0x06, alg, oid, params);
        assert(is_pbes2_key(der, params, (t0, t1)));
    }
    if exists|params: Seq<u8>, tails: (Seq<u8>, Seq<u8>)| #[trigger]
        is_pbes2_key(der, params, tails) && short_des_iv(params) {
        let (params, tails) = choose|params: Seq<u8>, tails: (Seq<u8>, Seq<u8>)| #[trigger]
            is_pbes2_key(der, params, tails) && short_des_iv(params);
        let alg = tlv(0x06, ID_PBES2@) + params;
        let body = tlv(0x30, alg) + tails.1;
        lemma_tlv_len(0x30, body);
        lemma_tlv_len(0x30, alg);
        law_split_element(0x30, der, body, tails.0);
        law_split_element(0x30, body, alg, tails.1);
        law_split_element(0x06, alg, ID_PBES2@, params);
    }
}

// What is handed out.

/// Each error is the failure of its own name.
pub proof fn law_failures(e: Error)
    ensures
        e.failure() == Failure::Asn1 <==> e is Asn1,
        e.failure() == Failure::Decrypt <==> e is Decrypt,
        e.failure() == Failure::MacMismatch <==> e is MacMismatch,
        e.failure() == Failure::UnsupportedAlgorithm <==> e is UnsupportedAlgorithm,
        e.failure() == Failure::MissingKey <==> e is MissingKey,
        e.failure() == Failure::MissingCert <==> e is MissingCert,
{
}

/// What the contents of an archive are is what their fields hold, each of them whole.
pub proof fn law_contents_fields(contents: Pkcs12Contents, found: Gathered)
    ensures
        contents@.key_der == contents.key_der@,
        contents@.certificate == contents.certificate@,
        contents@.additional_certificates.len() == contents.additional_certificates@.len(),
        forall|i: int|
            0 <= i < contents.additional_certificates@.len()
                ==> contents@.additional_certificates[i] == (
            #[trigger] contents.additional_certificates@[i])@,
        contents@.mac_verified == contents.mac_verified,
        found@.certs.len() == found.certs@.len(),
        forall|i: int|
            0 <= i < found.certs@.len() ==> found@.certs[i] == (#[trigger] found.certs@[i])@,
        found@.key_der is Some <==> found.key_der is Some,
        found.key_der matches Some(key) ==> found@.key_der == Some(key@),
{
}

} // verus!
