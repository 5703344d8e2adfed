//! Reading back what the builder writes.
//!
//! The lemmas follow the walk of [`crate::parser::parse_pfx`] over an archive of
//! [`crate::builder::PfxBuilder`], from the bags outwards.

use crate::asn1::{
    joined, lemma_joined_item_len, lemma_sole_element_of_tlv, lemma_tlv_is_element, lemma_tlv_len,
    max_der_len, sole_element, tlv, TAG_EXPLICIT_0, TAG_OCTET_STRING, TAG_OID, TAG_SEQUENCE,
};
use crate::builder::{
    built_auth_safe, built_contents, built_pfx, cert_contents, cert_group, cert_parameters,
    cert_safe_bag, cert_safe_bags, data_group, encrypted_group, encrypted_key, key_contents,
    key_group, key_parameters, key_safe_bag, mac_data, message, MacAlgorithm, PfxBuilderView,
    Randomness,
};
use crate::cert_bag::{lemma_cert_bag_round_trip, CertBagView};
use crate::cms::{lemma_encrypted_data_round_trip, ContentInfoView};
use crate::kdf::bmp_encodable;
use crate::mac_data::MacDataView;
use crate::oid::{
    lemma_written_oids, ID_DATA, ID_ENCRYPTED_DATA, ID_PBES2, PKCS_12_CERT_BAG_OID,
    PKCS_12_PBE_WITH_SHAAND3_KEY_TRIPLE_DES_CBC, PKCS_12_PKCS8_KEY_BAG_OID, PKCS_12_X509_CERT_OID,
};
use crate::parser::{
    assembled, bag_outcome, bags_outcome, groups_outcome, mac_outcome, parse_outcome,
    safe_outcome, shrouded_key_outcome, unwrap_outcome, Failure, GatheredView, Pkcs12ContentsView,
};
use crate::pbes2::{
    encrypted_key_of, lemma_written_key, lemma_written_parameters, pbes2_ciphertext,
    pbes2_parameters_of, pbes2_plaintext, Pbes2Parameters,
};
use crate::pfx::{
    authenticated_safe_of, info_encodings, lemma_authenticated_safe_round_trip,
    lemma_pfx_round_trip, pfx_of, PfxView,
};
use crate::safe_bag::{
    bag_encodings, lemma_safe_contents_round_trip, safe_contents_encoding, safe_contents_of,
    SafeBagView,
};
use vstd::prelude::*;
use vstd::utf8::encode_utf8;

verus! {

/// The parameters decode, and the ciphertext of `plaintext` decrypts to it: what the
/// cipher's own functions promise of what they wrote.
pub open spec fn decrypts(params: Pbes2Parameters, password: Seq<u8>, plaintext: Seq<u8>) -> bool {
    &&& pbes2_parameters_of(params.encoding()) == Some(None::<(u64, u16, u16)>)
    &&& pbes2_plaintext(
        params.encoding(),
        password,
        pbes2_ciphertext(params.encoding(), password, plaintext),
    ) == Some(plaintext)
}

/// The bag of a certificate is well-formed and read as that certificate.
proof fn lemma_cert_bag_read(found: GatheredView, cert: Seq<u8>, password: Seq<char>)
    requires
        cert_safe_bag(cert).encoding().len() <= max_der_len(),
    ensures
        cert_safe_bag(cert).wf(),
        bag_outcome(found, cert_safe_bag(cert), password) == Ok::<GatheredView, Failure>(
            found.with_cert(cert),
        ),
{
    let bag = CertBagView { cert_id: PKCS_12_X509_CERT_OID@, cert_value: cert };
    lemma_written_oids();
    lemma_tlv_len(TAG_SEQUENCE, cert_safe_bag(cert).fields());
    lemma_sole_element_of_tlv(TAG_EXPLICIT_0, bag.encoding());
    lemma_cert_bag_round_trip(bag);
}

/// Each bag is no longer than the encoding of them all.
pub proof fn lemma_bag_len(bags: Seq<SafeBagView>, i: int)
    requires
        0 <= i < bags.len(),
    ensures
        bags[i].encoding().len() <= safe_contents_encoding(bags).len(),
{
    let items = bag_encodings(bags);
    assert(items[i] == bags[i].encoding());
    lemma_joined_item_len(items, i);
    lemma_tlv_len(TAG_SEQUENCE, joined(items));
}

/// The bags of some certificates are read as those certificates, in their order.
proof fn lemma_cert_bags_read(certs: Seq<Seq<u8>>, password: Seq<char>)
    requires
        forall|i: int|
            0 <= i < certs.len() ==> cert_safe_bag(#[trigger] certs[i]).encoding().len()
                <= max_der_len(),
    ensures
        bags_outcome(GatheredView::empty(), cert_safe_bags(certs), password) == Ok::<
            GatheredView,
            Failure,
        >(GatheredView { certs, key_der: None }),
    decreases certs.len(),
{
    let bags = cert_safe_bags(certs);
    if certs.len() == 0 {
        assert(certs =~= Seq::empty());
    } else {
        let front = certs.drop_last();
        let found = GatheredView { certs: front, key_der: None };
        assert forall|i: int| 0 <= i < front.len() implies cert_safe_bag(
            #[trigger] front[i],
        ).encoding().len() <= max_der_len() by {
            assert(front[i] == certs[i]);
        }
        lemma_cert_bags_read(front, password);
        assert(bags.drop_last() =~= cert_safe_bags(front));
        assert(bags.last() == cert_safe_bag(certs.last()));
        assert(certs[certs.len() - 1] == certs.last());
        lemma_cert_bag_read(found, certs.last(), password);
        assert(front.push(certs.last()) =~= certs);
    }
}

/// Decoding the encoded bags of some certificates gives them back, and reading them
/// gives the certificates.
pub proof fn lemma_cert_contents_read(certs: Seq<Seq<u8>>, password: Seq<char>)
    requires
        cert_contents(certs).len() <= max_der_len(),
    ensures
        safe_contents_of(cert_contents(certs)) == Some(cert_safe_bags(certs)),
        bags_outcome(GatheredView::empty(), cert_safe_bags(certs), password) == Ok::<
            GatheredView,
            Failure,
        >(GatheredView { certs, key_der: None }),
{
    let bags = cert_safe_bags(certs);
    assert forall|i: int| 0 <= i < certs.len() implies cert_safe_bag(
        #[trigger] certs[i],
    ).encoding().len() <= max_der_len() by {
        assert(bags[i] == cert_safe_bag(certs[i]));
        lemma_bag_len(bags, i);
    }
    assert forall|i: int| 0 <= i < bags.len() implies (#[trigger] bags[i]).wf() by {
        assert(bags[i] == cert_safe_bag(certs[i]));
        lemma_cert_bag_read(GatheredView::empty(), certs[i], password);
    }
    lemma_safe_contents_round_trip(bags);
    lemma_cert_bags_read(certs, password);
}

/// The encrypted group of the certificates is unwrapped to their bags.
proof fn lemma_cert_group_read(
    params: Pbes2Parameters,
    password: Seq<char>,
    certs: Seq<Seq<u8>>,
)
    requires
        cert_contents(certs).len() <= max_der_len(),
        encrypted_group(params, encode_utf8(password), cert_contents(certs)).content.len()
            <= max_der_len(),
        decrypts(params, encode_utf8(password), cert_contents(certs)),
    ensures
        encrypted_group(params, encode_utf8(password), cert_contents(certs)).wf(),
        unwrap_outcome(
            encrypted_group(params, encode_utf8(password), cert_contents(certs)),
            password,
        ) == Ok::<Seq<SafeBagView>, Failure>(cert_safe_bags(certs)),
{
    let ciphertext = pbes2_ciphertext(
        params.encoding(),
        encode_utf8(password),
        cert_contents(certs),
    );
    lemma_written_oids();
    lemma_written_parameters(params);
    lemma_encrypted_data_round_trip(message(params, ciphertext));
    assert(ID_DATA@[8] != ID_ENCRYPTED_DATA@[8]);
    assert(ID_PBES2@.len() != PKCS_12_PBE_WITH_SHAAND3_KEY_TRIPLE_DES_CBC@.len());
    lemma_cert_contents_read(certs, password);
}

/// Decoding the encoded bag of a key gives it back.
pub proof fn lemma_key_contents_read(encrypted: Seq<u8>)
    requires
        key_contents(encrypted).len() <= max_der_len(),
    ensures
        safe_contents_of(key_contents(encrypted)) == Some(seq![key_safe_bag(encrypted)]),
        tlv(TAG_EXPLICIT_0, encrypted).len() <= max_der_len(),
{
    let bag = key_safe_bag(encrypted);
    let bags = seq![bag];
    lemma_written_oids();
    lemma_bag_len(bags, 0);
    lemma_tlv_len(TAG_SEQUENCE, bag.fields());
    assert(bag.wf());
    lemma_safe_contents_round_trip(bags);
}

/// The plain group of the key is unwrapped to its bag, which is read as the key.
proof fn lemma_key_group_read(
    params: Pbes2Parameters,
    password: Seq<char>,
    key: Seq<u8>,
    certs: Seq<Seq<u8>>,
)
    requires
        ({
            let encrypted = encrypted_key(params, encode_utf8(password), key);
            &&& data_group(key_contents(encrypted)).content.len() <= max_der_len()
            &&& decrypts(params, encode_utf8(password), key)
            &&& encrypted_key_of(encrypted) == Some(
                (
                    Some(params.encoding()),
                    pbes2_ciphertext(params.encoding(), encode_utf8(password), key),
                ),
            )
        }),
    ensures
        ({
            let encrypted = encrypted_key(params, encode_utf8(password), key);
            let bags = seq![key_safe_bag(encrypted)];
            &&& data_group(key_contents(encrypted)).wf()
            &&& unwrap_outcome(data_group(key_contents(encrypted)), password) == Ok::<
                Seq<SafeBagView>,
                Failure,
            >(bags)
            &&& bags_outcome(
                GatheredView { certs, key_der: None },
                bags,
                password,
            ) == Ok::<GatheredView, Failure>(GatheredView { certs, key_der: Some(key) })
        }),
{
    let encrypted = encrypted_key(params, encode_utf8(password), key);
    let bag = key_safe_bag(encrypted);
    let bags = seq![bag];
    let contents = key_contents(encrypted);
    let found = GatheredView { certs, key_der: None };
    lemma_written_oids();
    lemma_tlv_len(TAG_OCTET_STRING, contents);
    lemma_tlv_is_element(TAG_OCTET_STRING, contents);
    lemma_sole_element_of_tlv(TAG_OCTET_STRING, contents);
    lemma_key_contents_read(encrypted);
    lemma_tlv_len(TAG_EXPLICIT_0, encrypted);
    lemma_sole_element_of_tlv(TAG_EXPLICIT_0, encrypted);
    lemma_written_parameters(params);
    lemma_written_key(params, pbes2_ciphertext(params.encoding(), encode_utf8(password), key));
    assert(PKCS_12_CERT_BAG_OID@[10] != PKCS_12_PKCS8_KEY_BAG_OID@[10]);
    assert(ID_PBES2@.len() != PKCS_12_PBE_WITH_SHAAND3_KEY_TRIPLE_DES_CBC@.len());
    assert(shrouded_key_outcome(encrypted, password) == Ok::<Seq<u8>, Failure>(key));
    assert(bag_outcome(found, bag, password) == Ok::<GatheredView, Failure>(
        found.with_key(key),
    ));
    assert(bags.drop_last() =~= Seq::empty());
    assert(bags_outcome(found, bags.drop_last(), password) == Ok::<
        GatheredView,
        Failure,
    >(found));
}

/// The sizes of an archive's parts do not exceed its own.
pub proof fn lemma_part_lens(b: PfxBuilderView, random: Randomness)
    ensures
        ({
            let len = built_pfx(b, random).encoding().len();
            let encrypted = encrypted_key(
                key_parameters(b, random),
                encode_utf8(b.password),
                b.key_der->0,
            );
            &&& encrypted.len() <= key_safe_bag(encrypted).bag_value.len()
            &&& key_safe_bag(encrypted).bag_value.len() <= key_contents(encrypted).len()
            &&& key_contents(encrypted).len() <= key_group(b, random).content.len()
            &&& key_group(b, random).content.len() <= built_auth_safe(b, random).len()
            &&& cert_group(b, random).content.len() <= built_auth_safe(b, random).len()
            &&& built_auth_safe(b, random).len() <= data_group(
                built_auth_safe(b, random),
            ).content.len()
            &&& data_group(built_auth_safe(b, random)).content.len() <= len
        }),
{
    let pfx = built_pfx(b, random);
    let auth_safe = built_auth_safe(b, random);
    let infos = seq![cert_group(b, random), key_group(b, random)];
    let items = info_encodings(infos);
    let encrypted = encrypted_key(
        key_parameters(b, random),
        encode_utf8(b.password),
        b.key_der->0,
    );
    let bag = key_safe_bag(encrypted);
    lemma_tlv_len(TAG_EXPLICIT_0, encrypted);
    lemma_tlv_len(TAG_SEQUENCE, bag.fields());
    lemma_bag_len(seq![bag], 0);
    lemma_tlv_len(TAG_OCTET_STRING, key_contents(encrypted));
    assert(items[0] == infos[0].encoding() && items[1] == infos[1].encoding());
    lemma_joined_item_len(items, 0);
    lemma_joined_item_len(items, 1);
    lemma_content_len(infos[0]);
    lemma_content_len(infos[1]);
    lemma_tlv_len(TAG_SEQUENCE, joined(items));
    lemma_tlv_len(TAG_OCTET_STRING, auth_safe);
    lemma_content_len(pfx.auth_safe);
    lemma_tlv_len(TAG_SEQUENCE, pfx.fields());
}

/// A group is longer than its content.
pub proof fn lemma_content_len(info: ContentInfoView)
    ensures
        info.content.len() <= info.encoding().len(),
{
    let explicit = tlv(TAG_EXPLICIT_0, info.content);
    lemma_tlv_len(TAG_EXPLICIT_0, info.content);
    lemma_tlv_len(TAG_SEQUENCE, tlv(TAG_OID, info.content_type) + explicit);
}

/// What the parser asks of the cipher's own functions for the archive: its
/// certificates and its key decrypt.
pub open spec fn archive_decrypts(b: PfxBuilderView, random: Randomness) -> bool {
    let password = encode_utf8(b.password);
    let key_params = key_parameters(b, random);
    &&& decrypts(cert_parameters(b, random), password, cert_contents(b.certs()))
    &&& decrypts(key_params, password, b.key_der->0)
    &&& encrypted_key_of(encrypted_key(key_params, password, b.key_der->0)) == Some(
        (
            Some(key_params.encoding()),
            pbes2_ciphertext(key_params.encoding(), password, b.key_der->0),
        ),
    )
}

/// The groups of the archive are well-formed, and hold the certificates and the key.
proof fn lemma_groups_read(b: PfxBuilderView, random: Randomness)
    requires
        cert_contents(b.certs()).len() <= max_der_len(),
        built_auth_safe(b, random).len() <= max_der_len(),
        archive_decrypts(b, random),
        b.key_der is Some,
    ensures
        cert_group(b, random).wf(),
        key_group(b, random).wf(),
        groups_outcome(seq![cert_group(b, random), key_group(b, random)], b.password) == Ok::<
            GatheredView,
            Failure,
        >(GatheredView { certs: b.certs(), key_der: b.key_der }),
{
    let certs = b.certs();
    let encrypted = encrypted_key(
        key_parameters(b, random),
        encode_utf8(b.password),
        b.key_der->0,
    );
    lemma_part_lens(b, random);
    lemma_cert_group_read(cert_parameters(b, random), b.password, certs);
    lemma_key_group_read(key_parameters(b, random), b.password, b.key_der->0, certs);
    lemma_cert_contents_read(certs, b.password);
    lemma_two_groups(
        cert_group(b, random),
        cert_safe_bags(certs),
        GatheredView { certs, key_der: None },
        key_group(b, random),
        seq![key_safe_bag(encrypted)],
        GatheredView { certs, key_der: b.key_der },
        b.password,
    );
}

/// Two groups are read one after the other.
proof fn lemma_two_groups(
    first: ContentInfoView,
    first_bags: Seq<SafeBagView>,
    between: GatheredView,
    second: ContentInfoView,
    second_bags: Seq<SafeBagView>,
    found: GatheredView,
    password: Seq<char>,
)
    requires
        unwrap_outcome(first, password) == Ok::<Seq<SafeBagView>, Failure>(first_bags),
        bags_outcome(GatheredView::empty(), first_bags, password) == Ok::<
            GatheredView,
            Failure,
        >(between),
        unwrap_outcome(second, password) == Ok::<Seq<SafeBagView>, Failure>(second_bags),
        bags_outcome(between, second_bags, password) == Ok::<GatheredView, Failure>(
            found,
        ),
    ensures
        groups_outcome(seq![first, second], password) == Ok::<GatheredView, Failure>(found),
{
    let infos = seq![first, second];
    let front = infos.drop_last();
    assert(front =~= seq![first]);
    assert(front.drop_last() =~= Seq::empty());
    assert(groups_outcome(front.drop_last(), password) == Ok::<GatheredView, Failure>(
        GatheredView::empty(),
    ));
    assert(groups_outcome(front, password) == Ok::<GatheredView, Failure>(between));
}

/// The MAC on an archive matches under the same password.
proof fn lemma_sealed_mac(
    auth_safe: Seq<u8>,
    alg: MacAlgorithm,
    password: Seq<char>,
    salt: Seq<u8>,
)
    requires
        bmp_encodable(password),
    ensures
        mac_outcome(mac_data(alg, password, auth_safe, salt), auth_safe, password) is Ok,
{
}

/// Parsing what was built, under the same password, gives back what was put in.
///
/// Everything that is asked here holds wherever building succeeds: the sizes fit, the
/// password has an encoding, and what was encrypted decrypts.
pub proof fn lemma_built_archive_parses(b: PfxBuilderView, random: Randomness)
    requires
        b.cert_der is Some,
        b.key_der is Some,
        bmp_encodable(b.password),
        cert_contents(b.certs()).len() <= max_der_len(),
        built_pfx(b, random).encoding().len() <= max_der_len(),
        archive_decrypts(b, random),
    ensures
        parse_outcome(built_pfx(b, random).encoding(), b.password) == Ok::<
            Pkcs12ContentsView,
            Failure,
        >(built_contents(b)),
{
    let auth_safe = built_auth_safe(b, random);
    let mac = mac_data(b.mac_alg, b.password, auth_safe, random.mac_salt@);
    let found = GatheredView { certs: b.certs(), key_der: b.key_der };
    lemma_part_lens(b, random);
    lemma_groups_read(b, random);
    lemma_outer_read(b, random);
    lemma_built_assembled(b);
    lemma_safe_read(
        auth_safe,
        seq![cert_group(b, random), key_group(b, random)],
        found,
        b.password,
        built_contents(b),
    );
    lemma_sealed_mac(auth_safe, b.mac_alg, b.password, random.mac_salt@);
    lemma_sealed_read(
        built_pfx(b, random).encoding(),
        built_pfx(b, random),
        auth_safe,
        mac,
        b.password,
        built_contents(b),
    );
}

/// Decoding the archive gives back its outer structure and its groups.
pub proof fn lemma_outer_read(b: PfxBuilderView, random: Randomness)
    requires
        cert_group(b, random).wf(),
        key_group(b, random).wf(),
        built_pfx(b, random).encoding().len() <= max_der_len(),
    ensures
        pfx_of(built_pfx(b, random).encoding()) == Some(built_pfx(b, random)),
        sole_element(TAG_OCTET_STRING, built_pfx(b, random).auth_safe.content) == Some(
            built_auth_safe(b, random),
        ),
        authenticated_safe_of(built_auth_safe(b, random)) == Some(
            seq![cert_group(b, random), key_group(b, random)],
        ),
{
    let auth_safe = built_auth_safe(b, random);
    let infos = seq![cert_group(b, random), key_group(b, random)];
    lemma_part_lens(b, random);
    lemma_written_oids();
    lemma_tlv_is_element(TAG_OCTET_STRING, auth_safe);
    lemma_sole_element_of_tlv(TAG_OCTET_STRING, auth_safe);
    lemma_pfx_round_trip(built_pfx(b, random));
    assert forall|i: int| 0 <= i < infos.len() implies (#[trigger] infos[i]).wf() by {
        assert(i == 0 || i == 1);
    }
    lemma_authenticated_safe_round_trip(infos);
}

/// What was put in is what is assembled from it.
proof fn lemma_built_assembled(b: PfxBuilderView)
    requires
        b.cert_der is Some,
        b.key_der is Some,
    ensures
        assembled(GatheredView { certs: b.certs(), key_der: b.key_der }, true) == Ok::<
            Pkcs12ContentsView,
            Failure,
        >(built_contents(b)),
{
    assert(b.certs().skip(1) =~= b.ca_certs_der);
}

/// What is found in the groups of an `AuthenticatedSafe` is what is read from it.
proof fn lemma_safe_read(
    auth_safe: Seq<u8>,
    infos: Seq<ContentInfoView>,
    found: GatheredView,
    password: Seq<char>,
    contents: Pkcs12ContentsView,
)
    requires
        authenticated_safe_of(auth_safe) == Some(infos),
        groups_outcome(infos, password) == Ok::<GatheredView, Failure>(found),
        assembled(found, true) == Ok::<Pkcs12ContentsView, Failure>(contents),
    ensures
        safe_outcome(auth_safe, password, true) == Ok::<Pkcs12ContentsView, Failure>(contents),
{
}

/// What is read from the `AuthenticatedSafe` of an archive with a matching MAC is what is
/// read from the archive.
proof fn lemma_sealed_read(
    pfx_der: Seq<u8>,
    pfx: PfxView,
    auth_safe: Seq<u8>,
    mac: MacDataView,
    password: Seq<char>,
    contents: Pkcs12ContentsView,
)
    requires
        pfx_of(pfx_der) == Some(pfx),
        pfx.auth_safe.content_type == ID_DATA@,
        sole_element(TAG_OCTET_STRING, pfx.auth_safe.content) == Some(auth_safe),
        pfx.mac_data == Some(mac),
        mac_outcome(mac, auth_safe, password) is Ok,
        safe_outcome(auth_safe, password, true) == Ok::<Pkcs12ContentsView, Failure>(contents),
    ensures
        parse_outcome(pfx_der, password) == Ok::<Pkcs12ContentsView, Failure>(contents),
{
}

} // verus!
