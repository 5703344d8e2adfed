//! What holds of the library as a whole.

use crate::asn1::{
    lemma_sole_element_of_tlv, lemma_tlv_is_element, sole_element, TAG_EXPLICIT_0,
    TAG_OCTET_STRING,
};
use crate::builder::{
    build_outcome, built_auth_safe, built_pfx, cert_contents, cert_group, cert_parameters,
    cert_safe_bags, encrypted_key, key_contents, key_group, key_parameters, key_safe_bag, message,
    MacAlgorithm, PfxBuilderView, Randomness,
};
use crate::cert_bag::cert_bag_of;
use crate::cms::{encrypted_data_of, lemma_encrypted_data_round_trip, ContentInfoView};
use crate::hash::{digest_len, HashAlgorithm};
use crate::kdf::{
    advanced, bmp_encodable, derived_key, diversifier, filled, iterated_digest, key_material,
    repeated, Pkcs12KeyType,
};
use crate::mac_data::MacDataView;
use crate::oid::{
    lemma_written_oids, ID_DATA, ID_ENCRYPTED_DATA, ID_SHA_256, PKCS_12_CERT_BAG_OID,
    PKCS_12_KEY_BAG_OID, PKCS_12_PKCS8_KEY_BAG_OID,
};
use crate::parser::{
    bags_outcome, expected_tag, groups_outcome, mac_hash, parse_outcome, pfx_outcome,
    shrouded_key_outcome, unwrap_outcome, Failure, GatheredView, Pkcs12ContentsView,
};
use crate::pbes2::{lemma_written_parameters, pbes2_ciphertext};
use crate::pfx::{
    authenticated_safe_of, lemma_authenticated_safe_round_trip, lemma_pfx_round_trip, pfx_of,
    PfxView,
};
use crate::round_trip::{lemma_cert_contents_read, lemma_key_contents_read, lemma_part_lens};
use crate::safe_bag::{safe_contents_of, SafeBagView};
use vstd::prelude::*;
use vstd::utf8::encode_utf8;

verus! {

// The MAC.

/// An archive that is read with `mac_verified` set has a MAC, of a supported algorithm,
/// and its tag is the one that the password gives for the octets of the archive's
/// `AuthenticatedSafe`; one that is read with `mac_verified` clear has no MAC.
pub proof fn law_mac_verified(pfx_der: Seq<u8>, password: Seq<char>)
    ensures
        parse_outcome(pfx_der, password) matches Ok(contents) ==> {
            &&& pfx_of(pfx_der) matches Some(pfx)
            &&& sole_element(TAG_OCTET_STRING, pfx.auth_safe.content) matches Some(auth_safe)
            &&& match pfx.mac_data {
                Some(mac) => {
                    &&& contents.mac_verified
                    &&& mac_hash(mac.mac.algorithm.oid) matches Some(alg)
                    &&& mac.mac.digest == expected_tag(alg, mac, auth_safe, password)
                },
                None => !contents.mac_verified,
            }
        },
{
}

/// An archive whose MAC does not match is refused as such, whatever else is in it.
pub proof fn law_mac_mismatch(
    pfx_der: Seq<u8>,
    password: Seq<char>,
    pfx: PfxView,
    mac: MacDataView,
    alg: HashAlgorithm,
    auth_safe: Seq<u8>,
)
    requires
        pfx_of(pfx_der) == Some(pfx),
        pfx.auth_safe.content_type == ID_DATA@,
        sole_element(TAG_OCTET_STRING, pfx.auth_safe.content) == Some(auth_safe),
        pfx.mac_data == Some(mac),
        mac_hash(mac.mac.algorithm.oid) == Some(alg),
        bmp_encodable(password),
        mac.mac.digest != expected_tag(alg, mac, auth_safe, password),
    ensures
        parse_outcome(pfx_der, password) == Err::<Pkcs12ContentsView, Failure>(
            Failure::MacMismatch,
        ),
{
}

/// A MAC that matches changes nothing of what is read but the flag: without the MAC the
/// same archive gives the same key and certificates.
pub proof fn law_mac_only_checks(pfx: PfxView, password: Seq<char>)
    requires
        pfx_outcome(pfx, password) is Ok,
    ensures
        pfx_outcome(PfxView { mac_data: None, ..pfx }, password) == Ok::<
            Pkcs12ContentsView,
            Failure,
        >(Pkcs12ContentsView { mac_verified: false, ..pfx_outcome(pfx, password)->Ok_0 }),
{
}

// Walking the archive.

/// Whether the parser skips groups of this type.
pub open spec fn unknown_group(info: ContentInfoView) -> bool {
    info.content_type != ID_DATA@ && info.content_type != ID_ENCRYPTED_DATA@
}

/// A group of an unknown type changes nothing of what is found in the others, nor of
/// the error that they give.
pub proof fn law_unknown_group_skipped(
    before: Seq<ContentInfoView>,
    group: ContentInfoView,
    after: Seq<ContentInfoView>,
    password: Seq<char>,
)
    requires
        unknown_group(group),
    ensures
        groups_outcome(before + seq![group] + after, password) == groups_outcome(
            before + after,
            password,
        ),
    decreases after.len(),
{
    let with = before + seq![group] + after;
    let without = before + after;
    if after.len() == 0 {
        assert(with.drop_last() =~= without);
        assert(with.last() == group);
    } else {
        law_unknown_group_skipped(before, group, after.drop_last(), password);
        assert(with.drop_last() =~= before + seq![group] + after.drop_last());
        assert(without.drop_last() =~= before + after.drop_last());
        assert(with.last() == after.last() && without.last() == after.last());
    }
}

/// Whether a bag holds a certificate.
pub open spec fn is_cert_bag(bag: SafeBagView) -> bool {
    bag.bag_id == PKCS_12_CERT_BAG_OID@
}

/// Whether a bag holds a private key.
pub open spec fn is_key_bag(bag: SafeBagView) -> bool {
    bag.bag_id == PKCS_12_PKCS8_KEY_BAG_OID@ || bag.bag_id == PKCS_12_KEY_BAG_OID@
}

/// A bag of an unknown type changes nothing of what is found in the others, nor of the
/// error that they give.
pub proof fn law_unknown_bag_skipped(
    found: GatheredView,
    before: Seq<SafeBagView>,
    bag: SafeBagView,
    after: Seq<SafeBagView>,
    password: Seq<char>,
)
    requires
        !is_cert_bag(bag),
        !is_key_bag(bag),
    ensures
        bags_outcome(found, before + seq![bag] + after, password) == bags_outcome(
            found,
            before + after,
            password,
        ),
    decreases after.len(),
{
    let with = before + seq![bag] + after;
    let without = before + after;
    if after.len() == 0 {
        assert(with.drop_last() =~= without);
        assert(with.last() == bag);
    } else {
        law_unknown_bag_skipped(found, before, bag, after.drop_last(), password);
        assert(with.drop_last() =~= before + seq![bag] + after.drop_last());
        assert(without.drop_last() =~= before + after.drop_last());
        assert(with.last() == after.last() && without.last() == after.last());
    }
}

/// The certificate that a certificate bag holds.
pub open spec fn cert_value(bag: SafeBagView) -> Seq<u8> {
    cert_bag_of(sole_element(TAG_EXPLICIT_0, bag.bag_value)->0)->0.cert_value
}

/// The certificates that some bags hold, in their order.
pub open spec fn cert_values(bags: Seq<SafeBagView>) -> Seq<Seq<u8>>
    decreases bags.len(),
{
    if bags.len() == 0 {
        Seq::empty()
    } else if is_cert_bag(bags.last()) {
        cert_values(bags.drop_last()).push(cert_value(bags.last()))
    } else {
        cert_values(bags.drop_last())
    }
}

/// Every certificate of a group is found, in the group's order, behind those that were
/// found before.
pub proof fn law_all_certificates(
    found: GatheredView,
    bags: Seq<SafeBagView>,
    password: Seq<char>,
)
    ensures
        bags_outcome(found, bags, password) matches Ok(after) ==> after.certs == found.certs
            + cert_values(bags),
    decreases bags.len(),
{
    if bags.len() == 0 {
        assert(found.certs + cert_values(bags) =~= found.certs);
    } else {
        let front = bags.drop_last();
        law_all_certificates(found, front, password);
        if bags_outcome(found, bags, password) is Ok && is_cert_bag(bags.last()) {
            assert(found.certs + cert_values(bags) =~= (found.certs + cert_values(front)).push(
                cert_value(bags.last()),
            ));
        }
    }
}

/// A key that was found stays the one that is returned: the keys behind it are not
/// looked at.
pub proof fn law_found_key_stays(found: GatheredView, bags: Seq<SafeBagView>, password: Seq<char>)
    requires
        found.key_der is Some,
    ensures
        bags_outcome(found, bags, password) matches Ok(after) ==> after.key_der == found.key_der,
    decreases bags.len(),
{
    if bags.len() > 0 {
        law_found_key_stays(found, bags.drop_last(), password);
    }
}

/// The key that a key bag holds, decrypted where it is encrypted.
pub open spec fn key_value(bag: SafeBagView, password: Seq<char>) -> Seq<u8> {
    let der = sole_element(TAG_EXPLICIT_0, bag.bag_value)->0;
    if bag.bag_id == PKCS_12_KEY_BAG_OID@ {
        der
    } else {
        shrouded_key_outcome(der, password)->Ok_0
    }
}

/// The key of a group is that of its first key bag, and there is none where it has no
/// key bag.
pub proof fn law_first_key(found: GatheredView, bags: Seq<SafeBagView>, password: Seq<char>)
    requires
        found.key_der is None,
    ensures
        bags_outcome(found, bags, password) matches Ok(after) ==> {
            &&& after.key_der is None <==> forall|i: int|
                0 <= i < bags.len() ==> !is_key_bag(#[trigger] bags[i])
            &&& forall|i: int|
                #![trigger bags[i]]
                0 <= i < bags.len() && is_key_bag(bags[i]) && (forall|j: int|
                    0 <= j < i ==> !is_key_bag(#[trigger] bags[j])) ==> after.key_der == Some(
                    key_value(bags[i], password),
                )
        },
    decreases bags.len(),
{
    if bags.len() > 0 && bags_outcome(found, bags, password) is Ok {
        let front = bags.drop_last();
        let last = bags.last();
        law_first_key(found, front, password);
        let between = bags_outcome(found, front, password)->Ok_0;
        let after = bags_outcome(found, bags, password)->Ok_0;
        assert(PKCS_12_KEY_BAG_OID@[10] != PKCS_12_PKCS8_KEY_BAG_OID@[10]);
        assert(PKCS_12_CERT_BAG_OID@[10] != PKCS_12_PKCS8_KEY_BAG_OID@[10]);
        assert(PKCS_12_CERT_BAG_OID@[10] != PKCS_12_KEY_BAG_OID@[10]);
        assert(bags[bags.len() - 1] == last);
        assert(forall|i: int| 0 <= i < front.len() ==> front[i] == bags[i]);
        if between.key_der is None {
            if is_key_bag(last) {
                assert(after.key_der == Some(key_value(last, password)));
            }
        } else {
            assert(after.key_der == between.key_der);
            assert(!(forall|i: int| 0 <= i < front.len() ==> !is_key_bag(#[trigger] front[i])));
            let k = choose|i: int| 0 <= i < front.len() && is_key_bag(#[trigger] front[i]);
            assert(is_key_bag(bags[k]));
        }
    }
}

/// The bags of all groups, one group after the other.
pub open spec fn archive_bags(infos: Seq<ContentInfoView>, password: Seq<char>) -> Seq<SafeBagView>
    decreases infos.len(),
{
    if infos.len() == 0 {
        Seq::empty()
    } else {
        archive_bags(infos.drop_last(), password) + unwrap_outcome(infos.last(), password)->Ok_0
    }
}

/// Bags are looked at one after the other, however they are divided.
pub proof fn law_bags_in_parts(
    found: GatheredView,
    first: Seq<SafeBagView>,
    second: Seq<SafeBagView>,
    password: Seq<char>,
)
    ensures
        bags_outcome(found, first + second, password) == match bags_outcome(
            found,
            first,
            password,
        ) {
            Ok(between) => bags_outcome(between, second, password),
            Err(failure) => Err(failure),
        },
    decreases second.len(),
{
    let all = first + second;
    if second.len() == 0 {
        assert(all =~= first);
    } else {
        law_bags_in_parts(found, first, second.drop_last(), password);
        assert(all.drop_last() =~= first + second.drop_last());
        assert(all.last() == second.last());
    }
}

/// What is found in the groups of an archive is what is found in all their bags.
pub proof fn law_groups_as_bags(infos: Seq<ContentInfoView>, password: Seq<char>)
    ensures
        groups_outcome(infos, password) matches Ok(found) ==> bags_outcome(
            GatheredView::empty(),
            archive_bags(infos, password),
            password,
        ) == Ok::<GatheredView, Failure>(found),
    decreases infos.len(),
{
    if infos.len() > 0 && groups_outcome(infos, password) is Ok {
        law_groups_as_bags(infos.drop_last(), password);
        law_bags_in_parts(
            GatheredView::empty(),
            archive_bags(infos.drop_last(), password),
            unwrap_outcome(infos.last(), password)->Ok_0,
            password,
        );
    }
}

/// Every certificate of an archive is found, in the archive's order.
pub proof fn law_all_archive_certificates(infos: Seq<ContentInfoView>, password: Seq<char>)
    ensures
        groups_outcome(infos, password) matches Ok(found) ==> found.certs == cert_values(
            archive_bags(infos, password),
        ),
{
    if groups_outcome(infos, password) is Ok {
        let bags = archive_bags(infos, password);
        law_groups_as_bags(infos, password);
        law_all_certificates(GatheredView::empty(), bags, password);
        assert(GatheredView::empty().certs + cert_values(bags) =~= cert_values(bags));
    }
}

/// The key of an archive is that of its first key bag, whichever group holds it, and
/// there is none where no group has a key bag.
pub proof fn law_first_archive_key(infos: Seq<ContentInfoView>, password: Seq<char>)
    ensures
        groups_outcome(infos, password) matches Ok(found) ==> ({
            let bags = archive_bags(infos, password);
            &&& found.key_der is None <==> forall|i: int|
                0 <= i < bags.len() ==> !is_key_bag(#[trigger] bags[i])
            &&& forall|i: int|
                #![trigger bags[i]]
                0 <= i < bags.len() && is_key_bag(bags[i]) && (forall|j: int|
                    0 <= j < i ==> !is_key_bag(#[trigger] bags[j])) ==> found.key_der == Some(
                    key_value(bags[i], password),
                )
        }),
{
    if groups_outcome(infos, password) is Ok {
        law_groups_as_bags(infos, password);
        law_first_key(GatheredView::empty(), archive_bags(infos, password), password);
    }
}

/// What is read from an archive is the first private key and all certificates in it: the
/// certificates of all bags, the first of them as the end-entity certificate, and the key
/// of the first key bag.
pub proof fn law_archive_contents(pfx_der: Seq<u8>, password: Seq<char>)
    ensures
        parse_outcome(pfx_der, password) matches Ok(contents) ==> {
            &&& pfx_of(pfx_der) matches Some(pfx)
            &&& sole_element(TAG_OCTET_STRING, pfx.auth_safe.content) matches Some(auth_safe)
            &&& authenticated_safe_of(auth_safe) matches Some(infos)
            &&& seq![contents.certificate] + contents.additional_certificates == cert_values(
                archive_bags(infos, password),
            )
            &&& forall|i: int|
                #![trigger archive_bags(infos, password)[i]]
                0 <= i < archive_bags(infos, password).len() && is_key_bag(
                    archive_bags(infos, password)[i],
                ) && (forall|j: int|
                    0 <= j < i ==> !is_key_bag(#[trigger] archive_bags(infos, password)[j]))
                    ==> contents.key_der == key_value(archive_bags(infos, password)[i], password)
        },
{
    if parse_outcome(pfx_der, password) is Ok {
        let contents = parse_outcome(pfx_der, password)->Ok_0;
        let pfx = pfx_of(pfx_der)->0;
        let auth_safe = sole_element(TAG_OCTET_STRING, pfx.auth_safe.content)->0;
        let infos = authenticated_safe_of(auth_safe)->0;
        let found = groups_outcome(infos, password)->Ok_0;
        law_all_archive_certificates(infos, password);
        law_first_archive_key(infos, password);
        assert(seq![contents.certificate] + contents.additional_certificates =~= found.certs);
    }
}

// What the builder writes.

/// An archive has two groups.  The first is of type `id-encryptedData`: its message is
/// encrypted with the builder's certificate algorithm, and the plaintext is one
/// `certBag` per certificate.  The second is of type `id-data` and holds a single
/// `pkcs8ShroudedKeyBag`.  The MAC is an HMAC-SHA-256 over the `AuthenticatedSafe`, with
/// the builder's iteration count.
pub proof fn law_built_structure(b: PfxBuilderView, random: Randomness)
    requires
        build_outcome(b, random) is Ok,
    ensures
        ({
            let groups = seq![cert_group(b, random), key_group(b, random)];
            let params = cert_parameters(b, random);
            let ciphertext = pbes2_ciphertext(
                params.encoding(),
                encode_utf8(b.password),
                cert_contents(b.certs()),
            );
            let key = encrypted_key(
                key_parameters(b, random),
                encode_utf8(b.password),
                b.key_der->0,
            );
            &&& pfx_of(build_outcome(b, random)->Ok_0) == Some(built_pfx(b, random))
            &&& built_pfx(b, random).auth_safe.content_type == ID_DATA@
            &&& sole_element(TAG_OCTET_STRING, built_pfx(b, random).auth_safe.content) == Some(
                built_auth_safe(b, random),
            )
            &&& authenticated_safe_of(built_auth_safe(b, random)) == Some(groups)
            &&& groups[0].content_type == ID_ENCRYPTED_DATA@
            &&& encrypted_data_of(groups[0].content) == Some(message(params, ciphertext))
            &&& safe_contents_of(cert_contents(b.certs())) == Some(cert_safe_bags(b.certs()))
            &&& groups[1].content_type == ID_DATA@
            &&& sole_element(TAG_OCTET_STRING, groups[1].content) == Some(key_contents(key))
            &&& safe_contents_of(key_contents(key)) == Some(seq![key_safe_bag(key)])
            &&& built_pfx(b, random).mac_data matches Some(mac)
            &&& mac.mac.algorithm.oid == ID_SHA_256@
            &&& mac.mac.digest == expected_tag(
                HashAlgorithm::Sha256,
                mac,
                built_auth_safe(b, random),
                b.password,
            )
            &&& b.mac_alg == (MacAlgorithm::HmacSha256 { iterations: mac.iterations })
        }),
{
    let groups = seq![cert_group(b, random), key_group(b, random)];
    let auth_safe = built_auth_safe(b, random);
    lemma_part_lens(b, random);
    lemma_written_oids();
    let params = cert_parameters(b, random);
    lemma_written_parameters(params);
    lemma_encrypted_data_round_trip(
        message(
            params,
            pbes2_ciphertext(
                params.encoding(),
                encode_utf8(b.password),
                cert_contents(b.certs()),
            ),
        ),
    );
    let key = encrypted_key(key_parameters(b, random), encode_utf8(b.password), b.key_der->0);
    lemma_tlv_is_element(TAG_OCTET_STRING, key_contents(key));
    lemma_sole_element_of_tlv(TAG_OCTET_STRING, key_contents(key));
    lemma_key_contents_read(key);
    lemma_cert_contents_read(b.certs(), b.password);
    assert(authenticated_safe_of(auth_safe) == Some(groups)) by {
        assert forall|i: int| 0 <= i < groups.len() implies (#[trigger] groups[i]).wf() by {
            assert(i == 0 || i == 1);
        }
        lemma_authenticated_safe_round_trip(groups);
    }
    lemma_tlv_is_element(TAG_OCTET_STRING, auth_safe);
    lemma_sole_element_of_tlv(TAG_OCTET_STRING, auth_safe);
    lemma_pfx_round_trip(built_pfx(b, random));
}

/// An archive is refused under a password that gives another tag than the one it was
/// built with: as a mismatch of the MAC, before anything is decrypted.
pub proof fn law_wrong_password(b: PfxBuilderView, random: Randomness, password: Seq<char>)
    requires
        build_outcome(b, random) is Ok,
        bmp_encodable(password),
        ({
            let mac = built_pfx(b, random).mac_data->0;
            let auth_safe = built_auth_safe(b, random);
            expected_tag(HashAlgorithm::Sha256, mac, auth_safe, password) != expected_tag(
                HashAlgorithm::Sha256,
                mac,
                auth_safe,
                b.password,
            )
        }),
    ensures
        parse_outcome(build_outcome(b, random)->Ok_0, password) == Err::<
            Pkcs12ContentsView,
            Failure,
        >(Failure::MacMismatch),
{
    law_built_structure(b, random);
}

// Key derivation.

/// Iteration counts below one derive what the count one derives.
pub proof fn law_rounds_at_least_one(
    alg: HashAlgorithm,
    password: Seq<u8>,
    salt: Seq<u8>,
    id: Pkcs12KeyType,
    rounds: int,
    len: nat,
)
    requires
        rounds <= 1,
    ensures
        derived_key(alg, password, salt, id, rounds, len) == derived_key(
            alg,
            password,
            salt,
            id,
            1,
            len,
        ),
{
    let d = Seq::new(64, |i: int| diversifier(id));
    lemma_rounds_at_least_one(
        alg,
        d,
        filled(salt) + filled(password),
        rounds,
        len,
    );
}

proof fn lemma_rounds_at_least_one(
    alg: HashAlgorithm,
    d: Seq<u8>,
    input: Seq<u8>,
    rounds: int,
    len: nat,
)
    requires
        rounds <= 1,
    ensures
        key_material(alg, d, input, rounds, len) == key_material(alg, d, input, 1, len),
    decreases len,
{
    if len > digest_len(alg) {
        let a = iterated_digest(alg, d + input, 1);
        lemma_rounds_at_least_one(
            alg,
            d,
            advanced(input, repeated(a, 64)),
            rounds,
            (len - digest_len(alg)) as nat,
        );
    }
}

} // verus!
