//! What holds of the encodings, whatever reads or writes them: which octets are the
//! encoding of which value, and that there is no other.

use crate::asn1::{
    integer_element, integer_octets, is_sequence, joined, lemma_integer_of_element,
    lemma_sequence_items_of_joined, lemma_sole_element_of_tlv, lemma_split_element_inverse,
    lemma_split_element_of_tlv, lemma_tlv_len, length_octets, sequence_items, sequence_of,
    slice_views, sole_element, split_element, tlv, TAG_SEQUENCE,
};
use crate::cert_bag::{cert_bag_of, lemma_cert_bag_round_trip, CertBag, CertBagView};
use crate::cms::{
    algorithm_fields, attributes_valid, content_info_of, lemma_algorithm_round_trip,
    lemma_content_info_round_trip, optional_octets, AlgorithmIdentifier, AlgorithmIdentifierView,
    ContentInfo, ContentInfoView, EncryptedData,
};
use crate::kdf::be_value;
use crate::kdf_laws::law_be_value_horner;
use crate::mac_data::{digest_info_fields, mac_data_of, DigestInfoView, MacData, MacDataView};
use crate::oid::is_oid;
use crate::pbe_params::{
    lemma_pbe_params_round_trip, pbe_params_of, Pkcs12PbeParams, Pkcs12PbeParamsView,
};
use crate::pbes2::{encrypted_key_fields, pbes2_algorithms, pbkdf2_prf};
use crate::parser::vec_views;
use crate::pfx::{
    authenticated_safe_encoding, authenticated_safe_of, info_encodings, info_views, pfx_of, Pfx,
    PfxView,
};
use crate::safe_bag::{
    bag_encodings, bag_views, lemma_safe_bag_round_trip, safe_bag_of, safe_contents_encoding,
    safe_contents_of, SafeBag, SafeBagView,
};
use vstd::prelude::*;

verus! {

// Elements.

/// A length below 128 is one octet.  Any other is an octet that tells, above 128, how many
/// follow, and the length in those, with the most significant octet first and none too many.
pub proof fn law_length_octets(n: nat)
    requires
        n <= 0xffff_ffff,
    ensures
        n < 128 ==> length_octets(n) == seq![n as u8],
        n >= 128 ==> {
            let octets = length_octets(n);
            &&& octets.len() >= 2
            &&& octets[0] == 128 + (octets.len() - 1)
            &&& be_value(octets.skip(1)) == n
            &&& octets[1] != 0
            &&& octets.len() == 2 ==> octets[1] >= 128
        },
{
    if n >= 128 {
        let octets = length_octets(n);
        let digits = octets.skip(1);
        lemma_be_value_small(digits);
        if n >= 0x100_0000 {
            assert(n == 0x100_0000 * (n / 0x100_0000) + 0x1_0000 * (n / 0x1_0000 % 0x100) + 0x100
                * (n / 0x100 % 0x100) + n % 0x100);
        }
    }
}

/// The numbers that up to four octets write.
proof fn lemma_be_value_small(d: Seq<u8>)
    ensures
        d.len() == 1 ==> be_value(d) == d[0],
        d.len() == 2 ==> be_value(d) == 0x100 * d[0] + d[1],
        d.len() == 3 ==> be_value(d) == 0x1_0000 * d[0] + 0x100 * d[1] + d[2],
        d.len() == 4 ==> be_value(d) == 0x100_0000 * d[0] + 0x1_0000 * d[1] + 0x100 * d[2] + d[3],
    decreases d.len(),
{
    if 1 <= d.len() <= 4 {
        let front = d.drop_last();
        lemma_be_value_small(front);
        law_be_value_horner(front, d.last());
        assert(front.push(d.last()) =~= d);
        if d.len() == 1 {
            assert(front =~= Seq::<u8>::empty());
        }
    }
}

/// The contents of an INTEGER are the number in two's complement, with the most significant
/// octet first, in at most four octets and in as few as can be.
pub proof fn law_integer_octets(n: i32)
    ensures
        ({
            let octets = integer_octets(n);
            let value = be_value(octets) as int;
            let wrap = if octets.len() == 1 {
                0x100
            } else if octets.len() == 2 {
                0x1_0000
            } else if octets.len() == 3 {
                0x100_0000
            } else {
                0x1_0000_0000int
            };
            &&& 1 <= octets.len() <= 4
            &&& n == if octets[0] < 128 {
                value
            } else {
                value - wrap
            }
            &&& octets.len() > 1 ==> !(octets[0] == 0 && octets[1] < 128) && !(octets[0] == 255
                && octets[1] >= 128)
        }),
{
    let octets = integer_octets(n);
    lemma_be_value_small(octets);
    let m = n as int;
    let a = m / 0x100;
    let b = m / 0x1_0000;
    let c = m / 0x100_0000;
    assert(a / 0x100 == b && b / 0x100 == c);
    assert(m == 0x100 * a + m % 0x100);
    assert(a == 0x100 * b + a % 0x100);
    assert(b == 0x100 * c + b % 0x100);
    assert(-0x80 <= c < 0x80);
    if octets.len() == 1 {
        assert(octets[0] == (m % 0x100) as u8);
    }
}

/// An element is its tag, the length of its contents, and its contents.
pub proof fn law_element_layout(tag: u8, value: Seq<u8>)
    ensures
        ({
            let element = tlv(tag, value);
            let head = 1 + length_octets(value.len()).len();
            &&& element.len() == head + value.len()
            &&& element[0] == tag
            &&& element.subrange(1, head as int) == length_octets(value.len())
            &&& element.skip(head as int) == value
        }),
{
    let element = tlv(tag, value);
    let head = 1 + length_octets(value.len()).len();
    assert(element.subrange(1, head as int) =~= length_octets(value.len()));
    assert(element.skip(head as int) =~= value);
}

/// Octets are read as one element exactly where they are that element and no more.
pub proof fn law_sole_element(tag: u8, der: Seq<u8>, value: Seq<u8>)
    ensures
        sole_element(tag, der) == Some(value) <==> der == tlv(tag, value) && der.len()
            <= 0xffff_ffff,
{
    lemma_split_element_inverse(tag, der);
    if sole_element(tag, der) == Some(value) {
        let (v, rest) = split_element(tag, der)->0;
        assert(tlv(tag, v) + rest =~= tlv(tag, v));
    }
    if der == tlv(tag, value) && der.len() <= 0xffff_ffff {
        lemma_sole_element_of_tlv(tag, value);
    }
}

/// Octets are split behind an element exactly where they start with it.
pub proof fn law_split_element(tag: u8, der: Seq<u8>, value: Seq<u8>, rest: Seq<u8>)
    ensures
        split_element(tag, der) == Some((value, rest)) <==> der == tlv(tag, value) + rest
            && der.len() <= 0xffff_ffff,
{
    lemma_split_element_inverse(tag, der);
    if der == tlv(tag, value) + rest && der.len() <= 0xffff_ffff {
        lemma_split_element_of_tlv(tag, value, rest);
    }
}

/// Octets are read as a SEQUENCE OF SEQUENCEs exactly where they are those SEQUENCEs, one
/// after the other, in a SEQUENCE.
pub proof fn law_sequence_of(der: Seq<u8>, items: Seq<Seq<u8>>)
    ensures
        sequence_of(der) == Some(items) <==> {
            &&& der == tlv(TAG_SEQUENCE, joined(items))
            &&& der.len() <= 0xffff_ffff
            &&& forall|i: int| 0 <= i < items.len() ==> is_sequence(#[trigger] items[i])
        },
{
    if sequence_of(der) == Some(items) {
        let body = sole_element(TAG_SEQUENCE, der)->0;
        law_sole_element(TAG_SEQUENCE, der, body);
        lemma_sequence_items_inverse(body);
    }
    if der == tlv(TAG_SEQUENCE, joined(items)) && der.len() <= 0xffff_ffff && (forall|i: int|
        0 <= i < items.len() ==> is_sequence(#[trigger] items[i])) {
        lemma_tlv_len(TAG_SEQUENCE, joined(items));
        law_sole_element(TAG_SEQUENCE, der, joined(items));
        lemma_sequence_items_of_joined(items);
    }
}

proof fn lemma_sequence_items_inverse(body: Seq<u8>)
    ensures
        sequence_items(body) matches Some(items) ==> joined(items) == body && forall|i: int|
            0 <= i < items.len() ==> is_sequence(#[trigger] items[i]),
    decreases body.len(),
{
    if body.len() > 0 && sequence_items(body) is Some {
        lemma_split_element_inverse(TAG_SEQUENCE, body);
        let (value, rest) = split_element(TAG_SEQUENCE, body)->0;
        lemma_sequence_items_inverse(rest);
        let items = sequence_items(body)->0;
        let tail = sequence_items(rest)->0;
        assert(items == seq![tlv(TAG_SEQUENCE, value)] + tail);
        assert(items.skip(1) =~= tail);
        assert forall|i: int| 0 <= i < items.len() implies is_sequence(#[trigger] items[i]) by {
            if i > 0 {
                assert(items[i] == tail[i - 1]);
            }
        }
    } else if body.len() == 0 {
        assert(body =~= Seq::<u8>::empty());
    }
}

// The structures.

/// A certificate bag is a SEQUENCE of the certificate's type and, under an explicit tag, an
/// OCTET STRING that holds the certificate: so it is written, and so alone it is read.
pub proof fn law_cert_bag(der: Seq<u8>, bag: CertBagView)
    ensures
        bag.encoding() == tlv(
            0x30,
            tlv(0x06, bag.cert_id) + tlv(0xa0, tlv(0x04, bag.cert_value)),
        ),
        cert_bag_of(der) == Some(bag) <==> der == bag.encoding() && der.len() <= 0xffff_ffff
            && is_oid(bag.cert_id),
{
    if cert_bag_of(der) == Some(bag) {
        let body = sole_element(0x30, der)->0;
        let (id, rest) = split_element(0x06, body)->0;
        let content = sole_element(0xa0, rest)->0;
        law_sole_element(0x30, der, body);
        law_split_element(0x06, body, id, rest);
        law_sole_element(0xa0, rest, content);
        law_sole_element(0x04, content, bag.cert_value);
    }
    if der == bag.encoding() && der.len() <= 0xffff_ffff && is_oid(bag.cert_id) {
        lemma_cert_bag_round_trip(bag);
    }
}

/// A bag is a SEQUENCE of the bag's type, its value under an explicit tag and, where there
/// are any, a SET of attributes: so it is written, and so alone it is read.
pub proof fn law_safe_bag(der: Seq<u8>, bag: SafeBagView)
    ensures
        bag.encoding() == tlv(
            0x30,
            tlv(0x06, bag.bag_id) + (bag.bag_value + match bag.bag_attributes {
                Some(attributes) => attributes,
                None => Seq::empty(),
            }),
        ),
        safe_bag_of(der) == Some(bag) <==> {
            &&& der == bag.encoding()
            &&& der.len() <= 0xffff_ffff
            &&& is_oid(bag.bag_id)
            &&& exists|content: Seq<u8>| bag.bag_value == #[trigger] tlv(0xa0, content)
            &&& bag.bag_attributes matches Some(attributes) ==> exists|set: Seq<u8>|
                attributes == #[trigger] tlv(0x31, set) && attributes_valid(set)
        },
{
    if safe_bag_of(der) == Some(bag) {
        let body = sole_element(0x30, der)->0;
        let (id, rest) = split_element(0x06, body)->0;
        let (content, attributes) = split_element(0xa0, rest)->0;
        law_sole_element(0x30, der, body);
        law_split_element(0x06, body, id, rest);
        law_split_element(0xa0, rest, content, attributes);
        assert(bag.bag_value == tlv(0xa0, content));
        if attributes.len() == 0 {
            assert(attributes =~= Seq::<u8>::empty());
        } else {
            let set = sole_element(0x31, attributes)->0;
            law_sole_element(0x31, attributes, set);
        }
        assert(bag.fields() =~= body);
    }
    if {
        &&& der == bag.encoding()
        &&& der.len() <= 0xffff_ffff
        &&& is_oid(bag.bag_id)
        &&& exists|content: Seq<u8>| bag.bag_value == #[trigger] tlv(0xa0, content)
        &&& bag.bag_attributes matches Some(attributes) ==> exists|set: Seq<u8>|
            attributes == #[trigger] tlv(0x31, set) && attributes_valid(set)
    } {
        lemma_tlv_len(0x30, bag.fields());
        if bag.bag_attributes is Some {
            let attributes = bag.bag_attributes->0;
            let set = choose|set: Seq<u8>|
                attributes == #[trigger] tlv(0x31, set) && attributes_valid(set);
            law_sole_element(0x31, attributes, set);
        }
        lemma_safe_bag_round_trip(bag);
    }
}

/// Bags are a SEQUENCE of the bags, one after the other: all that are there are read, in
/// their order, and no others.
pub proof fn law_safe_contents_read(der: Seq<u8>, bags: Seq<SafeBagView>)
    ensures
        safe_contents_of(der) == Some(bags) <==> exists|items: Seq<Seq<u8>>|
            {
                &&& der == tlv(0x30, #[trigger] joined(items))
                &&& der.len() <= 0xffff_ffff
                &&& items.len() == bags.len()
                &&& forall|i: int|
                    0 <= i < items.len() ==> safe_bag_of(#[trigger] items[i]) == Some(bags[i])
            },
{
    if safe_contents_of(der) == Some(bags) {
        let items = sequence_of(der)->0;
        law_sequence_of(der, items);
        assert(joined(items) == joined(items));
        assert forall|i: int| 0 <= i < items.len() implies safe_bag_of(#[trigger] items[i]) == Some(
            bags[i],
        ) by {}
    }
    if exists|items: Seq<Seq<u8>>|
        {
            &&& der == tlv(0x30, #[trigger] joined(items))
            &&& der.len() <= 0xffff_ffff
            &&& items.len() == bags.len()
            &&& forall|i: int|
                0 <= i < items.len() ==> safe_bag_of(#[trigger] items[i]) == Some(bags[i])
        } {
        let items = choose|items: Seq<Seq<u8>>|
            {
                &&& der == tlv(0x30, #[trigger] joined(items))
                &&& der.len() <= 0xffff_ffff
                &&& items.len() == bags.len()
                &&& forall|i: int|
                    0 <= i < items.len() ==> safe_bag_of(#[trigger] items[i]) == Some(bags[i])
            };
        assert forall|i: int| 0 <= i < items.len() implies is_sequence(#[trigger] items[i]) by {
            assert(safe_bag_of(items[i]) == Some(bags[i]));
            let body = sole_element(0x30, items[i])->0;
            law_sole_element(0x30, items[i], body);
        }
        law_sequence_of(der, items);
        assert(items.map_values(|item: Seq<u8>| safe_bag_of(item)->0) =~= bags);
    }
}

/// Bags are written as a SEQUENCE of them, one after the other.
pub proof fn law_safe_contents_written(bags: Seq<SafeBagView>, items: Seq<Seq<u8>>)
    requires
        items.len() == bags.len(),
        forall|i: int| 0 <= i < bags.len() ==> items[i] == (#[trigger] bags[i]).encoding(),
    ensures
        safe_contents_encoding(bags) == tlv(0x30, joined(items)),
{
    assert(bag_encodings(bags) =~= items);
}

/// Groups are a SEQUENCE of the groups, one after the other: all that are there are read, in
/// their order, and no others.
pub proof fn law_authenticated_safe_read(der: Seq<u8>, infos: Seq<ContentInfoView>)
    ensures
        authenticated_safe_of(der) == Some(infos) <==> exists|items: Seq<Seq<u8>>|
            {
                &&& der == tlv(0x30, #[trigger] joined(items))
                &&& der.len() <= 0xffff_ffff
                &&& items.len() == infos.len()
                &&& forall|i: int|
                    0 <= i < items.len() ==> content_info_of(#[trigger] items[i]) == Some(infos[i])
            },
{
    if authenticated_safe_of(der) == Some(infos) {
        let items = sequence_of(der)->0;
        law_sequence_of(der, items);
        assert(joined(items) == joined(items));
        assert forall|i: int| 0 <= i < items.len() implies content_info_of(#[trigger] items[i])
            == Some(infos[i]) by {}
    }
    if exists|items: Seq<Seq<u8>>|
        {
            &&& der == tlv(0x30, #[trigger] joined(items))
            &&& der.len() <= 0xffff_ffff
            &&& items.len() == infos.len()
            &&& forall|i: int|
                0 <= i < items.len() ==> content_info_of(#[trigger] items[i]) == Some(infos[i])
        } {
        let items = choose|items: Seq<Seq<u8>>|
            {
                &&& der == tlv(0x30, #[trigger] joined(items))
                &&& der.len() <= 0xffff_ffff
                &&& items.len() == infos.len()
                &&& forall|i: int|
                    0 <= i < items.len() ==> content_info_of(#[trigger] items[i]) == Some(infos[i])
            };
        assert forall|i: int| 0 <= i < items.len() implies is_sequence(#[trigger] items[i]) by {
            assert(content_info_of(items[i]) == Some(infos[i]));
            let body = sole_element(0x30, items[i])->0;
            law_sole_element(0x30, items[i], body);
        }
        law_sequence_of(der, items);
        assert(items.map_values(|item: Seq<u8>| content_info_of(item)->0) =~= infos);
    }
}

/// Groups are written as a SEQUENCE of them, one after the other.
pub proof fn law_authenticated_safe_written(infos: Seq<ContentInfoView>, items: Seq<Seq<u8>>)
    requires
        items.len() == infos.len(),
        forall|i: int| 0 <= i < infos.len() ==> items[i] == (#[trigger] infos[i]).encoding(),
    ensures
        authenticated_safe_encoding(infos) == tlv(0x30, joined(items)),
{
    assert(info_encodings(infos) =~= items);
}

/// The octets of some items are those of the first items followed by those of the others.
pub proof fn law_joined(first: Seq<Seq<u8>>, last: Seq<Seq<u8>>)
    ensures
        joined(Seq::empty()) == Seq::<u8>::empty(),
        forall|item: Seq<u8>| #[trigger] joined(seq![item]) == item,
        joined(first + last) == joined(first) + joined(last),
    decreases first.len(),
{
    assert forall|item: Seq<u8>| #[trigger] joined(seq![item]) == item by {
        assert(seq![item].skip(1) =~= Seq::<Seq<u8>>::empty());
        assert(joined(seq![item]) == item + joined(seq![item].skip(1)));
        assert(item + Seq::<u8>::empty() =~= item);
    }
    if first.len() == 0 {
        assert(first + last =~= last);
        assert(joined(first) + joined(last) =~= joined(last));
    } else {
        law_joined(first.skip(1), last);
        assert((first + last).skip(1) =~= first.skip(1) + last);
        assert(joined(first + last) =~= joined(first) + joined(last));
    }
}

/// The octets behind the salt of MAC data: the iteration count, or nothing where it is one.
pub open spec fn is_iteration_field(tail: Seq<u8>, iterations: i32) -> bool {
    tail == integer_element(iterations) || (tail.len() == 0 && iterations == 1)
}

/// MAC data is a SEQUENCE of the digest with its algorithm, the salt and the iteration
/// count, which may be left out where it is one: exactly that is read.
pub proof fn law_mac_data_read(der: Seq<u8>, data: MacDataView)
    ensures
        mac_data_of(der) == Some(data) <==> der.len() <= 0xffff_ffff && data.mac.algorithm.wf()
            && exists|tail: Seq<u8>| #[trigger]
            is_iteration_field(tail, data.iterations) && der == tlv(
                0x30,
                tlv(0x30, data.mac.algorithm.encoding() + tlv(0x04, data.mac.digest)) + (tlv(
                    0x04,
                    data.mac_salt,
                ) + tail),
            ),
{
    let alg = data.mac.algorithm;
    if mac_data_of(der) == Some(data) {
        let body = sole_element(0x30, der)->0;
        let (mac_body, rest) = split_element(0x30, body)->0;
        let (salt, tail) = split_element(0x04, rest)->0;
        law_sole_element(0x30, der, body);
        law_split_element(0x30, body, mac_body, rest);
        law_split_element(0x04, rest, salt, tail);
        lemma_digest_info_inverse(mac_body);
        if tail.len() > 0 {
            assert(tail == integer_element(data.iterations));
        }
        assert(is_iteration_field(tail, data.iterations));
    }
    if der.len() <= 0xffff_ffff && alg.wf() && exists|tail: Seq<u8>| #[trigger]
        is_iteration_field(tail, data.iterations) && der == tlv(
            0x30,
            tlv(0x30, alg.encoding() + tlv(0x04, data.mac.digest)) + (tlv(0x04, data.mac_salt)
                + tail),
        ) {
        let tail = choose|tail: Seq<u8>| #[trigger]
            is_iteration_field(tail, data.iterations) && der == tlv(
                0x30,
                tlv(0x30, alg.encoding() + tlv(0x04, data.mac.digest)) + (tlv(0x04, data.mac_salt)
                    + tail),
            );
        let mac_body = alg.encoding() + tlv(0x04, data.mac.digest);
        let rest = tlv(0x04, data.mac_salt) + tail;
        lemma_tlv_len(0x30, tlv(0x30, mac_body) + rest);
        lemma_tlv_len(0x30, mac_body);
        law_sole_element(0x30, der, tlv(0x30, mac_body) + rest);
        law_split_element(0x30, tlv(0x30, mac_body) + rest, mac_body, rest);
        law_split_element(0x04, rest, data.mac_salt, tail);
        lemma_digest_info_read(data.mac);
        lemma_integer_of_element(data.iterations);
        lemma_tlv_len(0x02, integer_octets(data.iterations));
    }
}

proof fn lemma_digest_info_inverse(body: Seq<u8>)
    ensures
        digest_info_fields(body) matches Some(info) ==> info.algorithm.wf() && body
            == info.algorithm.encoding() + tlv(0x04, info.digest),
{
    if digest_info_fields(body) is Some {
        let info = digest_info_fields(body)->0;
        let (alg_body, rest) = split_element(0x30, body)->0;
        law_split_element(0x30, body, alg_body, rest);
        law_sole_element(0x04, rest, info.digest);
        lemma_algorithm_inverse(alg_body);
    }
}

proof fn lemma_algorithm_inverse(alg_body: Seq<u8>)
    ensures
        algorithm_fields(alg_body) matches Some(alg) ==> alg.wf() && tlv(0x30, alg_body)
            == alg.encoding(),
{
    if algorithm_fields(alg_body) is Some {
        let alg = algorithm_fields(alg_body)->0;
        let (oid, rest) = split_element(0x06, alg_body)->0;
        law_split_element(0x06, alg_body, oid, rest);
        if rest.len() == 0 {
            assert(rest =~= Seq::<u8>::empty());
        }
        assert(alg_body =~= tlv(0x06, alg.oid) + optional_octets(alg.parameters));
    }
}

proof fn lemma_digest_info_read(info: DigestInfoView)
    requires
        info.algorithm.wf(),
        (info.algorithm.encoding() + tlv(0x04, info.digest)).len() <= 0xffff_ffff,
    ensures
        digest_info_fields(info.algorithm.encoding() + tlv(0x04, info.digest)) == Some(info),
{
    let alg = info.algorithm;
    let alg_body = tlv(0x06, alg.oid) + optional_octets(alg.parameters);
    lemma_split_element_of_tlv(0x30, alg_body, tlv(0x04, info.digest));
    law_sole_element(0x04, tlv(0x04, info.digest), info.digest);
    lemma_algorithm_round_trip(alg);
}

/// MAC data is written with the iteration count, or without it where it is one.
pub proof fn law_mac_data_written(data: MacDataView)
    ensures
        data.encoding() == tlv(
            0x30,
            tlv(0x30, data.mac.algorithm.encoding() + tlv(0x04, data.mac.digest)) + (tlv(
                0x04,
                data.mac_salt,
            ) + if data.iterations == 1 {
                Seq::empty()
            } else {
                integer_element(data.iterations)
            }),
        ),
{
}

/// The parameters of PKCS#12's own schemes are a SEQUENCE of salt and iteration count.
pub proof fn law_pbe_params(der: Seq<u8>, params: Pkcs12PbeParamsView)
    ensures
        pbe_params_of(der) == Some(params) <==> der.len() <= 0xffff_ffff && der == tlv(
            0x30,
            tlv(0x04, params.salt) + integer_element(params.iterations),
        ),
{
    if pbe_params_of(der) == Some(params) {
        let body = sole_element(0x30, der)->0;
        let (salt, rest) = split_element(0x04, body)->0;
        law_sole_element(0x30, der, body);
        law_split_element(0x04, body, salt, rest);
        assert(rest == integer_element(params.iterations));
    }
    if der.len() <= 0xffff_ffff && der == tlv(
        0x30,
        tlv(0x04, params.salt) + integer_element(params.iterations),
    ) {
        lemma_pbe_params_round_trip(params);
    }
}

/// An archive is a SEQUENCE of the version three, the wrapped `AuthenticatedSafe` and, where
/// there is one, the MAC data: exactly that is read.
pub proof fn law_pfx_read(der: Seq<u8>, pfx: PfxView)
    ensures
        pfx_of(der) == Some(pfx) <==> der.len() <= 0xffff_ffff && pfx.auth_safe.wf()
            && exists|tail: Seq<u8>| #[trigger]
            is_mac_field(tail, pfx.mac_data) && der == tlv(
                0x30,
                tlv(0x02, seq![3u8]) + (pfx.auth_safe.encoding() + tail),
            ),
{
    let info = pfx.auth_safe;
    if pfx_of(der) == Some(pfx) {
        let body = sole_element(0x30, der)->0;
        let (version, rest) = split_element(0x02, body)->0;
        let (info_body, tail) = split_element(0x30, rest)->0;
        law_sole_element(0x30, der, body);
        law_split_element(0x02, body, version, rest);
        law_split_element(0x30, rest, info_body, tail);
        let (content_type, explicit) = split_element(0x06, info_body)->0;
        law_split_element(0x06, info_body, content_type, explicit);
        law_sole_element(0xa0, explicit, info.content);
        assert(info.encoding() == tlv(0x30, info_body));
        assert(is_mac_field(tail, pfx.mac_data));
    }
    if der.len() <= 0xffff_ffff && info.wf() && exists|tail: Seq<u8>| #[trigger]
        is_mac_field(tail, pfx.mac_data) && der == tlv(
            0x30,
            tlv(0x02, seq![3u8]) + (info.encoding() + tail),
        ) {
        let tail = choose|tail: Seq<u8>| #[trigger]
            is_mac_field(tail, pfx.mac_data) && der == tlv(
                0x30,
                tlv(0x02, seq![3u8]) + (info.encoding() + tail),
            );
        let rest = info.encoding() + tail;
        let body = tlv(0x02, seq![3u8]) + rest;
        let info_body = tlv(0x06, info.content_type) + tlv(0xa0, info.content);
        lemma_tlv_len(0x30, body);
        law_sole_element(0x30, der, body);
        law_split_element(0x02, body, seq![3u8], rest);
        law_split_element(0x30, rest, info_body, tail);
        law_sole_element(0x30, info.encoding(), info_body);
        lemma_content_info_round_trip(info);
        if pfx.mac_data is Some {
            law_mac_data_read(tail, pfx.mac_data->0);
            assert(tail.len() > 0);
        }
        assert(pfx_of(der)->0 =~= pfx);
    }
}

/// The octets behind the wrapped `AuthenticatedSafe`: MAC data, or nothing.
pub open spec fn is_mac_field(tail: Seq<u8>, mac_data: Option<MacDataView>) -> bool {
    match mac_data {
        Some(data) => mac_data_of(tail) == Some(data),
        None => tail.len() == 0,
    }
}

/// An archive is written as the SEQUENCE of its parts.
pub proof fn law_pfx_written(pfx: PfxView)
    ensures
        pfx.encoding() == tlv(
            0x30,
            tlv(0x02, seq![3u8]) + (pfx.auth_safe.encoding() + match pfx.mac_data {
                Some(data) => data.encoding(),
                None => Seq::empty(),
            }),
        ),
{
}

/// An encrypted private key is a SEQUENCE of an algorithm and an OCTET STRING that holds
/// the ciphertext, whatever the algorithm: exactly that is read.
pub proof fn law_encrypted_key_fields(
    der: Seq<u8>,
    alg: AlgorithmIdentifierView,
    ciphertext: Seq<u8>,
)
    ensures
        encrypted_key_fields(der) == Some((alg, ciphertext)) <==> der.len() <= 0xffff_ffff
            && alg.wf() && der == tlv(0x30, alg.encoding() + tlv(0x04, ciphertext)),
{
    if encrypted_key_fields(der) == Some((alg, ciphertext)) {
        let body = sole_element(0x30, der)->0;
        let (alg_body, rest) = split_element(0x30, body)->0;
        law_sole_element(0x30, der, body);
        law_split_element(0x30, body, alg_body, rest);
        law_sole_element(0x04, rest, ciphertext);
        lemma_algorithm_inverse(alg_body);
    }
    if der.len() <= 0xffff_ffff && alg.wf() && der == tlv(
        0x30,
        alg.encoding() + tlv(0x04, ciphertext),
    ) {
        let body = alg.encoding() + tlv(0x04, ciphertext);
        let alg_body = tlv(0x06, alg.oid) + optional_octets(alg.parameters);
        lemma_tlv_len(0x30, body);
        law_sole_element(0x30, der, body);
        law_split_element(0x30, body, alg_body, tlv(0x04, ciphertext));
        law_sole_element(0x04, tlv(0x04, ciphertext), ciphertext);
        lemma_algorithm_round_trip(alg);
    }
}

/// PBES2 parameters are a SEQUENCE of the key derivation and the cipher: exactly that is
/// read.
pub proof fn law_pbes2_algorithms(
    der: Seq<u8>,
    kdf: AlgorithmIdentifierView,
    cipher: AlgorithmIdentifierView,
)
    ensures
        pbes2_algorithms(der) == Some((kdf, cipher)) <==> der.len() <= 0xffff_ffff && kdf.wf()
            && cipher.wf() && der == tlv(0x30, kdf.encoding() + cipher.encoding()),
{
    if pbes2_algorithms(der) == Some((kdf, cipher)) {
        let body = sole_element(0x30, der)->0;
        let (kdf_body, rest) = split_element(0x30, body)->0;
        let cipher_body = sole_element(0x30, rest)->0;
        law_sole_element(0x30, der, body);
        law_split_element(0x30, body, kdf_body, rest);
        law_sole_element(0x30, rest, cipher_body);
        lemma_algorithm_inverse(kdf_body);
        lemma_algorithm_inverse(cipher_body);
    }
    if der.len() <= 0xffff_ffff && kdf.wf() && cipher.wf() && der == tlv(
        0x30,
        kdf.encoding() + cipher.encoding(),
    ) {
        let body = kdf.encoding() + cipher.encoding();
        let kdf_body = tlv(0x06, kdf.oid) + optional_octets(kdf.parameters);
        lemma_tlv_len(0x30, body);
        law_sole_element(0x30, der, body);
        law_split_element(0x30, body, kdf_body, cipher.encoding());
        lemma_algorithm_round_trip(kdf);
        lemma_algorithm_round_trip(cipher);
    }
}

/// The function of PBKDF2 is the one named behind the salt, the iteration count and, where
/// there is one, the key length.
pub proof fn law_pbkdf2_prf(
    salt: Seq<u8>,
    count: Seq<u8>,
    key_length: Option<Seq<u8>>,
    prf: AlgorithmIdentifierView,
)
    requires
        prf.wf(),
        tlv(
            0x30,
            tlv(0x04, salt) + (tlv(0x02, count) + (match key_length {
                Some(octets) => tlv(0x02, octets),
                None => Seq::empty(),
            } + prf.encoding())),
        ).len() <= 0xffff_ffff,
    ensures
        pbkdf2_prf(
            tlv(
                0x30,
                tlv(0x04, salt) + (tlv(0x02, count) + (match key_length {
                    Some(octets) => tlv(0x02, octets),
                    None => Seq::empty(),
                } + prf.encoding())),
            ),
        ) == Some(prf),
{
    let length = match key_length {
        Some(octets) => tlv(0x02, octets),
        None => Seq::empty(),
    };
    let tail = length + prf.encoding();
    let rest = tlv(0x02, count) + tail;
    let body = tlv(0x04, salt) + rest;
    lemma_tlv_len(0x30, body);
    law_sole_element(0x30, tlv(0x30, body), body);
    law_split_element(0x04, body, salt, rest);
    law_split_element(0x02, rest, count, tail);
    lemma_algorithm_round_trip(prf);
    if key_length is Some {
        law_split_element(0x02, tail, key_length->0, prf.encoding());
    } else {
        assert(tail =~= prf.encoding());
        assert(tail[0] == 0x30);
        if split_element(0x02, tail) is Some {
            let (v, r) = split_element(0x02, tail)->0;
            law_split_element(0x02, tail, v, r);
            assert((tlv(0x02, v) + r)[0] == 0x02);
        }
    }
}

/// The function of PBKDF2 is read from nowhere else.
pub proof fn law_pbkdf2_prf_read(der: Seq<u8>, prf: AlgorithmIdentifierView)
    requires
        pbkdf2_prf(der) == Some(prf),
    ensures
        prf.wf(),
        exists|salt: Seq<u8>, count: Seq<u8>, length: Seq<u8>| #[trigger]
            is_pbkdf2_parameters(der, salt, count, length, prf.encoding()),
{
    let body = sole_element(0x30, der)->0;
    let (salt, rest) = split_element(0x04, body)->0;
    let (count, tail) = split_element(0x02, rest)->0;
    law_sole_element(0x30, der, body);
    law_split_element(0x04, body, salt, rest);
    law_split_element(0x02, rest, count, tail);
    if split_element(0x02, tail) is Some {
        let (octets, named) = split_element(0x02, tail)->0;
        law_split_element(0x02, tail, octets, named);
        let alg_body = sole_element(0x30, named)->0;
        law_sole_element(0x30, named, alg_body);
        lemma_algorithm_inverse(alg_body);
        assert(is_pbkdf2_parameters(der, salt, count, tlv(0x02, octets), prf.encoding()));
    } else {
        let alg_body = sole_element(0x30, tail)->0;
        law_sole_element(0x30, tail, alg_body);
        lemma_algorithm_inverse(alg_body);
        assert(Seq::<u8>::empty() + prf.encoding() =~= tail);
        assert(is_pbkdf2_parameters(der, salt, count, Seq::empty(), prf.encoding()));
    }
}

/// `der` are PBKDF2 parameters of a salt, an iteration count, a key length, which may be
/// absent, and a function.
pub open spec fn is_pbkdf2_parameters(
    der: Seq<u8>,
    salt: Seq<u8>,
    count: Seq<u8>,
    length: Seq<u8>,
    prf: Seq<u8>,
) -> bool {
    &&& der == tlv(0x30, tlv(0x04, salt) + (tlv(0x02, count) + (length + prf)))
    &&& length.len() == 0 || exists|octets: Seq<u8>| length == #[trigger] tlv(0x02, octets)
}

// Values and what they are.

/// The mathematical content of a list is that of its items, all of them in their order.
pub proof fn law_lists(
    bags: Seq<SafeBag>,
    infos: Seq<ContentInfo>,
    vecs: Seq<Vec<u8>>,
    slices: Seq<&[u8]>,
)
    ensures
        bag_views(bags).len() == bags.len(),
        forall|i: int| 0 <= i < bags.len() ==> bag_views(bags)[i] == (#[trigger] bags[i])@,
        info_views(infos).len() == infos.len(),
        forall|i: int| 0 <= i < infos.len() ==> info_views(infos)[i] == (#[trigger] infos[i])@,
        vec_views(vecs).len() == vecs.len(),
        forall|i: int| 0 <= i < vecs.len() ==> vec_views(vecs)[i] == (#[trigger] vecs[i])@,
        slice_views(slices).len() == slices.len(),
        forall|i: int| 0 <= i < slices.len() ==> slice_views(slices)[i] == (#[trigger] slices[i])@,
{
}

/// The mathematical content of a structure is that of its fields, each of them whole.
pub proof fn law_fields(
    cert_bag: CertBag,
    bag: SafeBag,
    mac: MacData,
    params: Pkcs12PbeParams,
    pfx: Pfx,
    info: ContentInfo,
    alg: AlgorithmIdentifier,
    data: EncryptedData,
)
    ensures
        cert_bag@.cert_id == cert_bag.cert_id@ && cert_bag@.cert_value == cert_bag.cert_value@,
        bag@.bag_id == bag.bag_id@ && bag@.bag_value == bag.bag_value@,
        bag@.bag_attributes is Some <==> bag.bag_attributes is Some,
        bag.bag_attributes matches Some(attributes) ==> bag@.bag_attributes == Some(attributes@),
        mac@.mac.algorithm == mac.mac.algorithm@ && mac@.mac.digest == mac.mac.digest@,
        mac@.mac_salt == mac.mac_salt@ && mac@.iterations == mac.iterations,
        params@.salt == params.salt@ && params@.iterations == params.iterations,
        pfx@.auth_safe == pfx.auth_safe@,
        pfx@.mac_data is Some <==> pfx.mac_data is Some,
        pfx.mac_data matches Some(mac_data) ==> pfx@.mac_data == Some(mac_data@),
        info@.content_type == info.content_type@ && info@.content == info.content@,
        alg@.oid == alg.oid@,
        alg@.parameters is Some <==> alg.parameters is Some,
        alg.parameters matches Some(der) ==> alg@.parameters == Some(der@),
        data@.version == data.version && data@.content_type == data.content_type@,
        data@.content_enc_alg == data.content_enc_alg@,
        data@.encrypted_content is Some <==> data.encrypted_content is Some,
        data.encrypted_content matches Some(content) ==> data@.encrypted_content == Some(content@),
{
}

} // verus!
