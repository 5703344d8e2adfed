//! `SafeBag` and `SafeContents`: the items of an archive.

use crate::asn1::{
    failed, is_sequence, joined, lemma_joined_item_len, lemma_joined_push,
    lemma_sequence_of_joined, lemma_sole_element_of_tlv, lemma_split_element_inverse,
    lemma_split_element_of_tlv, max_der_len, read_element, read_sequence_of, read_sole_element,
    read_whole_element, sequence_of, slice_views, sole_element, split_element, tlv, write_element,
    TAG_EXPLICIT_0, TAG_OID, TAG_SEQUENCE, TAG_SET,
};
use crate::cms::{attributes_valid, check_attributes, optional_octets, optional_view};
use crate::oid::{check_oid, is_oid};
use vstd::prelude::*;
use vstd::slice::slice_to_vec;

verus! {

/// One item of an archive.
#[derive(Debug)]
pub struct SafeBag {
    /// What the item is.
    pub bag_id: Vec<u8>,
    /// The item, as the whole element under the explicit tag `[0]`.
    pub bag_value: Vec<u8>,
    /// The item's attributes, as a whole SET element.
    pub bag_attributes: Option<Vec<u8>>,
}

/// The mathematical content of a [`SafeBag`].
#[verifier::ext_equal]
pub struct SafeBagView {
    pub bag_id: Seq<u8>,
    pub bag_value: Seq<u8>,
    pub bag_attributes: Option<Seq<u8>>,
}

impl View for SafeBag {
    type V = SafeBagView;

    open spec fn view(&self) -> SafeBagView {
        SafeBagView {
            bag_id: self.bag_id@,
            bag_value: self.bag_value@,
            bag_attributes: optional_view(self.bag_attributes),
        }
    }
}

impl SafeBagView {
    /// Whether the fields are what the syntax allows.
    pub open spec fn wf(self) -> bool {
        &&& is_oid(self.bag_id)
        &&& exists|content: Seq<u8>| self.bag_value == #[trigger] tlv(TAG_EXPLICIT_0, content)
        &&& self.bag_attributes matches Some(der) ==> attributes_wf(der)
    }

    /// The contents of the SEQUENCE.
    pub open spec fn fields(self) -> Seq<u8> {
        tlv(TAG_OID, self.bag_id) + (self.bag_value + optional_octets(self.bag_attributes))
    }

    /// The DER encoding.
    pub open spec fn encoding(self) -> Seq<u8> {
        tlv(TAG_SEQUENCE, self.fields())
    }
}

/// Whether `der` is a SET of well-formed attributes.
pub open spec fn attributes_wf(der: Seq<u8>) -> bool {
    sole_element(TAG_SET, der) matches Some(set) && attributes_valid(set)
}

/// The bag whose SEQUENCE has the contents `body`.
pub open spec fn safe_bag_fields(body: Seq<u8>) -> Option<SafeBagView> {
    match split_element(TAG_OID, body) {
        Some((bag_id, rest)) => match split_element(TAG_EXPLICIT_0, rest) {
            Some((content, attributes)) => if !is_oid(bag_id) {
                None
            } else if attributes.len() == 0 {
                Some(
                    SafeBagView {
                        bag_id,
                        bag_value: tlv(TAG_EXPLICIT_0, content),
                        bag_attributes: None,
                    },
                )
            } else if attributes_wf(attributes) {
                Some(
                    SafeBagView {
                        bag_id,
                        bag_value: tlv(TAG_EXPLICIT_0, content),
                        bag_attributes: Some(attributes),
                    },
                )
            } else {
                None
            },
            None => None,
        },
        None => None,
    }
}

/// The bag that `der` encodes.
pub open spec fn safe_bag_of(der: Seq<u8>) -> Option<SafeBagView> {
    match sole_element(TAG_SEQUENCE, der) {
        Some(body) => safe_bag_fields(body),
        None => None,
    }
}

/// The bags that the SEQUENCE OF encoded by `der` holds.
pub open spec fn safe_contents_of(der: Seq<u8>) -> Option<Seq<SafeBagView>> {
    match sequence_of(der) {
        Some(items) => if forall|i: int|
            0 <= i < items.len() ==> safe_bag_of(#[trigger] items[i]) is Some {
            Some(items.map_values(|item: Seq<u8>| safe_bag_of(item)->0))
        } else {
            None
        },
        None => None,
    }
}

/// The contents of some bags.
pub open spec fn bag_views(bags: Seq<SafeBag>) -> Seq<SafeBagView> {
    bags.map_values(|bag: SafeBag| bag@)
}

/// The encodings of some bags.
pub open spec fn bag_encodings(bags: Seq<SafeBagView>) -> Seq<Seq<u8>> {
    bags.map_values(|bag: SafeBagView| bag.encoding())
}

/// The DER encoding of some bags.
pub open spec fn safe_contents_encoding(bags: Seq<SafeBagView>) -> Seq<u8> {
    tlv(TAG_SEQUENCE, joined(bag_encodings(bags)))
}

/// Decoding an encoded bag gives it back.
pub proof fn lemma_safe_bag_round_trip(bag: SafeBagView)
    requires
        bag.wf(),
        bag.encoding().len() <= max_der_len(),
    ensures
        safe_bag_of(bag.encoding()) == Some(bag),
{
    let content = choose|content: Seq<u8>| bag.bag_value == #[trigger] tlv(TAG_EXPLICIT_0, content);
    let attributes = optional_octets(bag.bag_attributes);
    lemma_sole_element_of_tlv(TAG_SEQUENCE, bag.fields());
    lemma_split_element_of_tlv(TAG_OID, bag.bag_id, bag.bag_value + attributes);
    lemma_split_element_of_tlv(TAG_EXPLICIT_0, content, attributes);
    lemma_split_element_inverse(TAG_SET, attributes);
}

/// Decoding some encoded bags gives them back.
pub proof fn lemma_safe_contents_round_trip(bags: Seq<SafeBagView>)
    requires
        forall|i: int| 0 <= i < bags.len() ==> (#[trigger] bags[i]).wf(),
        safe_contents_encoding(bags).len() <= max_der_len(),
    ensures
        safe_contents_of(safe_contents_encoding(bags)) == Some(bags),
{
    let items = bag_encodings(bags);
    assert forall|i: int| 0 <= i < items.len() implies is_sequence(#[trigger] items[i]) by {
        assert(items[i] == tlv(TAG_SEQUENCE, bags[i].fields()));
    }
    lemma_sequence_of_joined(items);
    assert forall|i: int| 0 <= i < items.len() implies safe_bag_of(#[trigger] items[i]) == Some(
        bags[i],
    ) by {
        lemma_joined_item_len(items, i);
        assert(bags[i].wf());
        lemma_safe_bag_round_trip(bags[i]);
    }
    assert(items.map_values(|item: Seq<u8>| safe_bag_of(item)->0) =~= bags);
}

impl SafeBag {
    /// Decodes a bag.
    pub fn from_der(der: &[u8]) -> (r: Result<Self, der::Error>)
        ensures
            match r {
                Ok(bag) => safe_bag_of(der@) == Some(bag@),
                Err(_) => safe_bag_of(der@) is None,
            },
    {
        let body = read_sole_element(TAG_SEQUENCE, der)?;
        let (bag_id, rest) = read_element(TAG_OID, body)?;
        let (bag_value, attributes) = read_whole_element(TAG_EXPLICIT_0, rest)?;
        if !check_oid(bag_id) {
            return Err(failed());
        }
        let bag_attributes: Option<Vec<u8>> = if attributes.len() == 0 {
            None
        } else if check_attributes(attributes) {
            Some(slice_to_vec(attributes))
        } else {
            return Err(failed());
        };
        Ok(
            SafeBag {
                bag_id: slice_to_vec(bag_id),
                bag_value: slice_to_vec(bag_value),
                bag_attributes,
            },
        )
    }

    /// Encodes the bag.
    ///
    /// Fails exactly where the encoding would be too long.
    pub fn to_der(&self) -> (r: Result<Vec<u8>, der::Error>)
        ensures
            match r {
                Ok(der) => der@ == self@.encoding() && der@.len() <= max_der_len(),
                Err(_) => self@.encoding().len() > max_der_len(),
            },
    {
        let mut body: Vec<u8> = write_element(TAG_OID, self.bag_id.as_slice())?;
        body.extend_from_slice(self.bag_value.as_slice());
        if let Some(attributes) = &self.bag_attributes {
            body.extend_from_slice(attributes.as_slice());
        }
        assert(body@ =~= self@.fields());
        write_element(TAG_SEQUENCE, body.as_slice())
    }
}

/// Decodes a SEQUENCE OF bags.
pub fn safe_contents_from_der(der: &[u8]) -> (r: Result<Vec<SafeBag>, der::Error>)
    ensures
        match r {
            Ok(bags) => safe_contents_of(der@) == Some(bag_views(bags@)),
            Err(_) => safe_contents_of(der@) is None,
        },
{
    let items: Vec<&[u8]> = read_sequence_of(der)?;
    let ghost views = slice_views(items@);
    let mut bags: Vec<SafeBag> = Vec::new();
    let mut i: usize = 0;
    while i < items.len()
        invariant
            views == slice_views(items@),
            sequence_of(der@) == Some(views),
            i <= items@.len(),
            bags@.len() == i,
            forall|j: int| 0 <= j < i ==> safe_bag_of(#[trigger] views[j]) == Some(bags@[j]@),
        decreases items@.len() - i,
    {
        assert(views[i as int] == items@[i as int]@);
        bags.push(SafeBag::from_der(items[i])?);
        i = i + 1;
    }
    assert(views.map_values(|item: Seq<u8>| safe_bag_of(item)->0) =~= bag_views(bags@));
    Ok(bags)
}

/// Encodes bags as a SEQUENCE OF.
///
/// Fails exactly where the encoding would be too long.
pub fn safe_contents_to_der(bags: &Vec<SafeBag>) -> (r: Result<Vec<u8>, der::Error>)
    ensures
        match r {
            Ok(der) => der@ == safe_contents_encoding(bag_views(bags@)) && der@.len()
                <= max_der_len(),
            Err(_) => safe_contents_encoding(bag_views(bags@)).len() > max_der_len(),
        },
{
    let ghost items = bag_encodings(bag_views(bags@));
    let mut body: Vec<u8> = Vec::new();
    let mut i: usize = 0;
    while i < bags.len()
        invariant
            items == bag_encodings(bag_views(bags@)),
            i <= bags@.len(),
            body@ == joined(items.take(i as int)),
        decreases bags@.len() - i,
    {
        proof {
            assert(items[i as int] == bags@[i as int]@.encoding());
            lemma_joined_item_len(items, i as int);
            lemma_joined_push(items.take(i as int), items[i as int]);
            assert(items.take(i + 1) =~= items.take(i as int).push(items[i as int]));
        }
        let mut item: Vec<u8> = bags[i].to_der()?;
        body.append(&mut item);
        i = i + 1;
    }
    assert(items.take(bags@.len() as int) =~= items);
    write_element(TAG_SEQUENCE, body.as_slice())
}

} // verus!
