//! `PFX` and `AuthenticatedSafe`: the outermost structures of an archive.

use crate::asn1::{
    bytes_equal, failed, is_sequence, joined, lemma_joined_item_len, lemma_joined_push,
    lemma_sequence_of_joined, lemma_sole_element_of_tlv, lemma_split_element_inverse,
    lemma_split_element_of_tlv, max_der_len, read_element, read_sequence_of, read_sole_element,
    read_whole_element, sequence_of, slice_views, sole_element, split_element, tlv, write_element,
    TAG_EXPLICIT_0, TAG_INTEGER, TAG_OID, TAG_SEQUENCE,
};
use crate::cms::{
    content_info_fields, content_info_from_der, content_info_of, content_info_to_der,
    lemma_content_info_round_trip, ContentInfo, ContentInfoView,
};
use crate::mac_data::{lemma_mac_data_round_trip, mac_data_of, MacData, MacDataView};
use vstd::prelude::*;

verus! {

/// The syntax version of an archive.
#[derive(Clone, Copy, Debug, PartialEq, Eq, Structural)]
pub enum Version {
    /// Version three, the only one.
    V3,
}

/// An archive.
#[derive(Debug)]
pub struct Pfx {
    /// Syntax version.
    pub version: Version,
    /// The wrapped `AuthenticatedSafe`.
    pub auth_safe: ContentInfo,
    /// The MAC of the `AuthenticatedSafe`, where the archive has one.
    pub mac_data: Option<MacData>,
}

/// The mathematical content of a [`Pfx`].
#[verifier::ext_equal]
pub struct PfxView {
    pub auth_safe: ContentInfoView,
    pub mac_data: Option<MacDataView>,
}

impl View for Pfx {
    type V = PfxView;

    open spec fn view(&self) -> PfxView {
        PfxView {
            auth_safe: self.auth_safe@,
            mac_data: match self.mac_data {
                Some(data) => Some(data@),
                None => None,
            },
        }
    }
}

impl PfxView {
    /// Whether this can be encoded.
    pub open spec fn wf(self) -> bool {
        self.auth_safe.wf() && (self.mac_data matches Some(data) ==> data.mac.algorithm.wf())
    }

    /// The contents of the SEQUENCE.
    pub open spec fn fields(self) -> Seq<u8> {
        tlv(TAG_INTEGER, seq![3u8]) + (self.auth_safe.encoding() + match self.mac_data {
            Some(data) => data.encoding(),
            None => Seq::empty(),
        })
    }

    /// The DER encoding.
    pub open spec fn encoding(self) -> Seq<u8> {
        tlv(TAG_SEQUENCE, self.fields())
    }
}

/// The MAC field: absent, or MAC data and nothing behind it.
pub open spec fn optional_mac_of(der: Seq<u8>) -> Option<Option<MacDataView>> {
    if der.len() == 0 {
        Some(None)
    } else {
        match mac_data_of(der) {
            Some(data) => Some(Some(data)),
            None => None,
        }
    }
}

/// The archive that `der` encodes.
pub open spec fn pfx_of(der: Seq<u8>) -> Option<PfxView> {
    match sole_element(TAG_SEQUENCE, der) {
        Some(body) => match split_element(TAG_INTEGER, body) {
            Some((version, rest)) => match split_element(TAG_SEQUENCE, rest) {
                Some((info_body, rest)) => match (
                    content_info_fields(info_body),
                    optional_mac_of(rest),
                ) {
                    (Some(auth_safe), Some(mac_data)) => if version == seq![3u8] {
                        Some(PfxView { auth_safe, mac_data })
                    } else {
                        None
                    },
                    _ => None,
                },
                None => None,
            },
            None => None,
        },
        None => None,
    }
}

/// The bag groups that the `AuthenticatedSafe` encoded by `der` holds.
pub open spec fn authenticated_safe_of(der: Seq<u8>) -> Option<Seq<ContentInfoView>> {
    match sequence_of(der) {
        Some(items) => if forall|i: int|
            0 <= i < items.len() ==> content_info_of(#[trigger] items[i]) is Some {
            Some(items.map_values(|item: Seq<u8>| content_info_of(item)->0))
        } else {
            None
        },
        None => None,
    }
}

/// The contents of some bag groups.
pub open spec fn info_views(infos: Seq<ContentInfo>) -> Seq<ContentInfoView> {
    infos.map_values(|info: ContentInfo| info@)
}

/// The encodings of some bag groups.
pub open spec fn info_encodings(infos: Seq<ContentInfoView>) -> Seq<Seq<u8>> {
    infos.map_values(|info: ContentInfoView| info.encoding())
}

/// The DER encoding of an `AuthenticatedSafe`.
pub open spec fn authenticated_safe_encoding(infos: Seq<ContentInfoView>) -> Seq<u8> {
    tlv(TAG_SEQUENCE, joined(info_encodings(infos)))
}

/// Decoding an encoded archive gives it back.
pub proof fn lemma_pfx_round_trip(pfx: PfxView)
    requires
        pfx.wf(),
        pfx.encoding().len() <= max_der_len(),
    ensures
        pfx_of(pfx.encoding()) == Some(pfx),
{
    let info = pfx.auth_safe;
    let mac = match pfx.mac_data {
        Some(data) => data.encoding(),
        None => Seq::empty(),
    };
    let info_body = tlv(TAG_OID, info.content_type) + tlv(TAG_EXPLICIT_0, info.content);
    lemma_sole_element_of_tlv(TAG_SEQUENCE, pfx.fields());
    lemma_split_element_of_tlv(TAG_INTEGER, seq![3u8], info.encoding() + mac);
    lemma_split_element_of_tlv(TAG_SEQUENCE, info_body, mac);
    lemma_sole_element_of_tlv(TAG_SEQUENCE, info_body);
    lemma_content_info_round_trip(info);
    if pfx.mac_data is Some {
        lemma_mac_data_round_trip(pfx.mac_data->0);
    }
}

/// Decoding an encoded `AuthenticatedSafe` gives its bag groups back.
pub proof fn lemma_authenticated_safe_round_trip(infos: Seq<ContentInfoView>)
    requires
        forall|i: int| 0 <= i < infos.len() ==> (#[trigger] infos[i]).wf(),
        authenticated_safe_encoding(infos).len() <= max_der_len(),
    ensures
        authenticated_safe_of(authenticated_safe_encoding(infos)) == Some(infos),
{
    let items = info_encodings(infos);
    assert forall|i: int| 0 <= i < items.len() implies is_sequence(#[trigger] items[i]) by {
        let info = infos[i];
        assert(items[i] == tlv(
            TAG_SEQUENCE,
            tlv(TAG_OID, info.content_type) + tlv(TAG_EXPLICIT_0, info.content),
        ));
    }
    lemma_sequence_of_joined(items);
    assert forall|i: int| 0 <= i < items.len() implies content_info_of(#[trigger] items[i])
        == Some(infos[i]) by {
        lemma_joined_item_len(items, i);
        assert(infos[i].wf());
        lemma_content_info_round_trip(infos[i]);
    }
    assert(items.map_values(|item: Seq<u8>| content_info_of(item)->0) =~= infos);
}

impl Pfx {
    /// Decodes an archive.
    pub fn from_der(der: &[u8]) -> (r: Result<Self, der::Error>)
        ensures
            match r {
                Ok(pfx) => pfx_of(der@) == Some(pfx@) && pfx@.wf(),
                Err(_) => pfx_of(der@) is None,
            },
    {
        let body = read_sole_element(TAG_SEQUENCE, der)?;
        let (version, rest) = read_element(TAG_INTEGER, body)?;
        let (info_der, mac_der) = read_whole_element(TAG_SEQUENCE, rest)?;
        proof {
            lemma_split_element_inverse(TAG_SEQUENCE, rest@);
            let (info_body, _) = split_element(TAG_SEQUENCE, rest@)->0;
            lemma_sole_element_of_tlv(TAG_SEQUENCE, info_body);
        }
        let three: [u8; 1] = [3];
        assert(three@ =~= seq![3u8]);
        if !bytes_equal(version, three.as_slice()) {
            return Err(failed());
        }
        let auth_safe = content_info_from_der(info_der)?;
        let mac_data: Option<MacData> = if mac_der.len() == 0 {
            None
        } else {
            Some(MacData::from_der(mac_der)?)
        };
        Ok(Pfx { version: Version::V3, auth_safe, mac_data })
    }

    /// Encodes the archive.
    ///
    /// Fails exactly where the encoding would be too long.
    pub fn to_der(&self) -> (r: Result<Vec<u8>, der::Error>)
        requires
            self@.wf(),
        ensures
            match r {
                Ok(der) => der@ == self@.encoding() && der@.len() <= max_der_len(),
                Err(_) => self@.encoding().len() > max_der_len(),
            },
    {
        let three: [u8; 1] = [3];
        assert(three@ =~= seq![3u8]);
        let mut body: Vec<u8> = write_element(TAG_INTEGER, three.as_slice())?;
        let mut info: Vec<u8> = content_info_to_der(&self.auth_safe)?;
        body.append(&mut info);
        if let Some(data) = &self.mac_data {
            let mut mac: Vec<u8> = data.to_der()?;
            body.append(&mut mac);
        }
        assert(body@ =~= self@.fields());
        write_element(TAG_SEQUENCE, body.as_slice())
    }
}

/// Decodes an `AuthenticatedSafe`.
pub fn authenticated_safe_from_der(der: &[u8]) -> (r: Result<Vec<ContentInfo>, der::Error>)
    ensures
        match r {
            Ok(infos) => authenticated_safe_of(der@) == Some(info_views(infos@)),
            Err(_) => authenticated_safe_of(der@) is None,
        },
{
    let items: Vec<&[u8]> = read_sequence_of(der)?;
    let ghost views = slice_views(items@);
    let mut infos: Vec<ContentInfo> = Vec::new();
    let mut i: usize = 0;
    while i < items.len()
        invariant
            views == slice_views(items@),
            sequence_of(der@) == Some(views),
            i <= items@.len(),
            infos@.len() == i,
            forall|j: int| 0 <= j < i ==> content_info_of(#[trigger] views[j]) == Some(infos@[j]@),
        decreases items@.len() - i,
    {
        assert(views[i as int] == items@[i as int]@);
        infos.push(content_info_from_der(items[i])?);
        i = i + 1;
    }
    assert(views.map_values(|item: Seq<u8>| content_info_of(item)->0) =~= info_views(infos@));
    Ok(infos)
}

/// Encodes an `AuthenticatedSafe`.
///
/// Fails exactly where the encoding would be too long.
pub fn authenticated_safe_to_der(infos: &Vec<ContentInfo>) -> (r: Result<Vec<u8>, der::Error>)
    requires
        forall|i: int| 0 <= i < infos@.len() ==> (#[trigger] infos@[i])@.wf(),
    ensures
        match r {
            Ok(der) => der@ == authenticated_safe_encoding(info_views(infos@)) && der@.len()
                <= max_der_len(),
            Err(_) => authenticated_safe_encoding(info_views(infos@)).len() > max_der_len(),
        },
{
    let ghost items = info_encodings(info_views(infos@));
    let mut body: Vec<u8> = Vec::new();
    let mut i: usize = 0;
    while i < infos.len()
        invariant
            forall|j: int| 0 <= j < infos@.len() ==> (#[trigger] infos@[j])@.wf(),
            items == info_encodings(info_views(infos@)),
            i <= infos@.len(),
            body@ == joined(items.take(i as int)),
        decreases infos@.len() - i,
    {
        proof {
            assert(items[i as int] == infos@[i as int]@.encoding());
            lemma_joined_item_len(items, i as int);
            lemma_joined_push(items.take(i as int), items[i as int]);
            assert(items.take(i + 1) =~= items.take(i as int).push(items[i as int]));
        }
        let mut item: Vec<u8> = content_info_to_der(&infos[i])?;
        body.append(&mut item);
        i = i + 1;
    }
    assert(items.take(infos@.len() as int) =~= items);
    write_element(TAG_SEQUENCE, body.as_slice())
}

} // verus!
