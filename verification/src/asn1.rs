//! The DER building blocks that every structure of an archive is made of.
//!
//! The mathematical side is [`tlv`]: an identifier octet, the length octets and
//! the contents.  Reading is stated as the inverse of it, [`split_element`].

use der::Error as DerError;
use der::{Decode, Encode, Tagged};
use vstd::prelude::*;

verus! {

/// The error of the `der` crate, carried through as it is.
#[verifier::external_type_specification]
#[verifier::external_body]
pub struct ExDerError(DerError);

/// Identifier octet of INTEGER.
pub const TAG_INTEGER: u8 = 0x02;

/// Identifier octet of OCTET STRING.
pub const TAG_OCTET_STRING: u8 = 0x04;

/// Identifier octet of OBJECT IDENTIFIER.
pub const TAG_OID: u8 = 0x06;

/// Identifier octet of SEQUENCE and SEQUENCE OF.
pub const TAG_SEQUENCE: u8 = 0x30;

/// Identifier octet of SET and SET OF.
pub const TAG_SET: u8 = 0x31;

/// Identifier octet of the constructed context-specific tag `[0]`.
pub const TAG_EXPLICIT_0: u8 = 0xa0;

/// The identifier octets that this library reads and writes.
pub open spec fn known_tag(tag: u8) -> bool {
    ||| tag == TAG_INTEGER
    ||| tag == TAG_OCTET_STRING
    ||| tag == TAG_OID
    ||| tag == TAG_SEQUENCE
    ||| tag == TAG_EXPLICIT_0
}

/// The largest size of an encoding, in octets.
pub open spec fn max_der_len() -> nat {
    0xffff_ffff
}

/// DER's length octets: one octet below 128, else the shortest big-endian form
/// behind an octet that counts it.
pub open spec fn length_octets(n: nat) -> Seq<u8> {
    if n < 0x80 {
        seq![n as u8]
    } else if n < 0x100 {
        seq![0x81u8, n as u8]
    } else if n < 0x1_0000 {
        seq![0x82u8, (n / 0x100) as u8, (n % 0x100) as u8]
    } else if n < 0x100_0000 {
        seq![0x83u8, (n / 0x1_0000) as u8, (n / 0x100 % 0x100) as u8, (n % 0x100) as u8]
    } else {
        seq![
            0x84u8,
            (n / 0x100_0000) as u8,
            (n / 0x1_0000 % 0x100) as u8,
            (n / 0x100 % 0x100) as u8,
            (n % 0x100) as u8,
        ]
    }
}

/// The encoding of an element with a one-octet identifier.
pub open spec fn tlv(tag: u8, value: Seq<u8>) -> Seq<u8> {
    seq![tag] + length_octets(value.len()) + value
}

/// `input` is an element with this tag and these contents, followed by `rest`.
pub open spec fn starts_with_element(
    tag: u8,
    input: Seq<u8>,
    value: Seq<u8>,
    rest: Seq<u8>,
) -> bool {
    input == tlv(tag, value) + rest
}

/// Splits `input` into the contents of the element with the given tag that it
/// starts with, and what follows that element.
pub open spec fn split_element(tag: u8, input: Seq<u8>) -> Option<(Seq<u8>, Seq<u8>)> {
    if input.len() <= max_der_len() && exists|value: Seq<u8>, rest: Seq<u8>|
        starts_with_element(tag, input, value, rest) {
        Some(choose|value: Seq<u8>, rest: Seq<u8>| starts_with_element(tag, input, value, rest))
    } else {
        None
    }
}

/// The contents of `input`, where it is exactly one element with the given tag.
pub open spec fn sole_element(tag: u8, input: Seq<u8>) -> Option<Seq<u8>> {
    match split_element(tag, input) {
        Some((value, rest)) => if rest.len() == 0 {
            Some(value)
        } else {
            None
        },
        None => None,
    }
}

/// An element is at most six octets longer than its contents.
pub proof fn lemma_tlv_len(tag: u8, value: Seq<u8>)
    ensures
        value.len() + 2 <= tlv(tag, value).len() <= value.len() + 6,
{
}

/// Length octets tell where they end and which length they give.
pub proof fn lemma_length_octets_injective(a: nat, b: nat, x: Seq<u8>, y: Seq<u8>)
    requires
        a <= max_der_len(),
        b <= max_der_len(),
        length_octets(a) + x == length_octets(b) + y,
    ensures
        a == b,
        x == y,
{
    let la = length_octets(a);
    let lb = length_octets(b);
    let s = la + x;
    assert(s[0] == la[0] && s[0] == lb[0]);
    assert(la.len() == lb.len());
    assert forall|i: int| 0 <= i < la.len() implies la[i] == lb[i] by {
        assert(s[i] == la[i] && s[i] == lb[i]);
    }
    assert(a == b);
    assert(x =~= s.skip(la.len() as int));
    assert(y =~= s.skip(lb.len() as int));
}

/// An element's encoding followed by anything splits in one way only.
pub proof fn lemma_tlv_injective(tag: u8, v1: Seq<u8>, r1: Seq<u8>, v2: Seq<u8>, r2: Seq<u8>)
    requires
        v1.len() <= max_der_len(),
        v2.len() <= max_der_len(),
        tlv(tag, v1) + r1 == tlv(tag, v2) + r2,
    ensures
        v1 == v2,
        r1 == r2,
{
    let s = tlv(tag, v1) + r1;
    assert(s.skip(1) =~= length_octets(v1.len()) + (v1 + r1));
    assert(s.skip(1) =~= length_octets(v2.len()) + (v2 + r2));
    lemma_length_octets_injective(v1.len(), v2.len(), v1 + r1, v2 + r2);
    let t = v1 + r1;
    assert(v1 =~= t.take(v1.len() as int));
    assert(v2 =~= t.take(v2.len() as int));
    assert(r1 =~= t.skip(v1.len() as int));
    assert(r2 =~= t.skip(v2.len() as int));
}

/// Reading an element gives back what was written, and what follows it.
pub proof fn lemma_split_element_of_tlv(tag: u8, value: Seq<u8>, rest: Seq<u8>)
    requires
        (tlv(tag, value) + rest).len() <= max_der_len(),
    ensures
        split_element(tag, tlv(tag, value) + rest) == Some((value, rest)),
{
    let input = tlv(tag, value) + rest;
    assert(starts_with_element(tag, input, value, rest));
    let (v, r) = choose|v: Seq<u8>, r: Seq<u8>| starts_with_element(tag, input, v, r);
    lemma_tlv_injective(tag, v, r, value, rest);
}

/// Reading the encoding of one element gives back its contents.
pub proof fn lemma_sole_element_of_tlv(tag: u8, value: Seq<u8>)
    requires
        tlv(tag, value).len() <= max_der_len(),
    ensures
        sole_element(tag, tlv(tag, value)) == Some(value),
{
    assert(tlv(tag, value) + Seq::<u8>::empty() =~= tlv(tag, value));
    lemma_split_element_of_tlv(tag, value, Seq::empty());
}

/// What an element was split from is its encoding and what follows it.
pub proof fn lemma_split_element_inverse(tag: u8, input: Seq<u8>)
    ensures
        split_element(tag, input) matches Some((value, rest)) ==> input == tlv(tag, value) + rest
            && rest.len() < input.len() <= max_der_len() && tlv(tag, value).len() <= max_der_len(),
{
    if split_element(tag, input) is Some {
        let (value, rest) = split_element(tag, input)->0;
        assert(starts_with_element(tag, input, value, rest));
    }
}

/// The elements that fill `body`, each a SEQUENCE.
pub open spec fn sequence_items(body: Seq<u8>) -> Option<Seq<Seq<u8>>>
    decreases body.len() via sequence_items_decreases
{
    if body.len() == 0 {
        Some(Seq::empty())
    } else {
        match split_element(TAG_SEQUENCE, body) {
            Some((value, rest)) => match sequence_items(rest) {
                Some(items) => Some(seq![tlv(TAG_SEQUENCE, value)] + items),
                None => None,
            },
            None => None,
        }
    }
}

#[via_fn]
proof fn sequence_items_decreases(body: Seq<u8>) {
    lemma_split_element_inverse(TAG_SEQUENCE, body);
}

/// The elements that the SEQUENCE OF encoded by `der` holds, each a SEQUENCE.
pub open spec fn sequence_of(der: Seq<u8>) -> Option<Seq<Seq<u8>>> {
    match sole_element(TAG_SEQUENCE, der) {
        Some(body) => sequence_items(body),
        None => None,
    }
}

/// The octets of all `items`, one after the other.
pub open spec fn joined(items: Seq<Seq<u8>>) -> Seq<u8>
    decreases items.len(),
{
    if items.len() == 0 {
        Seq::empty()
    } else {
        items[0] + joined(items.skip(1))
    }
}

/// Whether `item` is the encoding of a SEQUENCE.
pub open spec fn is_sequence(item: Seq<u8>) -> bool {
    exists|value: Seq<u8>| item == #[trigger] tlv(TAG_SEQUENCE, value)
}

/// One more item joins at the end.
pub proof fn lemma_joined_push(items: Seq<Seq<u8>>, item: Seq<u8>)
    ensures
        joined(items.push(item)) == joined(items) + item,
    decreases items.len(),
{
    if items.len() == 0 {
        assert(items.push(item).skip(1) =~= items);
        assert(joined(items.push(item)) == item + joined(items));
        assert(item + joined(items) =~= joined(items) + item);
    } else {
        lemma_joined_push(items.skip(1), item);
        assert(items.push(item).skip(1) =~= items.skip(1).push(item));
        assert(joined(items.push(item)) =~= joined(items) + item);
    }
}

/// The encoding of each item is no longer than that of them all.
pub proof fn lemma_joined_item_len(items: Seq<Seq<u8>>, i: int)
    requires
        0 <= i < items.len(),
    ensures
        items[i].len() <= joined(items).len(),
    decreases items.len(),
{
    if i > 0 {
        lemma_joined_item_len(items.skip(1), i - 1);
    }
}

/// Splitting joined SEQUENCEs gives them back.
pub proof fn lemma_sequence_items_of_joined(items: Seq<Seq<u8>>)
    requires
        forall|i: int| 0 <= i < items.len() ==> is_sequence(#[trigger] items[i]),
        joined(items).len() <= max_der_len(),
    ensures
        sequence_items(joined(items)) == Some(items),
    decreases items.len(),
{
    if items.len() > 0 {
        assert(is_sequence(items[0]));
        let value = choose|value: Seq<u8>| items[0] == #[trigger] tlv(TAG_SEQUENCE, value);
        let rest = items.skip(1);
        assert forall|i: int| 0 <= i < rest.len() implies is_sequence(#[trigger] rest[i]) by {
            assert(rest[i] == items[i + 1]);
        }
        lemma_sequence_items_of_joined(rest);
        lemma_split_element_of_tlv(TAG_SEQUENCE, value, joined(rest));
        assert(seq![items[0]] + rest =~= items);
    }
}

/// Decoding an encoded SEQUENCE OF SEQUENCEs gives its items back.
pub proof fn lemma_sequence_of_joined(items: Seq<Seq<u8>>)
    requires
        forall|i: int| 0 <= i < items.len() ==> is_sequence(#[trigger] items[i]),
        tlv(TAG_SEQUENCE, joined(items)).len() <= max_der_len(),
    ensures
        sequence_of(tlv(TAG_SEQUENCE, joined(items))) == Some(items),
{
    lemma_sole_element_of_tlv(TAG_SEQUENCE, joined(items));
    lemma_sequence_items_of_joined(items);
}

/// Calls `der::asn1::AnyRef::from_der_partial` and `der::Tag::assert_eq`: reads
/// the element at the start of `input` and compares its tag.
///
/// Claimed: the call succeeds exactly where `input`, of at most 2^32-1 octets,
/// starts with an element of this tag in DER's length form, and then returns its
/// contents and what follows it.
#[verifier::external_body]
pub(crate) fn read_element<'a>(tag: u8, input: &'a [u8]) -> (r: Result<
    (&'a [u8], &'a [u8]),
    der::Error,
>)
    requires
        known_tag(tag),
    ensures
        match r {
            Ok((value, rest)) => split_element(tag, input@) == Some((value@, rest@)),
            Err(_) => split_element(tag, input@) is None,
        },
{
    let (element, rest) = der::asn1::AnyRef::from_der_partial(input)?;
    element.tag().assert_eq(der::Tag::from_der(&[tag])?)?;
    Ok((element.value(), rest))
}

/// Calls `der::asn1::AnyRef::new` and `der::Encode::to_der`: encodes one element.
///
/// Claimed: the result is the element's encoding, and the call fails exactly
/// where that encoding would be longer than 2^32-1 octets.
#[verifier::external_body]
pub(crate) fn write_element(tag: u8, value: &[u8]) -> (r: Result<Vec<u8>, der::Error>)
    requires
        known_tag(tag),
    ensures
        match r {
            Ok(der) => der@ == tlv(tag, value@) && der@.len() <= max_der_len(),
            Err(_) => tlv(tag, value@).len() > max_der_len(),
        },
{
    der::asn1::AnyRef::new(der::Tag::from_der(&[tag])?, value)?.to_der()
}

/// Makes the `der` error that stands for a failure of no more precise kind.
#[verifier::external_body]
pub(crate) fn failed() -> der::Error {
    der::Error::from(der::ErrorKind::Failed)
}

/// Reads `input` as exactly one element with the given tag.
pub(crate) fn read_sole_element<'a>(tag: u8, input: &'a [u8]) -> (r: Result<&'a [u8], der::Error>)
    requires
        known_tag(tag),
    ensures
        match r {
            Ok(value) => sole_element(tag, input@) == Some(value@),
            Err(_) => sole_element(tag, input@) is None,
        },
{
    match read_element(tag, input) {
        Ok((value, rest)) => if rest.len() == 0 {
            Ok(value)
        } else {
            Err(failed())
        },
        Err(e) => Err(e),
    }
}

/// Whether two octet strings are equal.
pub(crate) fn bytes_equal(a: &[u8], b: &[u8]) -> (r: bool)
    ensures
        r == (a@ == b@),
{
    if a.len() != b.len() {
        return false;
    }
    let mut i: usize = 0;
    while i < a.len()
        invariant
            i <= a@.len(),
            a@.len() == b@.len(),
            forall|j: int| 0 <= j < i ==> a@[j] == b@[j],
        decreases a@.len() - i,
    {
        if a[i] != b[i] {
            return false;
        }
        i = i + 1;
    }
    assert(a@ =~= b@);
    true
}

/// The contents of an INTEGER: the shortest two's complement form, big-endian.
pub open spec fn integer_octets(n: i32) -> Seq<u8> {
    let m = n as int;
    if -0x80 <= m < 0x80 {
        seq![(m % 0x100) as u8]
    } else if -0x8000 <= m < 0x8000 {
        seq![(m / 0x100 % 0x100) as u8, (m % 0x100) as u8]
    } else if -0x80_0000 <= m < 0x80_0000 {
        seq![(m / 0x1_0000 % 0x100) as u8, (m / 0x100 % 0x100) as u8, (m % 0x100) as u8]
    } else {
        seq![
            (m / 0x100_0000 % 0x100) as u8,
            (m / 0x1_0000 % 0x100) as u8,
            (m / 0x100 % 0x100) as u8,
            (m % 0x100) as u8,
        ]
    }
}

/// The encoding of an INTEGER.
pub open spec fn integer_element(n: i32) -> Seq<u8> {
    tlv(TAG_INTEGER, integer_octets(n))
}

/// The number that `der` encodes, where it is an INTEGER that fits in 32 bits.
pub open spec fn integer_of(der: Seq<u8>) -> Option<i32> {
    if exists|n: i32| der == #[trigger] integer_element(n) {
        Some(choose|n: i32| der == #[trigger] integer_element(n))
    } else {
        None
    }
}

/// Numbers with the same low octet agree where the rest of them does.
proof fn lemma_low_octet(a: int, b: int)
    requires
        a / 0x100 == b / 0x100,
        (a % 0x100) as u8 == (b % 0x100) as u8,
    ensures
        a == b,
{
}

/// Numbers of one octet agree where their octets do.
proof fn lemma_high_octet(a: int, b: int)
    requires
        -0x80 <= a < 0x80,
        -0x80 <= b < 0x80,
        (a % 0x100) as u8 == (b % 0x100) as u8,
    ensures
        a == b,
{
}

/// Different numbers have different INTEGER contents.
pub proof fn lemma_integer_octets_injective(n: i32, m: i32)
    requires
        integer_octets(n) == integer_octets(m),
    ensures
        n == m,
{
    let a = integer_octets(n);
    let b = integer_octets(m);
    let x = n as int;
    let y = m as int;
    assert(a[0] == b[0]);
    if a.len() == 1 {
        assert(a[0] == (x % 0x100) as u8 && b[0] == (y % 0x100) as u8);
        lemma_high_octet(x, y);
    } else if a.len() == 2 {
        assert(a[1] == b[1]);
        lemma_high_octet(x / 0x100, y / 0x100);
        lemma_low_octet(x, y);
    } else if a.len() == 3 {
        assert(a[1] == b[1] && a[2] == b[2]);
        lemma_high_octet(x / 0x1_0000, y / 0x1_0000);
        assert(x / 0x100 / 0x100 == x / 0x1_0000 && y / 0x100 / 0x100 == y / 0x1_0000);
        lemma_low_octet(x / 0x100, y / 0x100);
        lemma_low_octet(x, y);
    } else {
        assert(a[1] == b[1] && a[2] == b[2] && a[3] == b[3]);
        lemma_high_octet(x / 0x100_0000, y / 0x100_0000);
        assert(x / 0x1_0000 / 0x100 == x / 0x100_0000 && y / 0x1_0000 / 0x100 == y / 0x100_0000);
        lemma_low_octet(x / 0x1_0000, y / 0x1_0000);
        assert(x / 0x100 / 0x100 == x / 0x1_0000 && y / 0x100 / 0x100 == y / 0x1_0000);
        lemma_low_octet(x / 0x100, y / 0x100);
        lemma_low_octet(x, y);
    }
}

/// Reading an INTEGER gives back what was written.
pub proof fn lemma_integer_of_element(n: i32)
    ensures
        integer_of(integer_element(n)) == Some(n),
{
    let der = integer_element(n);
    let m = choose|m: i32| der == #[trigger] integer_element(m);
    assert(der == integer_element(m));
    let empty = Seq::<u8>::empty();
    assert(tlv(TAG_INTEGER, integer_octets(n)) + empty =~= tlv(TAG_INTEGER, integer_octets(m))
        + empty);
    lemma_tlv_injective(TAG_INTEGER, integer_octets(n), empty, integer_octets(m), empty);
    lemma_integer_octets_injective(n, m);
}

/// Calls `i32::from_der` of the `der` crate.  Claimed: it accepts exactly the
/// encodings of the INTEGERs that fit in 32 bits, and returns the number.
#[verifier::external_body]
pub(crate) fn integer_from_der(der: &[u8]) -> (r: Result<i32, der::Error>)
    ensures
        match r {
            Ok(n) => integer_of(der@) == Some(n),
            Err(_) => integer_of(der@) is None,
        },
{
    i32::from_der(der)
}

/// Calls `i32::to_der` of the `der` crate.  Claimed: it never fails and returns the
/// encoding as an INTEGER.
#[verifier::external_body]
pub(crate) fn integer_to_der(n: i32) -> (r: Result<Vec<u8>, der::Error>)
    ensures
        r is Ok,
        r->Ok_0@ == integer_element(n),
{
    n.to_der()
}

/// Whether `b` is the identifier octet of one of the universal types that the
/// `der` crate knows.
pub open spec fn universal_identifier(b: u8) -> bool {
    ||| 0x01 <= b <= 0x06
    ||| b == 0x09
    ||| b == 0x0a
    ||| b == 0x0c
    ||| b == 0x0d
    ||| 0x12 <= b <= 0x18
    ||| b == 0x1a
    ||| b == 0x1b
    ||| b == 0x1e
    ||| b == TAG_SEQUENCE
    ||| b == TAG_SET
}

/// The number that base-128 digits write.
pub open spec fn base128_value(digits: Seq<u8>) -> nat
    decreases digits.len(),
{
    if digits.len() == 0 {
        0
    } else {
        128 * base128_value(digits.drop_last()) + (digits.last() % 128) as nat
    }
}

/// Whether `id` are the identifier octets of some tag: one octet, or, for the tag
/// numbers from 31 to 2^32-1 outside the universal class, one octet and the number
/// in base 128 with no leading zero.
pub open spec fn is_identifier(id: Seq<u8>) -> bool {
    if id.len() == 1 {
        universal_identifier(id[0]) || (id[0] >= 0x40 && id[0] % 32 != 31)
    } else {
        &&& 2 <= id.len() <= 6
        &&& id[0] >= 0x40 && id[0] % 32 == 31
        &&& id[1] != 0x80
        &&& forall|i: int| 1 <= i < id.len() - 1 ==> #[trigger] id[i] >= 0x80
        &&& id.last() < 0x80
        &&& 31 <= base128_value(id.skip(1)) <= 0xffff_ffff
    }
}

/// `der` is the element with the identifier octets `id` and these contents.
pub open spec fn is_element_with(der: Seq<u8>, id: Seq<u8>, value: Seq<u8>) -> bool {
    is_identifier(id) && der == id + length_octets(value.len()) + value
}

/// `der` is exactly one element, whatever its tag.
pub open spec fn is_element(der: Seq<u8>) -> bool {
    der.len() <= max_der_len() && exists|id: Seq<u8>, value: Seq<u8>|
        is_element_with(der, id, value)
}

/// What [`tlv`] encodes is one element.
pub proof fn lemma_tlv_is_element(tag: u8, value: Seq<u8>)
    requires
        known_tag(tag),
        tlv(tag, value).len() <= max_der_len(),
    ensures
        is_element(tlv(tag, value)),
{
    assert(is_element_with(tlv(tag, value), seq![tag], value));
}

/// Reads the element at the start of `input` and returns it whole, with what follows
/// it.
pub(crate) fn read_whole_element<'a>(tag: u8, input: &'a [u8]) -> (r: Result<
    (&'a [u8], &'a [u8]),
    der::Error,
>)
    requires
        known_tag(tag),
    ensures
        match r {
            Ok((whole, rest)) => split_element(tag, input@) matches Some((value, tail)) && tail
                == rest@ && whole@ == tlv(tag, value),
            Err(_) => split_element(tag, input@) is None,
        },
{
    match read_element(tag, input) {
        Ok((value, rest)) => {
            proof {
                lemma_split_element_inverse(tag, input@);
            }
            let whole: &[u8] = vstd::slice::slice_subrange(input, 0, input.len() - rest.len());
            assert(whole@ =~= tlv(tag, value@));
            Ok((whole, rest))
        },
        Err(e) => Err(e),
    }
}

/// The views of some slices.
pub open spec fn slice_views(items: Seq<&[u8]>) -> Seq<Seq<u8>> {
    items.map_values(|item: &[u8]| item@)
}

/// Reads `der` as a SEQUENCE OF SEQUENCEs.
pub(crate) fn read_sequence_of<'a>(der: &'a [u8]) -> (r: Result<Vec<&'a [u8]>, der::Error>)
    ensures
        match r {
            Ok(items) => sequence_of(der@) == Some(slice_views(items@)),
            Err(_) => sequence_of(der@) is None,
        },
{
    let mut rest: &[u8] = match read_sole_element(TAG_SEQUENCE, der) {
        Ok(body) => body,
        Err(e) => {
            return Err(e);
        },
    };
    let ghost body = rest@;
    let mut items: Vec<&[u8]> = Vec::new();
    proof {
        let views = slice_views(items@);
        assert(views =~= Seq::empty());
        if sequence_items(body) is Some {
            assert(views + sequence_items(body)->0 =~= sequence_items(body)->0);
        }
    }
    while rest.len() > 0
        invariant
            sole_element(TAG_SEQUENCE, der@) == Some(body),
            sequence_items(body) == match sequence_items(rest@) {
                Some(tail) => Some(slice_views(items@) + tail),
                None => None,
            },
        decreases rest@.len(),
    {
        let ghost before = slice_views(items@);
        let ghost here = rest@;
        proof {
            lemma_split_element_inverse(TAG_SEQUENCE, here);
        }
        let (item, tail) = match read_whole_element(TAG_SEQUENCE, rest) {
            Ok(found) => found,
            Err(e) => {
                return Err(e);
            },
        };
        items.push(item);
        rest = tail;
        proof {
            assert(slice_views(items@) =~= before.push(item@));
            if sequence_items(tail@) is Some {
                let last = sequence_items(tail@)->0;
                assert(before.push(item@) + last =~= before + (seq![item@] + last));
            }
        }
    }
    assert(slice_views(items@) + Seq::<Seq<u8>>::empty() =~= slice_views(items@));
    Ok(items)
}

} // verus!
