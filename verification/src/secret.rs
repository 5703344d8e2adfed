//! Buffers whose contents are erased when they are dropped.

use vstd::prelude::*;
use zeroize::Zeroizing;

verus! {

/// An octet buffer that erases its contents when it is dropped.
#[verifier::external_body]
#[derive(Debug)]
pub struct SecretBytes {
    bytes: Zeroizing<Vec<u8>>,
}

/// A character string that erases its contents when it is dropped.
#[verifier::external_body]
#[derive(Debug)]
pub struct SecretString {
    text: Zeroizing<String>,
}

/// The octets that an erasing buffer holds.
pub uninterp spec fn held_bytes(secret: SecretBytes) -> Seq<u8>;

/// The characters that an erasing string holds.
pub uninterp spec fn held_chars(secret: SecretString) -> Seq<char>;

impl View for SecretBytes {
    type V = Seq<u8>;

    open spec fn view(&self) -> Seq<u8> {
        held_bytes(*self)
    }
}

impl View for SecretString {
    type V = Seq<char>;

    open spec fn view(&self) -> Seq<char> {
        held_chars(*self)
    }
}

/// Calls `zeroize::Zeroizing::new` on a vector: the buffer holds the octets it
/// was given.
#[verifier::external_body]
fn zeroizing_bytes(bytes: Vec<u8>) -> (r: SecretBytes)
    ensures
        held_bytes(r) == bytes@,
{
    SecretBytes { bytes: Zeroizing::new(bytes) }
}

/// Calls `Deref::deref` of `zeroize::Zeroizing`: lends the octets that the buffer
/// holds.
#[verifier::external_body]
fn deref_bytes(secret: &SecretBytes) -> (r: &[u8])
    ensures
        r@ == held_bytes(*secret),
{
    &secret.bytes
}

/// Calls `zeroize::Zeroizing::new` on a string: the buffer holds the characters it
/// was given.
#[verifier::external_body]
fn zeroizing_string(text: String) -> (r: SecretString)
    ensures
        held_chars(r) == text@,
{
    SecretString { text: Zeroizing::new(text) }
}

/// Calls `Deref::deref` of `zeroize::Zeroizing`: lends the characters that the
/// string holds.
#[verifier::external_body]
fn deref_string(secret: &SecretString) -> (r: &str)
    ensures
        r@ == held_chars(*secret),
{
    &secret.text
}

impl SecretBytes {
    /// Takes over `bytes`.
    pub fn new(bytes: Vec<u8>) -> (r: Self)
        ensures
            r@ == bytes@,
    {
        zeroizing_bytes(bytes)
    }

    /// Lends the octets.
    pub fn as_slice(&self) -> (r: &[u8])
        ensures
            r@ == self@,
    {
        deref_bytes(self)
    }
}

impl SecretString {
    /// Takes over `text`.
    pub fn new(text: String) -> (r: Self)
        ensures
            r@ == text@,
    {
        zeroizing_string(text)
    }

    /// Lends the characters.
    pub fn as_str(&self) -> (r: &str)
        ensures
            r@ == self@,
    {
        deref_string(self)
    }
}

} // verus!
