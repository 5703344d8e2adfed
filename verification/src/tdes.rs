//! Three-key Triple-DES in CBC mode.

use des::cipher::block_padding::Pkcs7;
use des::cipher::{BlockModeDecrypt, KeyIvInit};
use vstd::prelude::*;

verus! {

/// The plaintext of `ciphertext` under a key and an initialization vector, where it
/// is whole blocks that end in well-formed PKCS#7 padding.
pub uninterp spec fn tdes_cbc_plaintext(
    key: Seq<u8>,
    iv: Seq<u8>,
    ciphertext: Seq<u8>,
) -> Option<Seq<u8>>;

/// Calls `decrypt_padded_vec` of `cbc::Decryptor::<des::TdesEde3>` with PKCS#7 padding.
/// Claimed: with a key of 24 octets and a vector of eight, the outcome depends on the
/// arguments alone; only whole blocks decrypt, and lose between one octet and a block of
/// padding.
#[verifier::external_body]
pub(crate) fn tdes_cbc_decrypt(key: &[u8], iv: &[u8], ciphertext: &[u8]) -> (r: Option<Vec<u8>>)
    requires
        key@.len() == 24,
        iv@.len() == 8,
    ensures
        match r {
            Some(plaintext) => {
                &&& tdes_cbc_plaintext(key@, iv@, ciphertext@) == Some(plaintext@)
                &&& ciphertext@.len() % 8 == 0
                &&& plaintext@.len() + 1 <= ciphertext@.len() <= plaintext@.len() + 8
            },
            None => tdes_cbc_plaintext(key@, iv@, ciphertext@) is None,
        },
{
    let cipher = cbc::Decryptor::<des::TdesEde3>::new_from_slices(key, iv).ok()?;
    cipher.decrypt_padded_vec::<Pkcs7>(ciphertext).ok()
}

} // verus!
