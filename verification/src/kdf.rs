//! The key derivation of PKCS#12.
//!
//! Salt and password, each repeated to whole blocks, are digested behind a block that
//! tells what the key is for, and the digest is digested again as often as the iteration
//! count says.  Where more octets are needed than a digest has, each block of the input
//! is advanced by the digest, and all is done once more.

use crate::asn1::failed;
use crate::hash::{digest_len, digest_of, hash, HashAlgorithm};
use vstd::prelude::*;

verus! {

/// Size in octets of the blocks that the digests compress.
pub const BLOCK_LEN: usize = 64;

/// What a derived key is for.
#[derive(Clone, Copy, Debug, PartialEq, Eq, Structural)]
pub enum Pkcs12KeyType {
    /// A content encryption key.
    EncryptionKey,
    /// An initialization vector.
    Iv,
    /// A MAC key.
    Mac,
}

/// The octet that keeps the purposes apart.
pub open spec fn diversifier(id: Pkcs12KeyType) -> u8 {
    match id {
        Pkcs12KeyType::EncryptionKey => 1,
        Pkcs12KeyType::Iv => 2,
        Pkcs12KeyType::Mac => 3,
    }
}

/// Whether a password has the encoding that keys are derived from: every character
/// lies in the Basic Multilingual Plane, U+0000 to U+FFFF.
pub open spec fn bmp_encodable(password: Seq<char>) -> bool {
    forall|i: int| 0 <= i < password.len() ==> (#[trigger] password[i] as u32) <= 0xffff
}

/// The characters as big-endian 16-bit numbers.
pub open spec fn bmp_octets(text: Seq<char>) -> Seq<u8> {
    Seq::new(
        2 * text.len(),
        |i: int|
            if i % 2 == 0 {
                (text[i / 2] as u32 / 0x100) as u8
            } else {
                (text[i / 2] as u32 % 0x100) as u8
            },
    )
}

/// The form in which a password enters the derivation: 16-bit characters, ended by
/// a zero one.
pub open spec fn encoded_password(password: Seq<char>) -> Seq<u8> {
    bmp_octets(password) + seq![0u8, 0u8]
}

/// 256 to the power of `n`.
pub open spec fn base256(n: nat) -> nat
    decreases n,
{
    if n == 0 {
        1
    } else {
        256 * base256((n - 1) as nat)
    }
}

/// The number that `octets` write, most significant octet first.
pub open spec fn be_value(octets: Seq<u8>) -> nat
    decreases octets.len(),
{
    if octets.len() == 0 {
        0
    } else {
        octets[0] as nat * base256((octets.len() - 1) as nat) + be_value(octets.skip(1))
    }
}

/// The `len` low octets of `n`, most significant octet first.
pub open spec fn be_octets(n: nat, len: nat) -> Seq<u8>
    decreases len,
{
    if len == 0 {
        Seq::empty()
    } else {
        let high = n / base256((len - 1) as nat) % 256;
        seq![high as u8] + be_octets(n, (len - 1) as nat)
    }
}

/// The first `n` octets of endless copies of `octets`.
pub open spec fn repeated(octets: Seq<u8>, n: nat) -> Seq<u8> {
    Seq::new(n, |i: int| octets[i % (octets.len() as int)])
}

/// Copies of `octets`, the last one cut, up to the next multiple of the block size.
pub open spec fn filled(octets: Seq<u8>) -> Seq<u8> {
    repeated(octets, (octets.len() + 63) / 64 * 64)
}

/// One block plus the block `b` plus one, modulo the size of a block.
pub open spec fn advanced_block(block: Seq<u8>, b: Seq<u8>) -> Seq<u8> {
    be_octets(be_value(block) + be_value(b) + 1, 64)
}

/// Every block of `input` advanced by the block `b`.
pub open spec fn advanced(input: Seq<u8>, b: Seq<u8>) -> Seq<u8>
    decreases input.len(),
{
    if input.len() < 64 {
        Seq::empty()
    } else {
        advanced(input.take(input.len() - 64), b) + advanced_block(
            input.skip(input.len() - 64),
            b,
        )
    }
}

/// The digest of `data`, digested again until `rounds` digests have been made, and
/// at least once.
pub open spec fn iterated_digest(alg: HashAlgorithm, data: Seq<u8>, rounds: int) -> Seq<u8>
    decreases rounds,
{
    if rounds <= 1 {
        digest_of(alg, data)
    } else {
        digest_of(alg, iterated_digest(alg, data, rounds - 1))
    }
}

/// `len` octets of key material from the diversifier block and the input blocks.
pub open spec fn key_material(
    alg: HashAlgorithm,
    diversifier_block: Seq<u8>,
    input: Seq<u8>,
    rounds: int,
    len: nat,
) -> Seq<u8>
    decreases len,
{
    let a = iterated_digest(alg, diversifier_block + input, rounds);
    if len <= digest_len(alg) {
        a.take(len as int)
    } else {
        a + key_material(
            alg,
            diversifier_block,
            advanced(input, repeated(a, 64)),
            rounds,
            (len - digest_len(alg)) as nat,
        )
    }
}

/// The key that is derived from an encoded password.
pub open spec fn derived_key(
    alg: HashAlgorithm,
    password: Seq<u8>,
    salt: Seq<u8>,
    id: Pkcs12KeyType,
    rounds: int,
    len: nat,
) -> Seq<u8> {
    key_material(
        alg,
        Seq::new(64, |i: int| diversifier(id)),
        filled(salt) + filled(password),
        rounds,
        len,
    )
}

/// Octets above the `len` low ones do not show in them.
pub proof fn lemma_be_octets_modulo(n: nat, t: nat, len: nat)
    ensures
        be_octets(n + t * base256(len), len) == be_octets(n, len),
    decreases len,
{
    if len > 0 {
        let p = base256((len - 1) as nat);
        assert(p > 0) by {
            lemma_base256_positive((len - 1) as nat);
        }
        assert(t * base256(len) == (t * 256) * p) by (nonlinear_arith)
            requires
                base256(len) == 256 * p,
        ;
        lemma_be_octets_modulo(n, t * 256, (len - 1) as nat);
        let m = n + (t * 256) * p;
        assert(m / p == n / p + t * 256) by (nonlinear_arith)
            requires
                p > 0,
                m == n + (t * 256) * p,
        ;
    }
}

pub proof fn lemma_base256_positive(n: nat)
    ensures
        base256(n) > 0,
    decreases n,
{
    if n > 0 {
        lemma_base256_positive((n - 1) as nat);
    }
}

/// Adding one more pair of octets in front of a sum whose low octets are known.
proof fn lemma_sum_step(x: u8, y: u8, low: nat, len: nat)
    ensures
        ({
            let p = base256(len);
            let sum = (x as nat * p + y as nat * p + low) as nat;
            let column = x as nat + y as nat + low / p;
            &&& sum / base256(len + 1) == column / 256
            &&& be_octets(sum, len + 1) == seq![(column % 256) as u8] + be_octets(low, len)
        }),
{
    let p = base256(len);
    lemma_base256_positive(len);
    let t = (x as nat + y as nat) as nat;
    let sum = (x as nat * p + y as nat * p + low) as nat;
    assert(sum == low + t * p) by (nonlinear_arith)
        requires
            sum == x as nat * p + y as nat * p + low,
            t == x as nat + y as nat,
    ;
    assert(sum / p == t + low / p) by (nonlinear_arith)
        requires
            p > 0,
            sum == low + t * p,
    ;
    assert(sum / (256 * p) == (sum / p) / 256) by {
        vstd::arithmetic::div_mod::lemma_div_denominator(sum as int, p as int, 256);
        assert(p * 256 == 256 * p) by (nonlinear_arith);
    }
    lemma_be_octets_modulo(low, t, len);
}

/// Advances the block of `input` that starts at `start` by the block `b`.
fn advance_block(input: &mut Vec<u8>, start: usize, b: &Vec<u8>)
    requires
        start + 64 <= old(input)@.len(),
        b@.len() == 64,
    ensures
        final(input)@ == old(input)@.take(start as int) + advanced_block(
            old(input)@.subrange(start as int, start + 64),
            b@,
        ) + old(input)@.skip(start + 64),
{
    let ghost before = input@;
    let ghost block = before.subrange(start as int, start + 64);
    let len: usize = input.len();
    let mut k: usize = 64;
    let mut carry: u16 = 1;
    proof {
        assert(block.skip(64) =~= Seq::<u8>::empty());
        assert(b@.skip(64) =~= Seq::<u8>::empty());
        assert(input@.subrange(start + 64, start + 64) =~= Seq::<u8>::empty());
        assert(be_value(block.skip(64)) == 0 && be_value(b@.skip(64)) == 0);
        let p = base256(0);
        assert(1nat / p == 1) by (nonlinear_arith)
            requires
                p == 1,
        ;
    }
    while k > 0
        invariant
            k <= 64,
            start + 64 <= len,
            before.len() == len,
            b@.len() == 64,
            block == before.subrange(start as int, start + 64),
            input@.len() == before.len(),
            carry == (be_value(block.skip(k as int)) + be_value(b@.skip(k as int)) + 1) / base256(
                (64 - k) as nat,
            ),
            carry <= 1,
            forall|i: int| 0 <= i < start + k ==> input@[i] == before[i],
            forall|i: int| start + 64 <= i < before.len() ==> input@[i] == before[i],
            input@.subrange(start + k, start + 64) == be_octets(
                be_value(block.skip(k as int)) + be_value(b@.skip(k as int)) + 1,
                (64 - k) as nat,
            ),
        decreases k,
    {
        let ghost above = input@;
        let ghost low = be_value(block.skip(k as int)) + be_value(b@.skip(k as int)) + 1;
        k = k - 1;
        proof {
            let len = (63 - k) as nat;
            lemma_sum_step(block[k as int], b@[k as int], low, len);
            assert(block.skip(k as int).skip(1) =~= block.skip(k + 1));
            assert(b@.skip(k as int).skip(1) =~= b@.skip(k + 1));
            assert(block[k as int] == above[start + k]);
        }
        let column: u16 = input[start + k] as u16 + b[k] as u16 + carry;
        input.set(start + k, (column % 256) as u8);
        carry = column / 256;
        proof {
            assert(input@.subrange(start + k, start + 64) =~= seq![(column % 256) as u8]
                + above.subrange(start + k + 1, start + 64));
        }
    }
    proof {
        assert(block.skip(0) =~= block);
        assert(b@.skip(0) =~= b@);
        let sum = advanced_block(block, b@);
        assert(input@.subrange(start as int, start + 64) == sum);
        assert(input@ =~= before.take(start as int) + input@.subrange(start as int, start + 64)
            + before.skip(start + 64));
    }
}

proof fn lemma_be_octets_len(n: nat, len: nat)
    ensures
        be_octets(n, len).len() == len,
    decreases len,
{
    if len > 0 {
        lemma_be_octets_len(n, (len - 1) as nat);
    }
}

/// Advances every block of `input` by the block `b`.
pub fn advance(input: &mut Vec<u8>, b: &Vec<u8>)
    requires
        old(input)@.len() % 64 == 0,
        b@.len() == 64,
    ensures
        final(input)@ == advanced(old(input)@, b@),
        final(input)@.len() == old(input)@.len(),
{
    let ghost before = input@;
    let len: usize = input.len();
    let mut j: usize = 0;
    assert(advanced(before.take(0), b@) + before.skip(0) =~= before);
    while j < len
        invariant
            j <= len,
            len % 64 == 0,
            j % 64 == 0,
            before.len() == len,
            b@.len() == 64,
            input@.len() == len,
            advanced(before.take(j as int), b@).len() == j,
            input@ == advanced(before.take(j as int), b@) + before.skip(j as int),
        decreases len - j,
    {
        let ghost done = advanced(before.take(j as int), b@);
        let ghost block = before.subrange(j as int, j + 64);
        assert(input@.subrange(j as int, j + 64) =~= block);
        assert(input@.take(j as int) =~= done);
        assert(input@.skip(j + 64) =~= before.skip(j + 64));
        advance_block(input, j, b);
        proof {
            let next = before.take(j + 64);
            assert(next.take(next.len() - 64) =~= before.take(j as int));
            assert(next.skip(next.len() - 64) =~= block);
            lemma_be_octets_len(be_value(block) + be_value(b@) + 1, 64);
        }
        j = j + 64;
    }
    assert(before.take(len as int) =~= before);
}

/// The first 64 octets of endless copies of `octets`.
pub fn repeat_to_block(octets: &Vec<u8>) -> (r: Vec<u8>)
    requires
        octets@.len() > 0,
    ensures
        r@ == repeated(octets@, 64),
{
    let mut r: Vec<u8> = Vec::new();
    let mut i: usize = 0;
    while i < BLOCK_LEN
        invariant
            i <= 64,
            octets@.len() > 0,
            r@ == repeated(octets@, i as nat),
        decreases 64 - i,
    {
        r.push(octets[i % octets.len()]);
        i = i + 1;
    }
    r
}

/// Copies of `octets`, the last one cut, up to the next multiple of the block size.
pub fn fill(octets: &[u8]) -> (r: Vec<u8>)
    ensures
        r@ == filled(octets@),
        r@.len() % 64 == 0,
{
    let n: usize = octets.len();
    let mut r: Vec<u8> = vstd::slice::slice_to_vec(octets);
    if n == 0 {
        return r;
    }
    assert forall|i: int| 0 <= i < n implies r@[i] == octets@[i % (n as int)] by {
        vstd::arithmetic::div_mod::lemma_small_mod(i as nat, n as nat);
    }
    while r.len() % BLOCK_LEN != 0
        invariant
            n == octets@.len(),
            0 < n <= r@.len() <= (n + 63) / 64 * 64,
            forall|i: int| 0 <= i < r@.len() ==> r@[i] == octets@[i % (n as int)],
        decreases (n + 63) / 64 * 64 - r@.len(),
    {
        let len: usize = r.len();
        proof {
            vstd::arithmetic::div_mod::lemma_mod_sub_multiples_vanish(len as int, n as int);
        }
        let next: u8 = r[len - n];
        r.push(next);
    }
    r
}

/// Derives `len` octets from an encoded password.
///
/// A `rounds` below one counts as one.
pub fn derive_key(
    alg: HashAlgorithm,
    password: &[u8],
    salt: &[u8],
    id: Pkcs12KeyType,
    rounds: i32,
    len: usize,
) -> (r: Vec<u8>)
    ensures
        r@ == derived_key(alg, password@, salt@, id, rounds as int, len as nat),
        r@.len() == len,
{
    let octet: u8 = match id {
        Pkcs12KeyType::EncryptionKey => 1,
        Pkcs12KeyType::Iv => 2,
        Pkcs12KeyType::Mac => 3,
    };
    let mut input: Vec<u8> = fill(salt);
    let mut password_blocks: Vec<u8> = fill(password);
    input.append(&mut password_blocks);
    let ghost d = Seq::new(64, |i: int| diversifier(id));
    let ghost whole = key_material(alg, d, input@, rounds as int, len as nat);
    let mut key: Vec<u8> = Vec::new();
    assert(key@ + whole =~= whole);
    loop
        invariant
            d == Seq::new(64, |i: int| diversifier(id)),
            octet == diversifier(id),
            input@.len() % 64 == 0,
            key@.len() <= len,
            whole == key@ + key_material(
                alg,
                d,
                input@,
                rounds as int,
                (len - key@.len()) as nat,
            ),
        ensures
            key@ == whole,
            key@.len() == len,
        decreases len - key@.len(),
    {
        let mut data: Vec<u8> = vec![octet; 64];
        data.extend_from_slice(input.as_slice());
        assert(data@ =~= d + input@);
        let mut a: Vec<u8> = hash(alg, data.as_slice());
        let mut made: i32 = 1;
        while made < rounds
            invariant
                1 <= made,
                made <= rounds || made == 1,
                a@ == iterated_digest(alg, d + input@, made as int),
                a@.len() == digest_len(alg),
            decreases rounds - made,
        {
            a = hash(alg, a.as_slice());
            made = made + 1;
        }
        assert(a@ == iterated_digest(alg, d + input@, rounds as int));
        let ghost before = key@;
        let missing: usize = len - key.len();
        if missing <= a.len() {
            a.truncate(missing);
            key.append(&mut a);
            break;
        }
        let b: Vec<u8> = repeat_to_block(&a);
        advance(&mut input, &b);
        let ghost rest = key_material(
            alg,
            d,
            input@,
            rounds as int,
            (missing - a@.len()) as nat,
        );
        assert(before + (a@ + rest) =~= (before + a@) + rest);
        key.append(&mut a);
    }
    key
}

/// Encodes `text` as big-endian 16-bit characters.
///
/// Fails exactly where a character lies beyond the Basic Multilingual Plane.
pub fn encode_bmp(text: &str) -> (r: Result<Vec<u8>, der::Error>)
    ensures
        match r {
            Ok(octets) => bmp_encodable(text@) && octets@ == bmp_octets(text@),
            Err(_) => !bmp_encodable(text@),
        },
{
    let mut octets: Vec<u8> = Vec::new();
    for c in it: text.chars()
        invariant
            it.seq() == text@,
            bmp_encodable(text@.take(it.index())),
            octets@ == bmp_octets(text@.take(it.index())),
    {
        let ghost i = it.index();
        let ghost before = octets@;
        let code: u32 = c as u32;
        assert(text@[i] == c);
        if code > 0xffff {
            return Err(failed());
        }
        octets.push((code / 0x100) as u8);
        octets.push((code % 0x100) as u8);
        proof {
            let next = text@.take(i + 1);
            assert(next =~= text@.take(i).push(c));
            assert(bmp_encodable(next));
            assert(octets@ =~= bmp_octets(next));
        }
    }
    assert(text@.take(text@.len() as int) =~= text@);
    Ok(octets)
}

/// Derives `len` octets from a password.
///
/// Fails exactly where the password has no 16-bit encoding.
pub fn derive_key_utf8(
    alg: HashAlgorithm,
    password: &str,
    salt: &[u8],
    id: Pkcs12KeyType,
    rounds: i32,
    len: usize,
) -> (r: Result<Vec<u8>, der::Error>)
    ensures
        match r {
            Ok(key) => {
                &&& bmp_encodable(password@)
                &&& key@ == derived_key(
                    alg,
                    encoded_password(password@),
                    salt@,
                    id,
                    rounds as int,
                    len as nat,
                )
                &&& key@.len() == len
            },
            Err(_) => !bmp_encodable(password@),
        },
{
    match encode_bmp(password) {
        Ok(mut octets) => {
            octets.push(0);
            octets.push(0);
            assert(octets@ =~= encoded_password(password@));
            Ok(derive_key(alg, octets.as_slice(), salt, id, rounds, len))
        },
        Err(e) => Err(e),
    }
}

} // verus!
