//! What holds of key derivation, whatever computes it.
//!
//! A derived key is told by the digests that lead to it: a sequence of digests in which
//! each is the digest of the one before, and blocks that are told by the numbers they
//! write.

use crate::hash::{
    digest_of, hmac_of, hmac_sha1_tag, hmac_sha256_tag, sha1_digest, sha256_digest, HashAlgorithm,
};
use crate::kdf::{
    advanced, advanced_block, base256, be_octets, be_value, bmp_encodable, derived_key,
    diversifier, encoded_password, filled, iterated_digest, key_material, lemma_base256_positive,
    lemma_be_octets_modulo, repeated, Pkcs12KeyType,
};
use vstd::arithmetic::power::pow;
use vstd::prelude::*;

verus! {

/// `chain` starts with the digest of `start`, and goes on with the digest of the digest
/// before.
pub open spec fn is_digest_chain(alg: HashAlgorithm, start: Seq<u8>, chain: Seq<Seq<u8>>) -> bool {
    &&& chain.len() > 0
    &&& chain[0] == digest_of(alg, start)
    &&& forall|i: int|
        0 <= i && i + 1 < chain.len() ==> chain[i + 1] == digest_of(alg, #[trigger] chain[i])
}

/// `blocks` are as few whole blocks of 64 octets as hold `octets`, which come over and
/// over in them.
pub open spec fn is_cycled(octets: Seq<u8>, blocks: Seq<u8>) -> bool {
    &&& blocks.len() % 64 == 0
    &&& octets.len() <= blocks.len() < octets.len() + 64
    &&& forall|i: int|
        0 <= i < blocks.len() ==> #[trigger] blocks[i] == octets[i % (octets.len() as int)]
}

/// `d` is a block of 64 octets, all of them the number of the key's purpose: one for
/// encryption, two for an initialization vector, three for a MAC.
pub open spec fn is_purpose_block(id: Pkcs12KeyType, d: Seq<u8>) -> bool {
    &&& d.len() == 64
    &&& id == Pkcs12KeyType::EncryptionKey ==> forall|i: int|
        0 <= i < 64 ==> #[trigger] d[i] == 1
    &&& id == Pkcs12KeyType::Iv ==> forall|i: int| 0 <= i < 64 ==> #[trigger] d[i] == 2
    &&& id == Pkcs12KeyType::Mac ==> forall|i: int| 0 <= i < 64 ==> #[trigger] d[i] == 3
}

/// The digest and the tag of an algorithm are those of its own function, on all the data
/// and under all the key.
pub proof fn law_hash_functions(data: Seq<u8>, key: Seq<u8>)
    ensures
        digest_of(HashAlgorithm::Sha1, data) == sha1_digest(data),
        digest_of(HashAlgorithm::Sha256, data) == sha256_digest(data),
        hmac_of(HashAlgorithm::Sha1, key, data) == hmac_sha1_tag(key, data),
        hmac_of(HashAlgorithm::Sha256, key, data) == hmac_sha256_tag(key, data),
{
}

/// The number that octets write is 256 times the number before the last octet, plus that
/// octet.
pub proof fn law_be_value_horner(octets: Seq<u8>, last: u8)
    ensures
        be_value(Seq::empty()) == 0,
        be_value(octets.push(last)) == 256 * be_value(octets) + last,
    decreases octets.len(),
{
    let all = octets.push(last);
    if octets.len() == 0 {
        assert(all.skip(1) =~= Seq::<u8>::empty());
        assert(base256(0) == 1);
        assert(be_value(all) == last * base256(0) + be_value(all.skip(1)));
        assert(last * 1 == last) by (nonlinear_arith);
    } else {
        let rest = octets.skip(1);
        law_be_value_horner(rest, last);
        assert(all.skip(1) =~= rest.push(last));
        let p = base256((octets.len() - 1) as nat);
        assert(base256(octets.len()) == 256 * p);
        let x = octets[0] as nat;
        assert(x * (256 * p) == 256 * (x * p)) by (nonlinear_arith);
        assert(all[0] == octets[0]);
    }
}

/// A password enters the derivation as its characters, each in two octets with the more
/// significant one first, and a zero character behind them.
pub proof fn law_password_encoding(password: Seq<char>)
    requires
        forall|i: int| 0 <= i < password.len() ==> (#[trigger] password[i] as u32) <= 0xffff,
    ensures
        ({
            let octets = encoded_password(password);
            &&& octets.len() == 2 * password.len() + 2
            &&& forall|i: int|
                0 <= i < password.len() ==> 256 * octets[2 * i] + octets[2 * i + 1]
                    == #[trigger] password[i] as u32
            &&& octets[2 * password.len() as int] == 0
            &&& octets[2 * password.len() as int + 1] == 0
        }),
{
    let octets = encoded_password(password);
    assert forall|i: int| 0 <= i < password.len() implies 256 * octets[2 * i] + octets[2 * i + 1]
        == #[trigger] password[i] as u32 by {
        assert((2 * i) / 2 == i && (2 * i + 1) / 2 == i);
        assert((2 * i) % 2 == 0 && (2 * i + 1) % 2 == 1);
    }
}

/// A password can be encoded exactly where no character lies beyond U+FFFF.
pub proof fn law_password_encodable(password: Seq<char>)
    ensures
        bmp_encodable(password) <==> !(exists|i: int|
            0 <= i < password.len() && (#[trigger] password[i] as u32) > 0xffff),
{
    if !bmp_encodable(password) {
        let i = choose|i: int|
            0 <= i < password.len() && (#[trigger] password[i] as u32) > 0xffff;
        assert(password[i] as u32 > 0xffff);
    }
}

proof fn lemma_cycled(octets: Seq<u8>, blocks: Seq<u8>)
    requires
        is_cycled(octets, blocks),
    ensures
        blocks == filled(octets),
{
    assert(blocks.len() == (octets.len() + 63) / 64 * 64);
    assert(blocks =~= filled(octets));
}

proof fn lemma_chain(alg: HashAlgorithm, start: Seq<u8>, chain: Seq<Seq<u8>>, k: int)
    requires
        is_digest_chain(alg, start, chain),
        1 <= k <= chain.len(),
    ensures
        iterated_digest(alg, start, k) == chain[k - 1],
    decreases k,
{
    if k > 1 {
        lemma_chain(alg, start, chain, k - 1);
        assert(chain[k - 2 + 1] == digest_of(alg, chain[k - 2]));
    }
}

/// A derivation starts from the purpose block, the salt and the password, each of the two
/// repeated to whole blocks: nothing else of them counts, and nothing of them is left out.
pub proof fn law_derivation_input(
    alg: HashAlgorithm,
    password: Seq<u8>,
    salt: Seq<u8>,
    id: Pkcs12KeyType,
    rounds: int,
    len: nat,
    d: Seq<u8>,
    s: Seq<u8>,
    p: Seq<u8>,
)
    requires
        is_purpose_block(id, d),
        is_cycled(salt, s),
        is_cycled(password, p),
    ensures
        derived_key(alg, password, salt, id, rounds, len) == key_material(
            alg,
            d,
            s + p,
            rounds,
            len,
        ),
{
    lemma_cycled(salt, s);
    lemma_cycled(password, p);
    assert(d =~= Seq::new(64, |i: int| diversifier(id)));
}

/// A key no longer than a digest is the head of the last of as many digests as the
/// iteration count says, each the digest of the one before.
pub proof fn law_key_of_one_digest(
    alg: HashAlgorithm,
    d: Seq<u8>,
    input: Seq<u8>,
    rounds: int,
    len: nat,
    chain: Seq<Seq<u8>>,
)
    requires
        is_digest_chain(alg, d + input, chain),
        chain.len() == if rounds > 1 { rounds } else { 1 },
        alg == HashAlgorithm::Sha1 ==> len <= 20,
        alg == HashAlgorithm::Sha256 ==> len <= 32,
    ensures
        key_material(alg, d, input, rounds, len) == chain.last().take(len as int),
{
    lemma_chain(alg, d + input, chain, chain.len() as int);
}

/// The whole of it for a key that one digest holds: any chain of as many digests as the
/// iteration count says, from the purpose block, the salt and the password on, ends in the
/// key.
pub proof fn law_derived_key(
    alg: HashAlgorithm,
    password: Seq<u8>,
    salt: Seq<u8>,
    id: Pkcs12KeyType,
    rounds: int,
    len: nat,
    d: Seq<u8>,
    s: Seq<u8>,
    p: Seq<u8>,
    chain: Seq<Seq<u8>>,
)
    requires
        is_purpose_block(id, d),
        is_cycled(salt, s),
        is_cycled(password, p),
        is_digest_chain(alg, d + (s + p), chain),
        chain.len() == if rounds > 1 { rounds } else { 1 },
        alg == HashAlgorithm::Sha1 ==> len <= 20,
        alg == HashAlgorithm::Sha256 ==> len <= 32,
    ensures
        derived_key(alg, password, salt, id, rounds, len) == chain.last().take(len as int),
{
    law_derivation_input(alg, password, salt, id, rounds, len, d, s, p);
    law_key_of_one_digest(alg, d, s + p, rounds, len, chain);
}

/// One more iteration is one more digest: the key of `rounds + 1` iterations is the digest
/// of the key of `rounds` iterations, where both are whole digests.
pub proof fn law_one_more_round(
    alg: HashAlgorithm,
    password: Seq<u8>,
    salt: Seq<u8>,
    id: Pkcs12KeyType,
    rounds: int,
    len: nat,
)
    requires
        rounds >= 1,
        alg == HashAlgorithm::Sha1 ==> len == 20,
        alg == HashAlgorithm::Sha256 ==> len == 32,
        forall|data: Seq<u8>| (#[trigger] digest_of(alg, data)).len() == len,
    ensures
        derived_key(alg, password, salt, id, rounds + 1, len) == digest_of(
            alg,
            derived_key(alg, password, salt, id, rounds, len),
        ),
{
    let d = Seq::new(64, |i: int| diversifier(id));
    let start = d + (filled(salt) + filled(password));
    let a = iterated_digest(alg, start, rounds);
    let b = iterated_digest(alg, start, rounds + 1);
    lemma_iterated_digest(alg, start, rounds);
    assert(a.len() == len && b.len() == len);
    assert(a.take(len as int) =~= a);
    assert(b.take(len as int) =~= b);
}

proof fn lemma_iterated_digest(alg: HashAlgorithm, data: Seq<u8>, rounds: int)
    requires
        rounds >= 1,
    ensures
        iterated_digest(alg, data, rounds + 1) == digest_of(
            alg,
            iterated_digest(alg, data, rounds),
        ),
        exists|x: Seq<u8>| iterated_digest(alg, data, rounds) == #[trigger] digest_of(alg, x),
{
    if rounds == 1 {
        assert(iterated_digest(alg, data, rounds) == digest_of(alg, data));
    } else {
        assert(iterated_digest(alg, data, rounds) == digest_of(
            alg,
            iterated_digest(alg, data, rounds - 1),
        ));
    }
}

proof fn lemma_base256_is_pow(n: nat)
    ensures
        base256(n) == pow(256, n),
    decreases n,
{
    reveal(pow);
    if n > 0 {
        lemma_base256_is_pow((n - 1) as nat);
    }
}

proof fn lemma_be_value_bound(octets: Seq<u8>)
    ensures
        be_value(octets) < base256(octets.len()),
    decreases octets.len(),
{
    if octets.len() > 0 {
        lemma_be_value_bound(octets.skip(1));
        let p = base256((octets.len() - 1) as nat);
        let x = octets[0] as nat;
        let w = be_value(octets.skip(1));
        assert(x * p + w < 256 * p) by (nonlinear_arith)
            requires
                x <= 255,
                w < p,
        ;
    }
}

/// Octets are those of the number they write.
pub proof fn law_be_octets_of_value(octets: Seq<u8>)
    ensures
        be_octets(be_value(octets), octets.len()) == octets,
    decreases octets.len(),
{
    if octets.len() > 0 {
        let rest = octets.skip(1);
        let len = rest.len();
        let p = base256(len);
        let x = octets[0] as nat;
        let w = be_value(rest);
        lemma_be_value_bound(rest);
        law_be_octets_of_value(rest);
        lemma_be_octets_modulo(w, x, len);
        assert((x * p + w) / p == x) by (nonlinear_arith)
            requires
                w < p,
        ;
        assert(w + x * p == x * p + w);
        assert(seq![octets[0]] + rest =~= octets);
    } else {
        assert(octets =~= Seq::<u8>::empty());
    }
}

proof fn lemma_block_of_number(block: Seq<u8>, n: nat)
    requires
        block.len() == 64,
        be_value(block) == n as int % pow(256, 64),
    ensures
        block == be_octets(n, 64),
{
    let p = base256(64);
    lemma_base256_is_pow(64);
    lemma_base256_positive(64);
    law_be_octets_of_value(block);
    let low = n % p;
    let high = n / p;
    assert(n == low + high * p) by (nonlinear_arith)
        requires
            p > 0,
            low == n % p,
            high == n / p,
    ;
    lemma_be_octets_modulo(low, high, 64);
}

proof fn lemma_advanced_is(input: Seq<u8>, next: Seq<u8>, b: Seq<u8>)
    requires
        input.len() % 64 == 0,
        next.len() == input.len(),
        forall|k: int|
            0 <= k && 64 * k + 64 <= input.len() ==> (#[trigger] next.subrange(
                64 * k,
                64 * k + 64,
            )) == advanced_block(input.subrange(64 * k, 64 * k + 64), b),
    ensures
        next == advanced(input, b),
    decreases input.len(),
{
    if input.len() == 0 {
        assert(next =~= Seq::<u8>::empty());
    } else {
        let n = input.len() - 64;
        let k = n / 64;
        assert(64 * k == n);
        let front = input.take(n);
        let next_front = next.take(n);
        assert forall|j: int| 0 <= j && 64 * j + 64 <= front.len() implies (
        #[trigger] next_front.subrange(64 * j, 64 * j + 64)) == advanced_block(
            front.subrange(64 * j, 64 * j + 64),
            b,
        ) by {
            assert(next_front.subrange(64 * j, 64 * j + 64) =~= next.subrange(
                64 * j,
                64 * j + 64,
            ));
            assert(front.subrange(64 * j, 64 * j + 64) =~= input.subrange(64 * j, 64 * j + 64));
        }
        lemma_advanced_is(front, next_front, b);
        assert(next.subrange(64 * k, 64 * k + 64) == advanced_block(
            input.subrange(64 * k, 64 * k + 64),
            b,
        ));
        assert(input.subrange(64 * k, 64 * k + 64) =~= input.skip(n));
        assert(next =~= next_front + next.subrange(64 * k, 64 * k + 64));
    }
}

/// A key longer than a digest is the last digest of a chain, followed by the key that the
/// rest of the octets is from the input whose every block is greater, as a number of 512
/// bits, by that digest repeated to a block and by one.
pub proof fn law_key_of_more_digests(
    alg: HashAlgorithm,
    d: Seq<u8>,
    input: Seq<u8>,
    rounds: int,
    len: nat,
    chain: Seq<Seq<u8>>,
    b: Seq<u8>,
    next: Seq<u8>,
    digest_len: nat,
)
    requires
        is_digest_chain(alg, d + input, chain),
        chain.len() == if rounds > 1 { rounds } else { 1 },
        alg == HashAlgorithm::Sha1 ==> digest_len == 20,
        alg == HashAlgorithm::Sha256 ==> digest_len == 32,
        len > digest_len,
        b.len() == 64,
        forall|i: int|
            0 <= i < 64 ==> #[trigger] b[i] == chain.last()[i % (chain.last().len() as int)],
        input.len() % 64 == 0,
        next.len() == input.len(),
        forall|k: int|
            0 <= k && 64 * k + 64 <= input.len() ==> be_value(
                #[trigger] next.subrange(64 * k, 64 * k + 64),
            ) == (be_value(input.subrange(64 * k, 64 * k + 64)) + be_value(b) + 1) as int % pow(
                256,
                64,
            ),
    ensures
        key_material(alg, d, input, rounds, len) == chain.last() + key_material(
            alg,
            d,
            next,
            rounds,
            (len - digest_len) as nat,
        ),
{
    let a = chain.last();
    lemma_chain(alg, d + input, chain, chain.len() as int);
    assert(b =~= repeated(a, 64));
    assert forall|k: int| 0 <= k && 64 * k + 64 <= input.len() implies (#[trigger] next.subrange(
        64 * k,
        64 * k + 64,
    )) == advanced_block(input.subrange(64 * k, 64 * k + 64), b) by {
        let block = next.subrange(64 * k, 64 * k + 64);
        let n = be_value(input.subrange(64 * k, 64 * k + 64)) + be_value(b) + 1;
        assert(be_value(block) == n as int % pow(256, 64));
        lemma_block_of_number(block, n);
    }
    lemma_advanced_is(input, next, b);
}

} // verus!
