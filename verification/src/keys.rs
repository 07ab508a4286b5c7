//! Key material: the SHA-256 digest of the four plaintexts, split in two.

use vstd::prelude::*;
use num_bigint::BigUint;
use sha2::{Digest, Sha256};
use crate::natural::{nat_of, be_bytes, to_bytes_be};

verus! {

/// The SHA-256 digest of a byte string.
pub uninterp spec fn sha256(data: Seq<u8>) -> Seq<u8>;

/// `Sha256::digest`: the 32-byte digest of `data`.
#[verifier::external_body]
pub(crate) fn sha256_digest(data: &[u8]) -> (digest: [u8; 32])
    ensures
        digest@ == sha256(data@),
{
    Sha256::digest(data).into()
}

/// A 128-bit key and the initialization vector that goes with it.
#[derive(Clone, Copy, Debug)]
pub struct KeyMaterial {
    pub key: [u8; 16],
    pub iv: [u8; 16],
}

/// What is hashed: the shortest big-endian encodings of the four plaintexts,
/// one after the other, with nothing between them.
pub open spec fn key_input(m1: nat, m2: nat, m3: nat, m4: nat) -> Seq<u8> {
    be_bytes(m1) + be_bytes(m2) + be_bytes(m3) + be_bytes(m4)
}

/// The key: the first half of the digest of [`key_input`].
pub open spec fn key_of(m1: nat, m2: nat, m3: nat, m4: nat) -> Seq<u8> {
    sha256(key_input(m1, m2, m3, m4)).subrange(0, 16)
}

/// The initialization vector: the second half of the digest of [`key_input`].
pub open spec fn iv_of(m1: nat, m2: nat, m3: nat, m4: nat) -> Seq<u8> {
    sha256(key_input(m1, m2, m3, m4)).subrange(16, 32)
}

/// Derives the key material from the four plaintexts, in this order.
pub fn derive_key(m1: &BigUint, m2: &BigUint, m3: &BigUint, m4: &BigUint) -> (material:
    KeyMaterial)
    ensures
        material.key@ == key_of(nat_of(*m1), nat_of(*m2), nat_of(*m3), nat_of(*m4)),
        material.iv@ == iv_of(nat_of(*m1), nat_of(*m2), nat_of(*m3), nat_of(*m4)),
{
    let mut input = to_bytes_be(m1);
    let mut second = to_bytes_be(m2);
    let mut third = to_bytes_be(m3);
    let mut fourth = to_bytes_be(m4);
    input.append(&mut second);
    input.append(&mut third);
    input.append(&mut fourth);
    let digest = sha256_digest(input.as_slice());
    let mut key = [0u8;16];
    let mut iv = [0u8;16];
    let mut i: usize = 0;
    while i < 16
        invariant
            i <= 16,
            forall|k: int| 0 <= k < i ==> key@[k] == digest@[k],
            forall|k: int| 0 <= k < i ==> iv@[k] == digest@[k + 16],
        decreases 16 - i,
    {
        key[i] = digest[i];
        iv[i] = digest[i + 16];
        i = i + 1;
    }
    proof {
        assert(key@ =~= digest@.subrange(0, 16));
        assert(iv@ =~= digest@.subrange(16, 32));
    }
    KeyMaterial { key, iv }
}

/// The key material depends on the four plaintext numbers alone.
pub proof fn lemma_key_is_function_of_plaintexts(
    m1: nat,
    m2: nat,
    m3: nat,
    m4: nat,
    m1_again: nat,
    m2_again: nat,
    m3_again: nat,
    m4_again: nat,
)
    requires
        m1 == m1_again,
        m2 == m2_again,
        m3 == m3_again,
        m4 == m4_again,
    ensures
        key_of(m1, m2, m3, m4) == key_of(m1_again, m2_again, m3_again, m4_again),
        iv_of(m1, m2, m3, m4) == iv_of(m1_again, m2_again, m3_again, m4_again),
{
}

} // verus!
