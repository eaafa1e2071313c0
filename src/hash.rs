use vstd::prelude::*;
use sha2::Digest;

use crate::u256::U256;
use crate::util::append_bytes;

verus! {

/// The SHA-256 digest of a byte string.
pub uninterp spec fn sha256_of(data: Seq<u8>) -> Seq<u8>;

/// Relies on `sha2::Sha256::digest`: the SHA-256 digest of `data`, which is
/// a function of the bytes alone.
#[verifier::external_body]
fn sha256(data: &[u8]) -> (r: U256)
    ensures
        r@ == sha256_of(data@),
{
    U256(sha2::Sha256::digest(data).into())
}

/// The SHA-512 digest of a byte string.
pub uninterp spec fn sha512_of(data: Seq<u8>) -> Seq<u8>;

/// Relies on `sha2::Sha512::digest`: the 64-byte SHA-512 digest of `data`,
/// which is a function of the bytes alone.
#[verifier::external_body]
pub(crate) fn sha512(data: &[u8]) -> (r: Vec<u8>)
    ensures
        r@ == sha512_of(data@),
        r@.len() == 64,
{
    sha2::Sha512::digest(data).to_vec()
}

/// `hash(x)`: SHA-256 of `x`.
pub open spec fn hash_spec(data: Seq<u8>) -> Seq<u8> {
    sha256_of(data)
}

/// `hash_pair(l, r)`: SHA-256 of the concatenation `l ‖ r`.
pub open spec fn hash_pair_spec(left: Seq<u8>, right: Seq<u8>) -> Seq<u8> {
    sha256_of(left + right)
}

/// `hash^n(x)`, with `hash^0(x) = x`.
pub open spec fn hash_n_spec(data: Seq<u8>, times: nat) -> Seq<u8>
    decreases times,
{
    if times == 0 {
        data
    } else {
        sha256_of(hash_n_spec(data, (times - 1) as nat))
    }
}

/// Hashing `a` times and then `b` times more is hashing `a + b` times.
pub proof fn lemma_hash_n_add(data: Seq<u8>, a: nat, b: nat)
    ensures
        hash_n_spec(hash_n_spec(data, a), b) == hash_n_spec(data, a + b),
    decreases b,
{
    if b > 0 {
        lemma_hash_n_add(data, a, (b - 1) as nat);
    }
}

pub fn hash(data: &[u8]) -> (r: U256)
    ensures
        r@ == hash_spec(data@),
{
    sha256(data)
}

pub fn hash_pair(left: &[u8], right: &[u8]) -> (r: U256)
    ensures
        r@ == hash_pair_spec(left@, right@),
{
    let mut buf: Vec<u8> = Vec::new();
    append_bytes(&mut buf, left);
    append_bytes(&mut buf, right);
    assert(buf@ =~= left@ + right@);
    sha256(buf.as_slice())
}

pub fn hash_n(data: U256, times: usize) -> (r: U256)
    ensures
        r@ == hash_n_spec(data@, times as nat),
{
    let mut acc = data;
    let mut i: usize = 0;
    while i < times
        invariant
            0 <= i <= times,
            acc@ == hash_n_spec(data@, i as nat),
        decreases times - i,
    {
        acc = sha256(acc.as_bytes());
        i = i + 1;
    }
    acc
}

} // verus!
