use vstd::prelude::*;
use rand::{RngCore, SeedableRng};

use crate::u256::U256;

verus! {

/// The first `len` bytes that HC-128 seeded with `seed` produces.
pub uninterp spec fn hc128_stream(seed: Seq<u8>, len: nat) -> Seq<u8>;

/// The first `len` bytes that `rand`'s `StdRng` seeded with `seed` produces.
pub uninterp spec fn std_rng_stream(seed: Seq<u8>, len: nat) -> Seq<u8>;

/// Relies on `rand_hc::Hc128Rng::from_seed` and `fill_bytes`: a seeded
/// HC-128 generator fills `len` bytes, which depend on the seed alone.
#[verifier::external_body]
pub(crate) fn hc128_bytes(seed: &U256, len: usize) -> (r: Vec<u8>)
    ensures
        r@ == hc128_stream(seed@, len as nat),
        r@.len() == len,
{
    let mut rng = rand_hc::Hc128Rng::from_seed(seed.0);
    let mut out = vec![0u8; len];
    rng.fill_bytes(&mut out);
    out
}

/// Relies on `rand::rngs::StdRng::from_seed` and `fill_bytes`: a seeded
/// generator fills `len` bytes, which depend on the seed alone.
#[verifier::external_body]
pub(crate) fn std_rng_bytes(seed: &U256, len: usize) -> (r: Vec<u8>)
    ensures
        r@ == std_rng_stream(seed@, len as nat),
        r@.len() == len,
{
    let mut rng = rand::rngs::StdRng::from_seed(seed.0);
    let mut out = vec![0u8; len];
    rng.fill_bytes(&mut out);
    out
}

/// Relies on `getrandom::getrandom`: 32 bytes from the operating system's
/// entropy source. Nothing is known of them; an entropy source that fails
/// is fatal.
#[verifier::external_body]
pub(crate) fn os_seed() -> (r: U256) {
    let mut bytes = [0u8; 32];
    getrandom::getrandom(&mut bytes).expect("operating-system entropy is unavailable");
    U256(bytes)
}

} // verus!
