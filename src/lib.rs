//! Hash-based signature schemes: Lamport, Winternitz and HORST as the
//! primitives, and Merkle, Goldreich and SPHINCS trees built over them.
pub mod u256;
pub mod hash;
pub mod util;
pub mod radix;
pub mod rng;
pub mod lamport;
pub mod winternitz;
pub mod tree;
pub mod horst;
pub mod merkle;
pub mod goldreich;
pub mod sphincs;

pub use crate::u256::U256;

use vstd::prelude::*;

verus! {

/// A signature scheme: key generation, signing and verification, together
/// with the mathematical description that the composite schemes and the
/// correctness proofs are stated over.
pub trait SignatureScheme: Sized {
    type Private;
    type Public;
    type Signature;

    /// The parameters are legal.
    spec fn valid(&self) -> bool;

    /// A message of `len` bytes can be signed.
    spec fn signable(&self, len: nat) -> bool;

    /// The shape that `sign` asks of a private key.
    spec fn private_ok(&self, private: Self::Private) -> bool;

    /// The length of a public key's byte form.
    spec fn public_len(&self) -> nat;

    /// The byte form of a public key, which composite schemes hash.
    spec fn public_bytes_spec(&self, public: Self::Public) -> Seq<u8>;

    /// The byte form of the public key that the seed `seed` yields.
    spec fn seeded_public(&self, seed: Seq<u8>) -> Seq<u8>;

    /// `(private, public)` is the key pair that the seed `seed` yields.
    spec fn seeded(&self, seed: Seq<u8>, private: Self::Private, public: Self::Public) -> bool;

    /// `public` belongs to `private`.
    spec fn key_pair(&self, private: Self::Private, public: Self::Public) -> bool;

    /// `sig` is a signature that `sign` may return for `msg` under `private`.
    spec fn is_signature(&self, msg: Seq<u8>, private: Self::Private, sig: Self::Signature) -> bool;

    /// `verify` accepts `sig` on `msg` under `public`.
    spec fn accepts(&self, msg: Seq<u8>, public: Self::Public, sig: Self::Signature) -> bool;

    /// The byte form of a public key.
    fn public_bytes(&self, public: &Self::Public) -> (r: Vec<u8>)
        ensures
            r@ == self.public_bytes_spec(*public),
    ;

    /// A key pair: derived from `seed`, or from 32 bytes of operating-system
    /// entropy where `seed` is `None`.
    fn gen_keys(&self, seed: Option<U256>) -> (r: (Self::Private, Self::Public))
        requires
            self.valid(),
        ensures
            self.key_pair(r.0, r.1),
            self.private_ok(r.0),
            seed matches Some(s) ==> self.seeded(s@, r.0, r.1),
    ;

    fn sign(&self, msg: &[u8], private: &Self::Private) -> (sig: Self::Signature)
        requires
            self.valid(),
            self.signable(msg@.len()),
            self.private_ok(*private),
        ensures
            self.is_signature(msg@, *private, sig),
    ;

    fn verify(&self, msg: &[u8], public: &Self::Public, sig: &Self::Signature) -> (r: bool)
        requires
            self.valid(),
        ensures
            r == self.accepts(msg@, *public, *sig),
    ;

    /// What a seed yields is a key pair of the right shape, and its public
    /// key's byte form is the one the seed names.
    proof fn lemma_seeded(&self, seed: Seq<u8>, private: Self::Private, public: Self::Public)
        requires
            self.valid(),
            self.seeded(seed, private, public),
        ensures
            self.key_pair(private, public),
            self.private_ok(private),
            self.public_bytes_spec(public) == self.seeded_public(seed),
            self.public_bytes_spec(public).len() == self.public_len(),
    ;

    /// Correctness: a signature made with a private key verifies under its
    /// public key.
    proof fn lemma_correct(
        &self,
        msg: Seq<u8>,
        private: Self::Private,
        public: Self::Public,
        sig: Self::Signature,
    )
        requires
            self.valid(),
            self.key_pair(private, public),
            self.private_ok(private),
            self.signable(msg.len()),
            self.is_signature(msg, private, sig),
        ensures
            self.accepts(msg, public, sig),
    ;
}

/// A signature made with the key pair that a seed yields verifies under
/// that pair's public key; for the composite schemes, whatever schemes they
/// are built over.
pub proof fn lemma_seeded_signature_verifies<S: SignatureScheme>(
    scheme: &S,
    seed: Seq<u8>,
    msg: Seq<u8>,
    private: S::Private,
    public: S::Public,
    sig: S::Signature,
)
    requires
        scheme.valid(),
        scheme.seeded(seed, private, public),
        scheme.signable(msg.len()),
        scheme.is_signature(msg, private, sig),
    ensures
        scheme.accepts(msg, public, sig),
{
    scheme.lemma_seeded(seed, private, public);
    scheme.lemma_correct(msg, private, public, sig);
}

} // verus!
