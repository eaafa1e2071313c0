use vstd::prelude::*;
use vstd::arithmetic::power2::{pow2, lemma2_to64, lemma_pow2_pos, lemma_pow2_unfold, lemma_pow2_strictly_increases};

use crate::hash::{hash, hash_pair, hash_pair_spec, sha256_of};
use crate::rng::{os_seed, std_rng_bytes, std_rng_stream};
use crate::tree::{fold_path, fold_path_exec, is_hash_tree, lemma_fold_path, lemma_shr_bound, shr, sibling};
use crate::u256::{words, U256};
use crate::util::{append_bytes, le_bytes, le_bytes_spec, pow2_usize};
use crate::SignatureScheme;

verus! {

/// The seed of the one-time key pair at leaf `idx`:
/// `hash_pair(σ, idx as 8 little-endian bytes)`.
pub open spec fn leaf_seed(sigma: Seq<u8>, idx: nat) -> Seq<u8> {
    hash_pair_spec(sigma, le_bytes_spec(idx, 8))
}

/// A Merkle signature: the leaf used, its one-time public key and
/// signature, and the `tree_height` siblings from the leaf up to the root.
pub struct Signature<O: SignatureScheme> {
    pub leaf_idx: usize,
    pub leaf_public: O::Public,
    pub leaf_sig: O::Signature,
    pub path: Vec<U256>,
}

/// The Merkle many-time signature: a hash tree over `2^tree_height`
/// one-time key pairs, all derived from one seed. The caller advances the
/// leaf with `next_key` and must never sign twice at one leaf.
pub struct Merkle<O> {
    pub tree_height: usize,
    pub ots_scheme: O,
}

impl<O: SignatureScheme> Merkle<O> {
    /// Node `idx` at level `lvl` (leaves at level 0) of the tree that the
    /// seed `sigma` yields; a leaf is the hash of its one-time public key.
    pub open spec fn mnode(&self, sigma: Seq<u8>, lvl: nat, idx: nat) -> Seq<u8>
        decreases lvl,
    {
        if lvl == 0 {
            sha256_of(self.ots_scheme.seeded_public(leaf_seed(sigma, idx)))
        } else {
            hash_pair_spec(
                self.mnode(sigma, (lvl - 1) as nat, 2 * idx),
                self.mnode(sigma, (lvl - 1) as nat, 2 * idx + 1),
            )
        }
    }

    /// The root of the tree that the seed `sigma` yields.
    pub open spec fn root_of(&self, sigma: Seq<u8>) -> Seq<u8> {
        self.mnode(sigma, self.tree_height as nat, 0)
    }

    /// The authentication path of leaf `idx`.
    pub open spec fn path_spec(&self, sigma: Seq<u8>, idx: nat) -> Seq<Seq<u8>> {
        Seq::new(self.tree_height as nat, |s: int| self.mnode(sigma, s as nat, sibling(shr(idx, s as nat))))
    }

    proof fn lemma_mnode_tree(&self, sigma: Seq<u8>, levels: nat)
        ensures
            is_hash_tree(|l: nat, i: nat| self.mnode(sigma, l, i), levels),
    {
        let node = |l: nat, i: nat| self.mnode(sigma, l, i);
        assert forall|l: nat, i: nat| l < levels implies #[trigger] node(l + 1, i) == hash_pair_spec(
            node(l, 2 * i),
            node(l, 2 * i + 1),
        ) by {
            assert(self.mnode(sigma, l + 1, i) == hash_pair_spec(
                self.mnode(sigma, l, 2 * i),
                self.mnode(sigma, l, 2 * i + 1),
            ));
        }
    }

    pub fn new(tree_height: usize, ots_scheme: O) -> (r: Self)
        requires
            ots_scheme.valid(),
            tree_height < 64,
            pow2(tree_height as nat) <= usize::MAX,
        ensures
            r.tree_height == tree_height,
            r.ots_scheme == ots_scheme,
            r.valid(),
    {
        Self { tree_height, ots_scheme }
    }

    /// The one-time key pair at leaf `idx` of the tree that `private` seeds.
    fn get_ots_pair(&self, private: U256, idx: usize) -> (r: (O::Private, O::Public))
        requires
            self.valid(),
        ensures
            self.ots_scheme.seeded(leaf_seed(private@, idx as nat), r.0, r.1),
            self.ots_scheme.key_pair(r.0, r.1),
            self.ots_scheme.private_ok(r.0),
            self.ots_scheme.public_bytes_spec(r.1) == self.ots_scheme.seeded_public(leaf_seed(private@, idx as nat)),
    {
        let idx_bytes = le_bytes(idx as u128, 8);
        let node_seed = hash_pair(private.as_bytes(), idx_bytes.as_slice());
        let r = self.ots_scheme.gen_keys(Some(node_seed));
        proof {
            self.ots_scheme.lemma_seeded(node_seed@, r.0, r.1);
        }
        r
    }

    /// Node `idx` at `height` levels below the root of the tree that
    /// `private` seeds.
    pub fn get_node(&self, private: U256, height: usize, idx: usize) -> (r: U256)
        requires
            self.valid(),
            height <= self.tree_height,
            idx < pow2(height as nat),
        ensures
            r@ == self.mnode(private@, (self.tree_height - height) as nat, idx as nat),
        decreases self.tree_height - height,
    {
        if height == self.tree_height {
            let pair = self.get_ots_pair(private, idx);
            let bytes = self.ots_scheme.public_bytes(&pair.1);
            return hash(bytes.as_slice());
        }
        proof {
            lemma_pow2_unfold((height + 1) as nat);
            if height + 1 < self.tree_height {
                lemma_pow2_strictly_increases((height + 1) as nat, self.tree_height as nat);
            }
        }
        let left = self.get_node(private, height + 1, idx * 2);
        let right = self.get_node(private, height + 1, idx * 2 + 1);
        proof {
            assert((self.tree_height - height) as nat == (self.tree_height - (height + 1)) as nat + 1);
        }
        hash_pair(left.as_bytes(), right.as_bytes())
    }

    /// The private key for the next leaf, or `None` once the tree is used up.
    pub fn next_key(&self, private: (U256, usize)) -> (r: Option<(U256, usize)>)
        requires
            self.valid(),
        ensures
            r is Some <==> private.1 + 1 < pow2(self.tree_height as nat),
            r matches Some(p) ==> p.0 == private.0 && p.1 == private.1 + 1,
    {
        let limit = pow2_usize(self.tree_height);
        if private.1 < limit && private.1 + 1 < limit {
            Some((private.0, private.1 + 1))
        } else {
            None
        }
    }
}

impl<O: SignatureScheme> SignatureScheme for Merkle<O> {
    type Private = (U256, usize);
    type Public = U256;
    type Signature = Signature<O>;

    open spec fn valid(&self) -> bool {
        &&& self.ots_scheme.valid()
        &&& self.tree_height < 64
        &&& pow2(self.tree_height as nat) <= usize::MAX
    }

    open spec fn signable(&self, len: nat) -> bool {
        self.ots_scheme.signable(len)
    }

    open spec fn private_ok(&self, private: (U256, usize)) -> bool {
        private.1 < pow2(self.tree_height as nat)
    }

    open spec fn public_len(&self) -> nat {
        32
    }

    open spec fn public_bytes_spec(&self, public: U256) -> Seq<u8> {
        public@
    }

    open spec fn seeded_public(&self, seed: Seq<u8>) -> Seq<u8> {
        self.root_of(std_rng_stream(seed, 32))
    }

    open spec fn seeded(&self, seed: Seq<u8>, private: (U256, usize), public: U256) -> bool {
        &&& private.0@ == std_rng_stream(seed, 32)
        &&& private.1 == 0
        &&& public@ == self.root_of(private.0@)
    }

    open spec fn key_pair(&self, private: (U256, usize), public: U256) -> bool {
        public@ == self.root_of(private.0@)
    }

    open spec fn is_signature(&self, msg: Seq<u8>, private: (U256, usize), sig: Signature<O>) -> bool {
        &&& sig.leaf_idx == private.1
        &&& words(sig.path@) == self.path_spec(private.0@, private.1 as nat)
        &&& exists|sk: O::Private|
            #[trigger] self.ots_scheme.seeded(leaf_seed(private.0@, private.1 as nat), sk, sig.leaf_public)
                && self.ots_scheme.is_signature(msg, sk, sig.leaf_sig)
    }

    open spec fn accepts(&self, msg: Seq<u8>, public: U256, sig: Signature<O>) -> bool {
        &&& self.ots_scheme.accepts(msg, sig.leaf_public, sig.leaf_sig)
        &&& fold_path(
            sha256_of(self.ots_scheme.public_bytes_spec(sig.leaf_public)),
            words(sig.path@),
            sig.leaf_idx as nat,
            sig.path@.len(),
        ) == public@
    }

    fn public_bytes(&self, public: &U256) -> (r: Vec<u8>) {
        let mut out: Vec<u8> = Vec::new();
        append_bytes(&mut out, public.as_bytes());
        out
    }

    fn gen_keys(&self, seed: Option<U256>) -> (r: ((U256, usize), U256)) {
        let seed = match seed {
            Some(s) => s,
            None => os_seed(),
        };
        let bytes = std_rng_bytes(&seed, 32);
        let private = U256::from_slice(bytes.as_slice());
        proof {
            lemma2_to64();
            lemma_pow2_pos(self.tree_height as nat);
        }
        let public = self.get_node(private, 0, 0);
        ((private, 0), public)
    }

    fn sign(&self, msg: &[u8], private: &(U256, usize)) -> (sig: Signature<O>) {
        let sigma = private.0;
        let leaf = private.1;
        let ots_pair = self.get_ots_pair(sigma, leaf);
        let leaf_sig = self.ots_scheme.sign(msg, &ots_pair.0);
        let mut path: Vec<U256> = Vec::new();
        let mut idx = leaf;
        let mut s: usize = 0;
        while s < self.tree_height
            invariant
                self.valid(),
                leaf < pow2(self.tree_height as nat),
                0 <= s <= self.tree_height,
                idx == shr(leaf as nat, s as nat),
                path@.len() == s,
                forall|j: int|
                    0 <= j < s ==> (#[trigger] path@[j])@ == self.mnode(
                        sigma@,
                        j as nat,
                        sibling(shr(leaf as nat, j as nat)),
                    ),
            decreases self.tree_height - s,
        {
            let ghost a = (self.tree_height - s) as nat;
            proof {
                assert(a + s == self.tree_height);
                lemma_shr_bound(leaf as nat, a, s as nat);
                lemma_pow2_unfold(a);
                assert(idx < pow2(a));
                assert(sibling(idx as nat) < pow2(a)) by {
                    assert(pow2(a) % 2 == 0);
                }
            }
            let sibling_idx = if idx % 2 == 0 {
                idx + 1
            } else {
                idx - 1
            };
            path.push(self.get_node(sigma, self.tree_height - s, sibling_idx));
            idx = idx / 2;
            s = s + 1;
        }
        assert(words(path@) =~= self.path_spec(sigma@, leaf as nat));
        let sig = Signature { leaf_idx: leaf, leaf_public: ots_pair.1, leaf_sig, path };
        assert(self.ots_scheme.seeded(leaf_seed(private.0@, private.1 as nat), ots_pair.0, sig.leaf_public));
        sig
    }

    fn verify(&self, msg: &[u8], public: &U256, sig: &Signature<O>) -> (r: bool) {
        if !self.ots_scheme.verify(msg, &sig.leaf_public, &sig.leaf_sig) {
            return false;
        }
        let bytes = self.ots_scheme.public_bytes(&sig.leaf_public);
        let leaf = hash(bytes.as_slice());
        let (root, _) = fold_path_exec(leaf, sig.path.as_slice(), sig.leaf_idx);
        root.equals(public)
    }

    proof fn lemma_seeded(&self, seed: Seq<u8>, private: (U256, usize), public: U256) {
        lemma_pow2_pos(self.tree_height as nat);
    }

    proof fn lemma_correct(&self, msg: Seq<u8>, private: (U256, usize), public: U256, sig: Signature<O>) {
        let sigma = private.0@;
        let i = private.1 as nat;
        let seed = leaf_seed(sigma, i);
        let sk = choose|sk: O::Private|
            #[trigger] self.ots_scheme.seeded(seed, sk, sig.leaf_public)
                && self.ots_scheme.is_signature(msg, sk, sig.leaf_sig);
        self.ots_scheme.lemma_seeded(seed, sk, sig.leaf_public);
        self.ots_scheme.lemma_correct(msg, sk, sig.leaf_public, sig.leaf_sig);
        let h = self.tree_height as nat;
        let node = |l: nat, j: nat| self.mnode(sigma, l, j);
        let path = words(sig.path@);
        self.lemma_mnode_tree(sigma, h);
        assert forall|j: int| 0 <= j < h implies #[trigger] path[j] == node(j as nat, sibling(shr(i, j as nat))) by {
            assert(path[j] == self.path_spec(sigma, i)[j]);
        }
        lemma_fold_path(node, path, i, h);
        assert(sha256_of(self.ots_scheme.public_bytes_spec(sig.leaf_public)) == node(0, i));
        lemma2_to64();
        assert(i < pow2(0 + h));
        lemma_shr_bound(i, 0, h);
        assert(sig.path@.len() == h);
    }
}

impl<O: SignatureScheme> Merkle<O> {
    /// Key generation from a seed is pure: two key pairs from one seed are
    /// byte-identical.
    pub proof fn lemma_deterministic(
        &self,
        seed: Seq<u8>,
        sk_a: (U256, usize),
        pk_a: U256,
        sk_b: (U256, usize),
        pk_b: U256,
    )
        requires
            self.seeded(seed, sk_a, pk_a),
            self.seeded(seed, sk_b, pk_b),
        ensures
            sk_a.0@ == sk_b.0@,
            sk_a.1 == sk_b.1,
            pk_a@ == pk_b@,
    {
    }

    /// A signature carries exactly `tree_height` path entries.
    pub proof fn lemma_path_len(&self, msg: Seq<u8>, private: (U256, usize), sig: Signature<O>)
        requires
            self.is_signature(msg, private, sig),
        ensures
            sig.path@.len() == self.tree_height,
    {
        assert(words(sig.path@).len() == sig.path@.len());
    }
}

} // verus!
