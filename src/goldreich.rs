use vstd::prelude::*;
use vstd::arithmetic::power2::{pow2, lemma2_to64, lemma_pow2_pos, lemma_pow2_unfold};

use crate::hash::{hash_pair, hash_pair_spec};
use crate::rng::os_seed;
use crate::u256::U256;
use crate::radix::le_u128;
use crate::util::{append_bytes, le_bytes, le_bytes_spec, pow2_u128};
use crate::SignatureScheme;

verus! {

/// The parent of heap node `n > 0`.
pub open spec fn parent(n: nat) -> nat {
    if n == 0 {
        0
    } else {
        ((n - 1) as nat) / 2
    }
}

/// The ancestor of heap node `n`, `j` levels up.
pub open spec fn ancestor(n: nat, j: nat) -> nat
    decreases j,
{
    if j == 0 {
        n
    } else {
        parent(ancestor(n, (j - 1) as nat))
    }
}

/// The sibling of heap node `n > 0`: a left child is odd.
pub open spec fn heap_sibling(n: nat) -> nat {
    if n % 2 == 1 {
        n + 1
    } else {
        (n - 1) as nat
    }
}

/// The seed of heap node `n`'s one-time key pair:
/// `hash_pair(σ, n as 16 little-endian bytes)`.
pub open spec fn node_seed(sigma: Seq<u8>, n: nat) -> Seq<u8> {
    hash_pair_spec(sigma, le_bytes_spec(n, 16))
}

/// A path entry's key for the node it signs for: the left one for an odd
/// (left) node, the right one otherwise.
pub open spec fn entry_node<P, S>(n: nat, e: (P, P, S)) -> P {
    if n % 2 == 0 {
        e.1
    } else {
        e.0
    }
}

/// The sibling's key in a path entry.
pub open spec fn entry_sibling<P, S>(n: nat, e: (P, P, S)) -> P {
    if n % 2 == 0 {
        e.0
    } else {
        e.1
    }
}

/// Heap node `n` lies on level `a` from the bottom of a tree of height `h`
/// when `2^a - 1 <= n < 2^(a+1) - 1`; a step up moves to level `a - 1`.
proof fn lemma_parent_level(n: nat, a: nat)
    requires
        a >= 1,
        pow2(a) - 1 <= n < pow2(a + 1) - 1,
    ensures
        n >= 1,
        pow2((a - 1) as nat) - 1 <= parent(n) < pow2(a) - 1,
{
    lemma_pow2_unfold(a);
    lemma_pow2_unfold(a + 1);
    lemma_pow2_pos((a - 1) as nat);
}

/// A Goldreich signature: the leaf chosen, and for each level from the leaf
/// up to just below the root, the keys of the node and its sibling (left
/// first) with the node's one-time signature.
pub struct Signature<O: SignatureScheme> {
    pub leaf_idx: u128,
    pub path: Vec<(O::Public, O::Public, O::Signature)>,
}

/// The Goldreich stateless many-time signature: a virtual binary tree of
/// height `tree_height` whose every node has a one-time key pair derived
/// from the secret seed; each node signs the hash of its children's public
/// keys, and a leaf chosen at random signs the message.
pub struct Goldreich<O> {
    pub tree_height: usize,
    pub ots_scheme: O,
}

impl<O: SignatureScheme> Goldreich<O> {
    /// The message that node `ancestor(leaf, j)` signs: the message itself at
    /// the leaf, above it the hash of its children's public keys.
    pub open spec fn level_msg(&self, msg: Seq<u8>, sigma: Seq<u8>, leaf: nat, j: nat) -> Seq<u8> {
        if j == 0 {
            msg
        } else {
            self.children_hash(sigma, ancestor(leaf, j))
        }
    }

    /// `hash_pair` of the public keys of node `p`'s children.
    pub open spec fn children_hash(&self, sigma: Seq<u8>, p: nat) -> Seq<u8> {
        hash_pair_spec(
            self.ots_scheme.seeded_public(node_seed(sigma, 2 * p + 1)),
            self.ots_scheme.seeded_public(node_seed(sigma, 2 * p + 2)),
        )
    }

    /// Path entry `j` of a signature of `msg` at `leaf` under `sigma`.
    pub open spec fn entry_ok(
        &self,
        msg: Seq<u8>,
        sigma: Seq<u8>,
        leaf: nat,
        j: nat,
        e: (O::Public, O::Public, O::Signature),
    ) -> bool {
        let n = ancestor(leaf, j);
        &&& self.ots_scheme.public_bytes_spec(entry_sibling(n, e)) == self.ots_scheme.seeded_public(
            node_seed(sigma, heap_sibling(n)),
        )
        &&& exists|sk: O::Private|
            #[trigger] self.ots_scheme.seeded(node_seed(sigma, n), sk, entry_node(n, e))
                && self.ots_scheme.is_signature(self.level_msg(msg, sigma, leaf, j), sk, e.2)
    }

    /// The message that verification checks entry `j` against.
    pub open spec fn verify_msg(&self, msg: Seq<u8>, path: Seq<(O::Public, O::Public, O::Signature)>, j: nat) -> Seq<u8> {
        if j == 0 {
            msg
        } else {
            hash_pair_spec(
                self.ots_scheme.public_bytes_spec(path[j - 1].0),
                self.ots_scheme.public_bytes_spec(path[j - 1].1),
            )
        }
    }

    /// Verification accepts path entry `j`.
    pub open spec fn entry_accepted(
        &self,
        msg: Seq<u8>,
        leaf: nat,
        path: Seq<(O::Public, O::Public, O::Signature)>,
        j: nat,
    ) -> bool {
        &&& ancestor(leaf, j) != 0
        &&& self.ots_scheme.accepts(
            self.verify_msg(msg, path, j),
            entry_node(ancestor(leaf, j), path[j as int]),
            path[j as int].2,
        )
    }

    pub fn new(tree_height: usize, ots_scheme: O) -> (r: Self)
        requires
            ots_scheme.valid(),
            ots_scheme.signable(32),
            tree_height >= 1,
            pow2((tree_height + 1) as nat) <= u128::MAX,
        ensures
            r.tree_height == tree_height,
            r.ots_scheme == ots_scheme,
            r.valid(),
    {
        Self { tree_height, ots_scheme }
    }

    /// The one-time key pair of heap node `idx`.
    fn get_node(&self, private: U256, idx: u128) -> (r: (O::Private, O::Public))
        requires
            self.valid(),
        ensures
            self.ots_scheme.seeded(node_seed(private@, idx as nat), r.0, r.1),
            self.ots_scheme.key_pair(r.0, r.1),
            self.ots_scheme.private_ok(r.0),
            self.ots_scheme.public_bytes_spec(r.1) == self.ots_scheme.seeded_public(node_seed(private@, idx as nat)),
    {
        let idx_bytes = le_bytes(idx, 16);
        let seed = hash_pair(private.as_bytes(), idx_bytes.as_slice());
        let r = self.ots_scheme.gen_keys(Some(seed));
        proof {
            self.ots_scheme.lemma_seeded(seed@, r.0, r.1);
        }
        r
    }

    /// Signs `msg` at leaf `2^tree_height - 1 + leaf_offset`.
    pub fn sign_at(&self, msg: &[u8], private: &U256, leaf_offset: u128) -> (sig: Signature<O>)
        requires
            self.valid(),
            self.signable(msg@.len()),
            leaf_offset < pow2(self.tree_height as nat),
        ensures
            self.is_signature(msg@, *private, sig),
            sig.leaf_idx == leaf_offset + pow2(self.tree_height as nat) - 1,
    {
        let sigma = *private;
        let h = self.tree_height;
        proof {
            lemma_pow2_unfold((h + 1) as nat);
            lemma_pow2_pos(h as nat);
        }
        let num_leaves = pow2_u128(h);
        let leaf_idx = leaf_offset + (num_leaves - 1);
        let mut path: Vec<(O::Public, O::Public, O::Signature)> = Vec::new();
        let mut idx = leaf_idx;
        let mut hash: Vec<u8> = Vec::new();
        append_bytes(&mut hash, msg);
        assert(hash@ =~= msg@);
        let mut j: usize = 0;
        while idx != 0
            invariant
                self.valid(),
                h == self.tree_height,
                pow2(h as nat) - 1 <= leaf_idx < pow2((h + 1) as nat) - 1,
                0 <= j <= h,
                idx == ancestor(leaf_idx as nat, j as nat),
                pow2((h - j) as nat) - 1 <= idx < pow2((h - j + 1) as nat) - 1,
                hash@ == self.level_msg(msg@, sigma@, leaf_idx as nat, j as nat),
                self.ots_scheme.signable(hash@.len()),
                path@.len() == j,
                forall|t: int|
                    0 <= t < j ==> self.entry_ok(msg@, sigma@, leaf_idx as nat, t as nat, #[trigger] path@[t]),
                forall|t: int|
                    1 <= t <= j ==> #[trigger] self.level_msg(msg@, sigma@, leaf_idx as nat, t as nat).len() == 32,
            decreases idx,
        {
            let ghost a = (h - j) as nat;
            proof {
                if a == 0 {
                    lemma2_to64();
                    assert(false);
                }
                lemma_parent_level(idx as nat, a);
                assert(a + 1 == (h - j + 1) as nat);
                if a < h {
                    crate::util::lemma_pow2_le(a + 1, (h + 1) as nat);
                }
            }
            let node = self.get_node(sigma, idx);
            let sib_idx = if idx % 2 == 1 {
                idx + 1
            } else {
                idx - 1
            };
            let sibling = self.get_node(sigma, sib_idx);
            let sig = self.ots_scheme.sign(hash.as_slice(), &node.0);
            let node_bytes = self.ots_scheme.public_bytes(&node.1);
            let sib_bytes = self.ots_scheme.public_bytes(&sibling.1);
            let parent_idx = (idx - 1) / 2;
            let next = if idx % 2 == 1 {
                hash_pair(node_bytes.as_slice(), sib_bytes.as_slice())
            } else {
                hash_pair(sib_bytes.as_slice(), node_bytes.as_slice())
            };
            let ghost e_node = node.1;
            let entry = if idx % 2 == 1 {
                (node.1, sibling.1, sig)
            } else {
                (sibling.1, node.1, sig)
            };
            proof {
                assert(entry_node(idx as nat, entry) == e_node);
                assert(self.ots_scheme.seeded(node_seed(sigma@, idx as nat), node.0, entry_node(idx as nat, entry)));
                assert(next@ == self.children_hash(sigma@, parent_idx as nat));
                assert(ancestor(leaf_idx as nat, (j + 1) as nat) == parent_idx);
                assert(self.level_msg(msg@, sigma@, leaf_idx as nat, (j + 1) as nat) == next@);
            }
            path.push(entry);
            hash = Vec::new();
            append_bytes(&mut hash, next.as_bytes());
            assert(hash@ =~= next@);
            idx = parent_idx;
            j = j + 1;
        }
        proof {
            if j < h {
                let a = (h - j) as nat;
                lemma_pow2_unfold(a);
                lemma_pow2_pos((a - 1) as nat);
            }
        }
        Signature { leaf_idx, path }
    }
}

impl<O: SignatureScheme> SignatureScheme for Goldreich<O> {
    type Private = U256;
    type Public = (O::Public, O::Signature);
    type Signature = Signature<O>;

    open spec fn valid(&self) -> bool {
        &&& self.ots_scheme.valid()
        &&& self.ots_scheme.signable(32)
        &&& self.tree_height >= 1
        &&& pow2((self.tree_height + 1) as nat) <= u128::MAX
    }

    open spec fn signable(&self, len: nat) -> bool {
        self.ots_scheme.signable(len)
    }

    open spec fn private_ok(&self, private: U256) -> bool {
        true
    }

    open spec fn public_len(&self) -> nat {
        self.ots_scheme.public_len()
    }

    open spec fn public_bytes_spec(&self, public: (O::Public, O::Signature)) -> Seq<u8> {
        self.ots_scheme.public_bytes_spec(public.0)
    }

    open spec fn seeded_public(&self, seed: Seq<u8>) -> Seq<u8> {
        self.ots_scheme.seeded_public(node_seed(seed, 0))
    }

    open spec fn seeded(&self, seed: Seq<u8>, private: U256, public: (O::Public, O::Signature)) -> bool {
        &&& private@ == seed
        &&& self.key_pair(private, public)
    }

    open spec fn key_pair(&self, private: U256, public: (O::Public, O::Signature)) -> bool {
        &&& self.children_hash(private@, 0).len() == 32
        &&& exists|sk: O::Private|
            #[trigger] self.ots_scheme.seeded(node_seed(private@, 0), sk, public.0)
                && self.ots_scheme.is_signature(self.children_hash(private@, 0), sk, public.1)
    }

    open spec fn is_signature(&self, msg: Seq<u8>, private: U256, sig: Signature<O>) -> bool {
        let h = self.tree_height as nat;
        let leaf = sig.leaf_idx as nat;
        &&& pow2(h) - 1 <= leaf < pow2(h + 1) - 1
        &&& sig.path@.len() == h
        &&& forall|j: int| 0 <= j < h ==> self.entry_ok(msg, private@, leaf, j as nat, #[trigger] sig.path@[j])
        &&& forall|j: int| 1 <= j <= h ==> #[trigger] self.level_msg(msg, private@, leaf, j as nat).len() == 32
    }

    open spec fn accepts(&self, msg: Seq<u8>, public: (O::Public, O::Signature), sig: Signature<O>) -> bool {
        let leaf = sig.leaf_idx as nat;
        let path = sig.path@;
        &&& forall|j: nat| j < path.len() ==> #[trigger] self.entry_accepted(msg, leaf, path, j)
        &&& self.ots_scheme.accepts(self.verify_msg(msg, path, path.len()), public.0, public.1)
    }

    fn public_bytes(&self, public: &(O::Public, O::Signature)) -> (r: Vec<u8>) {
        self.ots_scheme.public_bytes(&public.0)
    }

    fn gen_keys(&self, seed: Option<U256>) -> (r: (U256, (O::Public, O::Signature))) {
        let private = match seed {
            Some(s) => s,
            None => os_seed(),
        };
        let root = self.get_node(private, 0);
        let left = self.get_node(private, 1);
        let right = self.get_node(private, 2);
        let left_bytes = self.ots_scheme.public_bytes(&left.1);
        let right_bytes = self.ots_scheme.public_bytes(&right.1);
        let hash = hash_pair(left_bytes.as_slice(), right_bytes.as_slice());
        assert(hash@ == self.children_hash(private@, 0));
        let sig = self.ots_scheme.sign(hash.as_bytes(), &root.0);
        let public = (root.1, sig);
        assert(self.ots_scheme.seeded(node_seed(private@, 0), root.0, public.0));
        (private, public)
    }

    fn sign(&self, msg: &[u8], private: &U256) -> (sig: Signature<O>) {
        let random = os_seed();
        let mut head: Vec<u8> = Vec::new();
        append_bytes(&mut head, random.as_bytes());
        head.truncate(16);
        let acc = le_u128(head.as_slice());
        proof {
            lemma_pow2_pos(self.tree_height as nat);
            lemma_pow2_unfold((self.tree_height + 1) as nat);
        }
        let num_leaves = pow2_u128(self.tree_height);
        self.sign_at(msg, private, acc % num_leaves)
    }

    fn verify(&self, msg: &[u8], public: &(O::Public, O::Signature), sig: &Signature<O>) -> (r: bool) {
        let mut hash: Vec<u8> = Vec::new();
        append_bytes(&mut hash, msg);
        assert(hash@ =~= msg@);
        let ghost leaf = sig.leaf_idx as nat;
        let mut idx = sig.leaf_idx;
        let mut j: usize = 0;
        while j < sig.path.len()
            invariant
                self.valid(),
                0 <= j <= sig.path@.len(),
                idx == ancestor(leaf, j as nat),
                leaf == sig.leaf_idx as nat,
                hash@ == self.verify_msg(msg@, sig.path@, j as nat),
                forall|t: nat| t < j ==> #[trigger] self.entry_accepted(msg@, leaf, sig.path@, t),
            decreases sig.path@.len() - j,
        {
            let entry = &sig.path[j];
            if idx == 0 {
                assert(!self.entry_accepted(msg@, leaf, sig.path@, j as nat));
                return false;
            }
            let node = if idx % 2 == 0 {
                &entry.1
            } else {
                &entry.0
            };
            if !self.ots_scheme.verify(hash.as_slice(), node, &entry.2) {
                assert(!self.entry_accepted(msg@, leaf, sig.path@, j as nat));
                return false;
            }
            assert(self.entry_accepted(msg@, leaf, sig.path@, j as nat));
            let left_bytes = self.ots_scheme.public_bytes(&entry.0);
            let right_bytes = self.ots_scheme.public_bytes(&entry.1);
            let next = hash_pair(left_bytes.as_slice(), right_bytes.as_slice());
            hash = Vec::new();
            append_bytes(&mut hash, next.as_bytes());
            assert(hash@ =~= next@);
            idx = (idx - 1) / 2;
            j = j + 1;
        }
        self.ots_scheme.verify(hash.as_slice(), &public.0, &public.1)
    }

    proof fn lemma_seeded(&self, seed: Seq<u8>, private: U256, public: (O::Public, O::Signature)) {
        let sk = choose|sk: O::Private|
            #[trigger] self.ots_scheme.seeded(node_seed(private@, 0), sk, public.0)
                && self.ots_scheme.is_signature(self.children_hash(private@, 0), sk, public.1);
        self.ots_scheme.lemma_seeded(node_seed(private@, 0), sk, public.0);
    }

    proof fn lemma_correct(&self, msg: Seq<u8>, private: U256, public: (O::Public, O::Signature), sig: Signature<O>) {
        let h = self.tree_height as nat;
        let sigma = private@;
        let leaf = sig.leaf_idx as nat;
        let path = sig.path@;
        assert forall|j: nat| j < path.len() implies #[trigger] self.entry_accepted(msg, leaf, path, j) by {
            let n = ancestor(leaf, j);
            self.lemma_levels(msg, sigma, sig, j);
            lemma_parent_level(n, (h - j) as nat);
            let e = path[j as int];
            assert(self.entry_ok(msg, sigma, leaf, j, e));
            let sk = choose|sk: O::Private|
                #[trigger] self.ots_scheme.seeded(node_seed(sigma, n), sk, entry_node(n, e))
                    && self.ots_scheme.is_signature(self.level_msg(msg, sigma, leaf, j), sk, e.2);
            self.ots_scheme.lemma_seeded(node_seed(sigma, n), sk, entry_node(n, e));
            if j > 0 {
                assert(self.level_msg(msg, sigma, leaf, j).len() == 32);
            }
            self.ots_scheme.lemma_correct(self.level_msg(msg, sigma, leaf, j), sk, entry_node(n, e), e.2);
        }
        self.lemma_levels(msg, sigma, sig, h);
        lemma2_to64();
        assert(ancestor(leaf, h) == 0);
        let sk = choose|sk: O::Private|
            #[trigger] self.ots_scheme.seeded(node_seed(sigma, 0), sk, public.0)
                && self.ots_scheme.is_signature(self.children_hash(sigma, 0), sk, public.1);
        self.ots_scheme.lemma_seeded(node_seed(sigma, 0), sk, public.0);
        self.ots_scheme.lemma_correct(self.children_hash(sigma, 0), sk, public.0, public.1);
    }
}

impl<O: SignatureScheme> Goldreich<O> {
    /// Up to level `j`, the messages that verification recomputes are the
    /// ones that were signed, and the nodes lie on the expected levels.
    proof fn lemma_levels(&self, msg: Seq<u8>, sigma: Seq<u8>, sig: Signature<O>, j: nat)
        requires
            self.valid(),
            pow2(self.tree_height as nat) - 1 <= sig.leaf_idx < pow2((self.tree_height + 1) as nat) - 1,
            sig.path@.len() == self.tree_height,
            forall|t: int|
                0 <= t < self.tree_height ==> self.entry_ok(msg, sigma, sig.leaf_idx as nat, t as nat, #[trigger] sig.path@[t]),
            j <= self.tree_height,
        ensures
            self.verify_msg(msg, sig.path@, j) == self.level_msg(msg, sigma, sig.leaf_idx as nat, j),
            pow2((self.tree_height - j) as nat) - 1 <= ancestor(sig.leaf_idx as nat, j) < pow2(
                (self.tree_height - j + 1) as nat,
            ) - 1,
        decreases j,
    {
        let h = self.tree_height as nat;
        let leaf = sig.leaf_idx as nat;
        if j > 0 {
            let p = (j - 1) as nat;
            self.lemma_levels(msg, sigma, sig, p);
            let n = ancestor(leaf, p);
            lemma_parent_level(n, (h - p) as nat);
            let e = sig.path@[p as int];
            assert(self.entry_ok(msg, sigma, leaf, p, e));
            let sk = choose|sk: O::Private|
                #[trigger] self.ots_scheme.seeded(node_seed(sigma, n), sk, entry_node(n, e))
                    && self.ots_scheme.is_signature(self.level_msg(msg, sigma, leaf, p), sk, e.2);
            self.ots_scheme.lemma_seeded(node_seed(sigma, n), sk, entry_node(n, e));
            assert((h - p - 1) as nat == (h - j) as nat);
        }
    }
}

impl<O: SignatureScheme> Goldreich<O> {
    /// Key generation from a seed is pure in the private key and the root's
    /// public key; the root's signature is the one-time scheme's signature of
    /// the same message under the same key.
    pub proof fn lemma_deterministic(
        &self,
        seed: Seq<u8>,
        sk_a: U256,
        pk_a: (O::Public, O::Signature),
        sk_b: U256,
        pk_b: (O::Public, O::Signature),
    )
        requires
            self.valid(),
            self.seeded(seed, sk_a, pk_a),
            self.seeded(seed, sk_b, pk_b),
        ensures
            sk_a@ == sk_b@,
            self.ots_scheme.public_bytes_spec(pk_a.0) == self.ots_scheme.public_bytes_spec(pk_b.0),
    {
        self.lemma_seeded(seed, sk_a, pk_a);
        self.lemma_seeded(seed, sk_b, pk_b);
    }

    /// A signature carries exactly `tree_height` path entries.
    pub proof fn lemma_path_len(&self, msg: Seq<u8>, private: U256, sig: Signature<O>)
        requires
            self.is_signature(msg, private, sig),
        ensures
            sig.path@.len() == self.tree_height,
    {
    }

    /// The leaf a signature uses lies in `[2^h - 1, 2^(h+1) - 1)`.
    pub proof fn lemma_leaf_range(&self, msg: Seq<u8>, private: U256, sig: Signature<O>)
        requires
            self.is_signature(msg, private, sig),
        ensures
            pow2(self.tree_height as nat) - 1 <= sig.leaf_idx < pow2((self.tree_height + 1) as nat) - 1,
    {
    }
}

} // verus!
