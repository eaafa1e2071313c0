use vstd::prelude::*;
use vstd::arithmetic::power2::{pow2, lemma2_to64, lemma_pow2_adds, lemma_pow2_pos};

use crate::hash::{hash, hash_pair, hash_pair_spec, sha256_of, sha512, sha512_of};
use crate::merkle::{Merkle, Signature as MerkleSignature};
use crate::radix::{le_nat, le_u128};
use crate::rng::{os_seed, std_rng_bytes, std_rng_stream};
use crate::u256::U256;
use crate::util::{append_bytes, bytes_equal, div_up, le_bytes, le_bytes_spec, pow2_u128};
use crate::SignatureScheme;

verus! {

/// `x` divided by `b`, `j` times over.
pub open spec fn div_iter(x: nat, b: nat, j: nat) -> nat
    decreases j,
{
    if j == 0 {
        x
    } else {
        div_iter(x, b, (j - 1) as nat) / b
    }
}

/// After `j` divisions by `2^h`, a number below `2^(h·d)` is below
/// `2^(h·(d - j))`.
proof fn lemma_div_iter_bound(x: nat, h: nat, d: nat, j: nat)
    requires
        x < pow2(h * d),
        j <= d,
    ensures
        div_iter(x, pow2(h), j) < pow2(h * (d - j) as nat),
    decreases j,
{
    if j == 0 {
        assert(d - 0 == d);
    } else {
        let p = (j - 1) as nat;
        lemma_div_iter_bound(x, h, d, p);
        let v = div_iter(x, pow2(h), p);
        let rest = (h * (d - j)) as nat;
        assert(h * (d - p) == h + rest) by (nonlinear_arith)
            requires
                p + 1 == j,
                j <= d,
                rest == h * (d - j),
        ;
        lemma_pow2_adds(h, rest);
        lemma_pow2_pos(h);
        assert(v / pow2(h) < pow2(rest)) by (nonlinear_arith)
            requires
                v < pow2(h) * pow2(rest),
                pow2(h) > 0,
        ;
    }
}

/// After `d` divisions by `2^h`, a number below `2^(h·d)` is zero.
proof fn lemma_div_iter_zero(x: nat, h: nat, d: nat)
    requires
        x < pow2(h * d),
    ensures
        div_iter(x, pow2(h), d) == 0,
{
    lemma_div_iter_bound(x, h, d, d);
    assert(h * (d - d) == 0) by (nonlinear_arith);
    lemma2_to64();
}

/// A SPHINCS signature: the few-time key pair's public key and its
/// signature of the transformed message, one (subtree root, Merkle
/// signature) pair per layer from the bottom up, and the per-message
/// randomness.
pub struct Signature<O: SignatureScheme, F: SignatureScheme> {
    pub fts_public: F::Public,
    pub fts_sig: F::Signature,
    pub path: Vec<(U256, MerkleSignature<O>)>,
    pub random: U256,
}

/// The SPHINCS stateless many-time signature: a hypertree of `depth`
/// layers of Merkle trees of height `sub_tree_height` over the one-time
/// scheme, whose bottom leaves are few-time key pairs.
pub struct Sphincs<O, F> {
    pub depth: usize,
    pub sub_tree_height: usize,
    pub idx_len: usize,
    pub merkle: Merkle<O>,
    pub fts_scheme: F,
}

impl<O: SignatureScheme, F: SignatureScheme> Sphincs<O, F> {
    /// The number of index bits: `depth · sub_tree_height`.
    pub open spec fn tree_bits(&self) -> nat {
        (self.depth * self.sub_tree_height) as nat
    }

    /// `SHA-256(σ ‖ idx as idx_len bytes ‖ depth as 8 bytes)`, little-endian.
    pub open spec fn subtree_seed(&self, sigma: Seq<u8>, depth: nat, idx: nat) -> Seq<u8> {
        sha256_of(sigma + le_bytes_spec(idx, self.idx_len as nat) + le_bytes_spec(depth, 8))
    }

    /// `hash_pair(σ, idx as idx_len little-endian bytes)`.
    pub open spec fn fts_seed(&self, sigma: Seq<u8>, idx: nat) -> Seq<u8> {
        hash_pair_spec(sigma, le_bytes_spec(idx, self.idx_len as nat))
    }

    /// The 48 bytes that decide a signature's leaf and randomness: a
    /// generator seeded with `SHA-256(msg ‖ sk2)`.
    pub open spec fn selection(&self, msg: Seq<u8>, sk2: Seq<u8>) -> Seq<u8> {
        std_rng_stream(sha256_of(msg + sk2), 48)
    }

    /// The few-time leaf that signs `msg`.
    pub open spec fn fts_index(&self, msg: Seq<u8>, sk2: Seq<u8>) -> nat {
        le_nat(self.selection(msg, sk2).subrange(0, 16)) % pow2(self.tree_bits())
    }

    /// The randomness `R` of the signature of `msg`.
    pub open spec fn randomness(&self, msg: Seq<u8>, sk2: Seq<u8>) -> Seq<u8> {
        self.selection(msg, sk2).subrange(16, 48)
    }

    /// The payload the few-time scheme signs: `SHA-512(R ‖ msg)`.
    pub open spec fn payload(&self, msg: Seq<u8>, random: Seq<u8>) -> Seq<u8> {
        sha512_of(random + msg)
    }

    /// The index of the subtree at layer `j` above the few-time leaf.
    pub open spec fn tree_index(&self, fts_idx: nat, j: nat) -> nat {
        div_iter(fts_idx, pow2(self.sub_tree_height as nat), j + 1)
    }

    /// The leaf within the subtree at layer `j`.
    pub open spec fn sub_index(&self, fts_idx: nat, j: nat) -> nat {
        div_iter(fts_idx, pow2(self.sub_tree_height as nat), j) % pow2(self.sub_tree_height as nat)
    }

    /// The message that layer `j` signs: the few-time public key at the
    /// bottom, above it the root of the subtree below.
    pub open spec fn layer_msg(&self, sig: Signature<O, F>, j: nat) -> Seq<u8> {
        if j == 0 {
            self.fts_scheme.public_bytes_spec(sig.fts_public)
        } else {
            sig.path@[j - 1].0@
        }
    }

    /// Layer `j` of a signature made with `sk1` at few-time leaf `fts_idx`.
    pub open spec fn layer_ok(&self, sk1: Seq<u8>, fts_idx: nat, sig: Signature<O, F>, j: nat) -> bool {
        let seed = self.subtree_seed(sk1, j, self.tree_index(fts_idx, j));
        let entry = sig.path@[j as int];
        &&& entry.0@ == self.merkle.seeded_public(seed)
        &&& exists|mp: (U256, usize)|
            #[trigger] self.merkle.is_signature(self.layer_msg(sig, j), mp, entry.1) && mp.0@
                == std_rng_stream(seed, 32) && mp.1 == self.sub_index(fts_idx, j)
    }

    /// Verification accepts layer `j`.
    pub open spec fn layer_accepted(&self, sig: Signature<O, F>, j: nat) -> bool {
        self.merkle.accepts(self.layer_msg(sig, j), sig.path@[j as int].0, sig.path@[j as int].1)
    }

    pub fn new(depth: usize, sub_tree_height: usize, ots_scheme: O, fts_scheme: F) -> (r: Self)
        requires
            depth >= 1,
            sub_tree_height < 64,
            pow2(sub_tree_height as nat) <= usize::MAX,
            depth * sub_tree_height < 128,
            ots_scheme.valid(),
            ots_scheme.signable(32),
            ots_scheme.signable(fts_scheme.public_len()),
            fts_scheme.valid(),
            fts_scheme.signable(64),
        ensures
            r.depth == depth,
            r.sub_tree_height == sub_tree_height,
            r.idx_len == (depth * sub_tree_height + 1 + 7) / 8,
            r.merkle.tree_height == sub_tree_height,
            r.merkle.ots_scheme == ots_scheme,
            r.fts_scheme == fts_scheme,
            r.valid(),
    {
        let idx_len = div_up(depth * sub_tree_height + 1, 8);
        let merkle = Merkle::new(sub_tree_height, ots_scheme);
        Self { depth, sub_tree_height, idx_len, merkle, fts_scheme }
    }

    /// The Merkle private seed and root of the subtree at layer `depth`,
    /// index `idx`.
    fn get_sub_tree_keys(&self, private: U256, depth: usize, idx: u128) -> (r: (U256, U256))
        requires
            self.valid(),
        ensures
            r.0@ == std_rng_stream(self.subtree_seed(private@, depth as nat, idx as nat), 32),
            r.1@ == self.merkle.seeded_public(self.subtree_seed(private@, depth as nat, idx as nat)),
    {
        let mut buf: Vec<u8> = Vec::new();
        append_bytes(&mut buf, private.as_bytes());
        let idx_bytes = le_bytes(idx, self.idx_len);
        append_bytes(&mut buf, idx_bytes.as_slice());
        let depth_bytes = le_bytes(depth as u128, 8);
        append_bytes(&mut buf, depth_bytes.as_slice());
        let tree_seed = hash(buf.as_slice());
        let (mp, public) = self.merkle.gen_keys(Some(tree_seed));
        (mp.0, public)
    }

    /// The payload the few-time scheme signs: `SHA-512(random ‖ msg)`.
    pub fn transform_msg(&self, msg: &[u8], random: &U256) -> (r: Vec<u8>)
        ensures
            r@ == self.payload(msg@, random@),
            r@.len() == 64,
    {
        let mut buf: Vec<u8> = Vec::new();
        append_bytes(&mut buf, random.as_bytes());
        append_bytes(&mut buf, msg);
        assert(buf@ =~= random@ + msg@);
        sha512(buf.as_slice())
    }

    /// The few-time key pair at leaf `idx`.
    fn get_fts_keys(&self, private: U256, idx: u128) -> (r: (F::Private, F::Public))
        requires
            self.valid(),
        ensures
            self.fts_scheme.seeded(self.fts_seed(private@, idx as nat), r.0, r.1),
            self.fts_scheme.private_ok(r.0),
            self.fts_scheme.public_bytes_spec(r.1).len() == self.fts_scheme.public_len(),
    {
        let idx_bytes = le_bytes(idx, self.idx_len);
        let seed = hash_pair(private.as_bytes(), idx_bytes.as_slice());
        let r = self.fts_scheme.gen_keys(Some(seed));
        proof {
            self.fts_scheme.lemma_seeded(seed@, r.0, r.1);
        }
        r
    }
}

impl<O: SignatureScheme, F: SignatureScheme> SignatureScheme for Sphincs<O, F> {
    type Private = (U256, U256);
    type Public = U256;
    type Signature = Signature<O, F>;

    open spec fn valid(&self) -> bool {
        &&& self.depth >= 1
        &&& self.merkle.tree_height == self.sub_tree_height
        &&& self.merkle.valid()
        &&& self.tree_bits() < 128
        &&& self.idx_len <= 17
        &&& self.merkle.ots_scheme.signable(32)
        &&& self.merkle.ots_scheme.signable(self.fts_scheme.public_len())
        &&& self.fts_scheme.valid()
        &&& self.fts_scheme.signable(64)
    }

    open spec fn signable(&self, len: nat) -> bool {
        true
    }

    open spec fn private_ok(&self, private: (U256, U256)) -> bool {
        true
    }

    open spec fn public_len(&self) -> nat {
        32
    }

    open spec fn public_bytes_spec(&self, public: U256) -> Seq<u8> {
        public@
    }

    open spec fn seeded_public(&self, seed: Seq<u8>) -> Seq<u8> {
        self.merkle.seeded_public(
            self.subtree_seed(std_rng_stream(seed, 64).subrange(0, 32), (self.depth - 1) as nat, 0),
        )
    }

    open spec fn seeded(&self, seed: Seq<u8>, private: (U256, U256), public: U256) -> bool {
        &&& private.0@ == std_rng_stream(seed, 64).subrange(0, 32)
        &&& private.1@ == std_rng_stream(seed, 64).subrange(32, 64)
        &&& self.key_pair(private, public)
    }

    open spec fn key_pair(&self, private: (U256, U256), public: U256) -> bool {
        public@ == self.merkle.seeded_public(self.subtree_seed(private.0@, (self.depth - 1) as nat, 0))
    }

    open spec fn is_signature(&self, msg: Seq<u8>, private: (U256, U256), sig: Signature<O, F>) -> bool {
        let fts_idx = self.fts_index(msg, private.1@);
        let random = self.randomness(msg, private.1@);
        &&& sig.random@ == random
        &&& self.payload(msg, random).len() == 64
        &&& exists|fsk: F::Private|
            #[trigger] self.fts_scheme.seeded(self.fts_seed(private.0@, fts_idx), fsk, sig.fts_public)
                && self.fts_scheme.is_signature(self.payload(msg, random), fsk, sig.fts_sig)
        &&& sig.path@.len() == self.depth
        &&& forall|j: nat| j < self.depth ==> #[trigger] self.layer_ok(private.0@, fts_idx, sig, j)
    }

    open spec fn accepts(&self, msg: Seq<u8>, public: U256, sig: Signature<O, F>) -> bool {
        &&& self.fts_scheme.accepts(self.payload(msg, sig.random@), sig.fts_public, sig.fts_sig)
        &&& forall|j: nat| j < sig.path@.len() ==> #[trigger] self.layer_accepted(sig, j)
        &&& self.layer_msg(sig, sig.path@.len()) == public@
    }

    fn public_bytes(&self, public: &U256) -> (r: Vec<u8>) {
        let mut out: Vec<u8> = Vec::new();
        append_bytes(&mut out, public.as_bytes());
        out
    }

    fn gen_keys(&self, seed: Option<U256>) -> (r: ((U256, U256), U256)) {
        let seed = match seed {
            Some(s) => s,
            None => os_seed(),
        };
        let bytes = std_rng_bytes(&seed, 64);
        let sk1 = U256::from_slice_at(bytes.as_slice(), 0);
        let sk2 = U256::from_slice_at(bytes.as_slice(), 32);
        let public = self.get_sub_tree_keys(sk1, self.depth - 1, 0).1;
        ((sk1, sk2), public)
    }

    fn sign(&self, msg: &[u8], private: &(U256, U256)) -> (sig: Signature<O, F>) {
        let sk1 = private.0;
        let sk2 = private.1;
        let mut buf: Vec<u8> = Vec::new();
        append_bytes(&mut buf, msg);
        append_bytes(&mut buf, sk2.as_bytes());
        let select_seed = hash(buf.as_slice());
        let selection = std_rng_bytes(&select_seed, 48);
        let mut head: Vec<u8> = Vec::new();
        let mut i: usize = 0;
        while i < 16
            invariant
                selection@.len() == 48,
                0 <= i <= 16,
                head@ == selection@.subrange(0, i as int),
            decreases 16 - i,
        {
            head.push(selection[i]);
            i = i + 1;
            assert(head@ =~= selection@.subrange(0, i as int));
        }
        let raw = le_u128(head.as_slice());
        proof {
            crate::util::lemma_pow2_u128(self.tree_bits());
            lemma_pow2_pos(self.tree_bits());
        }
        let num_leaves = pow2_u128(self.depth * self.sub_tree_height);
        let fts_idx = raw % num_leaves;
        let random = U256::from_slice_at(selection.as_slice(), 16);
        let payload = self.transform_msg(msg, &random);
        assert(buf@ =~= msg@ + sk2@);
        assert(fts_idx == self.fts_index(msg@, private.1@));
        let (fts_private, fts_public) = self.get_fts_keys(sk1, fts_idx);
        let fts_sig = self.fts_scheme.sign(payload.as_slice(), &fts_private);
        let mut node = self.fts_scheme.public_bytes(&fts_public);
        let h = self.sub_tree_height;
        proof {
            crate::util::lemma_pow2_u128(h as nat);
        }
        let sub_leaves = pow2_u128(h);
        proof {
            assert(h <= self.tree_bits()) by (nonlinear_arith)
                requires
                    self.depth >= 1,
                    self.tree_bits() == self.depth * h,
            ;
            lemma_pow2_pos(h as nat);
        }
        let mut path: Vec<(U256, MerkleSignature<O>)> = Vec::new();
        let mut idx = fts_idx;
        let mut depth: usize = 0;
        while depth < self.depth
            invariant
                self.valid(),
                h == self.sub_tree_height,
                sub_leaves == pow2(h as nat),
                sub_leaves > 0,
                idx == div_iter(fts_idx as nat, pow2(h as nat), depth as nat),
                0 <= depth <= self.depth,
                path@.len() == depth,
                self.merkle.ots_scheme.signable(node@.len()),
                node@ == (if depth == 0 {
                    self.fts_scheme.public_bytes_spec(fts_public)
                } else {
                    path@[depth - 1].0@
                }),
                forall|j: nat|
                    j < depth ==> #[trigger] self.layer_ok(
                        sk1@,
                        fts_idx as nat,
                        Signature::<O, F> { fts_public, fts_sig, path, random },
                        j,
                    ),
            decreases self.depth - depth,
        {
            let sub_idx = (idx % sub_leaves) as usize;
            idx = idx / sub_leaves;
            let (tree_private, tree_public) = self.get_sub_tree_keys(sk1, depth, idx);
            let tree_sig = self.merkle.sign(node.as_slice(), &(tree_private, sub_idx));
            let ghost old_sig = Signature::<O, F> { fts_public, fts_sig, path, random };
            let ghost seed = self.subtree_seed(sk1@, depth as nat, idx as nat);
            proof {
                assert(idx == self.tree_index(fts_idx as nat, depth as nat));
                assert(sub_idx == self.sub_index(fts_idx as nat, depth as nat));
            }
            path.push((tree_public, tree_sig));
            proof {
                let s = Signature::<O, F> { fts_public, fts_sig, path, random };
                assert(s.path@[depth as int] == (tree_public, tree_sig));
                if depth > 0 {
                    assert(s.path@[depth - 1] == old_sig.path@[depth - 1]);
                }
                assert(self.layer_msg(s, depth as nat) == node@);
                assert(self.merkle.is_signature(self.layer_msg(s, depth as nat), (tree_private, sub_idx), s.path@[depth as int].1));
                assert(self.layer_ok(sk1@, fts_idx as nat, s, depth as nat));
                assert forall|j: nat| j < depth + 1 implies #[trigger] self.layer_ok(sk1@, fts_idx as nat, s, j) by {
                    if j < depth {
                        assert(self.layer_ok(sk1@, fts_idx as nat, old_sig, j));
                        assert(s.path@[j as int] == old_sig.path@[j as int]);
                        if j > 0 {
                            assert(s.path@[j - 1] == old_sig.path@[j - 1]);
                        }
                        assert(self.layer_msg(s, j) == self.layer_msg(old_sig, j));
                    }
                }
            }
            node = Vec::new();
            append_bytes(&mut node, tree_public.as_bytes());
            depth = depth + 1;
        }
        let sig = Signature { fts_public, fts_sig, path, random };
        proof {
            assert(random@ == self.randomness(msg@, private.1@));
            assert(payload@ == self.payload(msg@, random@));
            assert(self.fts_scheme.seeded(self.fts_seed(private.0@, fts_idx as nat), fts_private, sig.fts_public));
            assert(self.fts_scheme.is_signature(self.payload(msg@, random@), fts_private, sig.fts_sig));
        }
        sig
    }

    fn verify(&self, msg: &[u8], public: &U256, sig: &Signature<O, F>) -> (r: bool) {
        let payload = self.transform_msg(msg, &sig.random);
        if !self.fts_scheme.verify(payload.as_slice(), &sig.fts_public, &sig.fts_sig) {
            return false;
        }
        let mut node = self.fts_scheme.public_bytes(&sig.fts_public);
        let mut j: usize = 0;
        while j < sig.path.len()
            invariant
                self.valid(),
                0 <= j <= sig.path@.len(),
                node@ == self.layer_msg(*sig, j as nat),
                forall|t: nat| t < j ==> #[trigger] self.layer_accepted(*sig, t),
            decreases sig.path@.len() - j,
        {
            let entry = &sig.path[j];
            if !self.merkle.verify(node.as_slice(), &entry.0, &entry.1) {
                assert(!self.layer_accepted(*sig, j as nat));
                return false;
            }
            node = Vec::new();
            append_bytes(&mut node, entry.0.as_bytes());
            j = j + 1;
        }
        bytes_equal(node.as_slice(), public.as_bytes())
    }

    proof fn lemma_seeded(&self, seed: Seq<u8>, private: (U256, U256), public: U256) {
    }

    proof fn lemma_correct(&self, msg: Seq<u8>, private: (U256, U256), public: U256, sig: Signature<O, F>) {
        let fts_idx = self.fts_index(msg, private.1@);
        let random = self.randomness(msg, private.1@);
        let fsk = choose|fsk: F::Private|
            #[trigger] self.fts_scheme.seeded(self.fts_seed(private.0@, fts_idx), fsk, sig.fts_public)
                && self.fts_scheme.is_signature(self.payload(msg, random), fsk, sig.fts_sig);
        self.fts_scheme.lemma_seeded(self.fts_seed(private.0@, fts_idx), fsk, sig.fts_public);
        self.fts_scheme.lemma_correct(self.payload(msg, random), fsk, sig.fts_public, sig.fts_sig);
        assert forall|j: nat| j < sig.path@.len() implies #[trigger] self.layer_accepted(sig, j) by {
            assert(self.layer_ok(private.0@, fts_idx, sig, j));
            let seed = self.subtree_seed(private.0@, j, self.tree_index(fts_idx, j));
            let mp = choose|mp: (U256, usize)|
                #[trigger] self.merkle.is_signature(self.layer_msg(sig, j), mp, sig.path@[j as int].1)
                    && mp.0@ == std_rng_stream(seed, 32) && mp.1 == self.sub_index(fts_idx, j);
            lemma_pow2_pos(self.sub_tree_height as nat);
            if j > 0 {
                assert(sig.path@[j - 1].0@.len() == 32);
            }
            self.merkle.lemma_correct(self.layer_msg(sig, j), mp, sig.path@[j as int].0, sig.path@[j as int].1);
        }
        let d = self.depth as nat;
        assert(self.layer_ok(private.0@, fts_idx, sig, (d - 1) as nat));
        lemma_pow2_pos(self.tree_bits());
        assert(self.tree_bits() == self.sub_tree_height * d) by (nonlinear_arith)
            requires
                self.tree_bits() == self.depth * self.sub_tree_height,
                d == self.depth,
        ;
        lemma_div_iter_zero(fts_idx, self.sub_tree_height as nat, d);
        assert((d - 1) as nat + 1 == d);
    }
}

impl<O: SignatureScheme, F: SignatureScheme> Sphincs<O, F> {
    /// Key generation from a seed is pure: two key pairs from one seed are
    /// byte-identical.
    pub proof fn lemma_deterministic(
        &self,
        seed: Seq<u8>,
        sk_a: (U256, U256),
        pk_a: U256,
        sk_b: (U256, U256),
        pk_b: U256,
    )
        requires
            self.seeded(seed, sk_a, pk_a),
            self.seeded(seed, sk_b, pk_b),
        ensures
            sk_a.0@ == sk_b.0@,
            sk_a.1@ == sk_b.1@,
            pk_a@ == pk_b@,
    {
    }

    /// A signature carries exactly `depth` layers.
    pub proof fn lemma_path_len(&self, msg: Seq<u8>, private: (U256, U256), sig: Signature<O, F>)
        requires
            self.is_signature(msg, private, sig),
        ensures
            sig.path@.len() == self.depth,
    {
    }
}

} // verus!
