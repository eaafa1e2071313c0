use vstd::prelude::*;
use vstd::arithmetic::power2::{pow2, lemma2_to64, lemma_pow2_unfold, lemma_pow2_adds, lemma_pow2_pos, lemma_pow2_strictly_increases};

use crate::hash::{hash, hash_pair, hash_pair_spec, sha256_of};
use crate::radix::{le_nat, low_digits, low_digits_spec, lemma_low_digits_bound, lemma_low_digits_len};
use crate::rng::{os_seed, std_rng_bytes, std_rng_stream};
use crate::tree::{fold_path, fold_path_exec, is_hash_tree, lemma_fold_path, lemma_shr_bound, shr, sibling};
use crate::u256::{words, U256};
use crate::util::{floored_log, log2_spec, pow2_usize};
use crate::SignatureScheme;

verus! {

/// Node `idx` at level `lvl` (leaves at level 0) of the hash tree over the
/// leaf secrets `sk`.
pub open spec fn hnode(sk: Seq<Seq<u8>>, lvl: nat, idx: nat) -> Seq<u8>
    decreases lvl,
{
    if lvl == 0 {
        sha256_of(sk[idx as int])
    } else {
        hash_pair_spec(hnode(sk, (lvl - 1) as nat, 2 * idx), hnode(sk, (lvl - 1) as nat, 2 * idx + 1))
    }
}

/// Node `idx` at `lvl` levels above the top nodes `top`.
pub open spec fn rnode(top: Seq<Seq<u8>>, lvl: nat, idx: nat) -> Seq<u8>
    decreases lvl,
{
    if lvl == 0 {
        top[idx as int]
    } else {
        hash_pair_spec(rnode(top, (lvl - 1) as nat, 2 * idx), rnode(top, (lvl - 1) as nat, 2 * idx + 1))
    }
}

/// The `n` leaf secrets that `seed` yields.
pub open spec fn leaves_spec(seed: Seq<u8>, n: nat) -> Seq<Seq<u8>> {
    let s = std_rng_stream(seed, 32 * n);
    Seq::new(n, |i: int| s.subrange(32 * i, 32 * i + 32))
}

proof fn lemma_hnode_tree(sk: Seq<Seq<u8>>, levels: nat)
    ensures
        is_hash_tree(|l: nat, i: nat| hnode(sk, l, i), levels),
{
    let node = |l: nat, i: nat| hnode(sk, l, i);
    assert forall|l: nat, i: nat| l < levels implies #[trigger] node(l + 1, i) == hash_pair_spec(
        node(l, 2 * i),
        node(l, 2 * i + 1),
    ) by {
        assert(hnode(sk, l + 1, i) == hash_pair_spec(hnode(sk, l, 2 * i), hnode(sk, l, 2 * i + 1)));
    }
}

/// Hashing up from top nodes that are the tree's nodes at level `base`
/// gives the tree's nodes above them.
proof fn lemma_rnode(sk: Seq<Seq<u8>>, top: Seq<Seq<u8>>, base: nat, lvl: nat, idx: nat)
    requires
        forall|i: int| 0 <= i < top.len() ==> #[trigger] top[i] == hnode(sk, base, i as nat),
        (idx + 1) * pow2(lvl) <= top.len(),
    ensures
        rnode(top, lvl, idx) == hnode(sk, base + lvl, idx),
    decreases lvl,
{
    if lvl > 0 {
        let p = (lvl - 1) as nat;
        lemma_pow2_unfold(lvl);
        assert((2 * idx + 2) * pow2(p) == (idx + 1) * pow2(lvl)) by (nonlinear_arith)
            requires
                pow2(lvl) == 2 * pow2(p),
        ;
        assert((2 * idx + 1) * pow2(p) <= (2 * idx + 2) * pow2(p)) by (nonlinear_arith);
        lemma_rnode(sk, top, base, p, 2 * idx);
        lemma_rnode(sk, top, base, p, 2 * idx + 1);
        assert(base + lvl == (base + p) + 1);
    } else {
        lemma2_to64();
    }
}

/// One leaf's part of a HORST signature: its secret and the authentication
/// path from it up to the top nodes.
pub struct Signature {
    pub sk: U256,
    pub path: Vec<U256>,
}

/// The HORST few-time signature: a hash tree of height `height` over
/// `num_leaves = 2^height` secrets, `k` of which a signature reveals, with
/// the `2^x` nodes at height `height - x` sent in full.
pub struct Horst {
    pub height: usize,
    pub num_leaves: usize,
    pub x: usize,
    pub k: usize,
}

impl Horst {
    pub fn new(height: usize, k: usize) -> (r: Self)
        requires
            k >= 1,
            log2_spec(k as nat) + 1 <= height < 64,
            32 * pow2(height as nat) <= usize::MAX,
        ensures
            r.height == height,
            r.k == k,
            r.num_leaves == pow2(height as nat),
            r.x == log2_spec(k as nat) + 1,
            r.valid(),
    {
        proof {
            lemma2_to64();
        }
        let num_leaves = pow2_usize(height);
        let x = floored_log(k) + 1;
        Self { height, num_leaves, x, k }
    }

    /// Node `idx` at level `height` (leaves at level 0) of the tree over
    /// `private`.
    pub fn get_node(private: &Vec<U256>, height: usize, idx: usize) -> (r: U256)
        requires
            height < 64,
            (idx + 1) * pow2(height as nat) <= private@.len(),
        ensures
            r@ == hnode(words(private@), height as nat, idx as nat),
        decreases height,
    {
        let n = private.len();
        proof {
            lemma2_to64();
        }
        if height == 0 {
            assert((idx + 1) * pow2(0) == idx + 1);
            return hash(private[idx].as_bytes());
        }
        proof {
            lemma_pow2_unfold(height as nat);
            lemma_pow2_pos((height - 1) as nat);
            let p = pow2((height - 1) as nat);
            assert((2 * idx + 2) * p == (idx + 1) * pow2(height as nat)) by (nonlinear_arith)
                requires
                    pow2(height as nat) == 2 * p,
            ;
            assert((2 * idx + 1) * p <= (2 * idx + 2) * p) by (nonlinear_arith);
            assert(2 * idx + 2 <= (2 * idx + 2) * p) by (nonlinear_arith)
                requires
                    p >= 1,
            ;
        }
        let left = Self::get_node(private, height - 1, idx * 2);
        let right = Self::get_node(private, height - 1, idx * 2 + 1);
        hash_pair(left.as_bytes(), right.as_bytes())
    }

    /// The authentication path of leaf `leaf_idx` up to the top nodes.
    fn get_path(&self, private: &Vec<U256>, leaf_idx: usize) -> (r: Vec<U256>)
        requires
            self.valid(),
            private@.len() == self.num_leaves,
            leaf_idx < self.num_leaves,
        ensures
            words(r@) == self.path_spec(words(private@), leaf_idx as nat),
    {
        let path_len = self.height - self.x;
        let mut path: Vec<U256> = Vec::new();
        let mut idx = leaf_idx;
        let mut height: usize = 0;
        while height < path_len
            invariant
                self.valid(),
                path_len == self.height - self.x,
                private@.len() == self.num_leaves,
                leaf_idx < self.num_leaves,
                0 <= height <= path_len,
                idx == shr(leaf_idx as nat, height as nat),
                path@.len() == height,
                forall|j: int|
                    0 <= j < height ==> (#[trigger] path@[j])@ == hnode(
                        words(private@),
                        j as nat,
                        sibling(shr(leaf_idx as nat, j as nat)),
                    ),
            decreases path_len - height,
        {
            let ghost a = (self.height - height) as nat;
            proof {
                assert(a + height == self.height);
                lemma_shr_bound(leaf_idx as nat, a, height as nat);
                lemma_pow2_unfold(a);
                lemma_pow2_adds(a, height as nat);
                assert(idx < pow2(a));
                let s = sibling(idx as nat);
                assert(s < pow2(a)) by {
                    assert(pow2(a) % 2 == 0);
                }
                assert((s + 1) * pow2(height as nat) <= pow2(a) * pow2(height as nat)) by (nonlinear_arith)
                    requires
                        s + 1 <= pow2(a),
                ;
            }
            let sibling_idx = if idx % 2 == 0 {
                idx + 1
            } else {
                idx - 1
            };
            path.push(Self::get_node(private, height, sibling_idx));
            idx = idx / 2;
            height = height + 1;
        }
        assert(words(path@) =~= self.path_spec(words(private@), leaf_idx as nat));
        path
    }

    /// The `k` leaf indices that `msg` selects.
    pub fn transform_msg(&self, msg: &[u8]) -> (r: Vec<usize>)
        requires
            self.valid(),
        ensures
            r@.len() == self.k,
            forall|j: int| 0 <= j < self.k ==> r@[j] as nat == #[trigger] self.indices_spec(msg@)[j],
    {
        low_digits(msg, self.height as u32, self.k)
    }

    /// The root of the tree above the top nodes.
    pub fn get_root_from_top_nodes(&self, top_nodes: &[U256]) -> (r: U256)
        requires
            self.valid(),
            top_nodes@.len() == pow2(self.x as nat),
        ensures
            r@ == rnode(words(top_nodes@), self.x as nat, 0),
    {
        proof {
            lemma2_to64();
        }
        Self::root_inner(top_nodes, self.x, 0)
    }

    fn root_inner(top_nodes: &[U256], lvl: usize, idx: usize) -> (r: U256)
        requires
            lvl < 64,
            (idx + 1) * pow2(lvl as nat) <= top_nodes@.len(),
        ensures
            r@ == rnode(words(top_nodes@), lvl as nat, idx as nat),
        decreases lvl,
    {
        let n = top_nodes.len();
        proof {
            lemma2_to64();
        }
        if lvl == 0 {
            assert((idx + 1) * pow2(0) == idx + 1);
            return top_nodes[idx];
        }
        proof {
            lemma_pow2_unfold(lvl as nat);
            lemma_pow2_pos((lvl - 1) as nat);
            let p = pow2((lvl - 1) as nat);
            assert((2 * idx + 2) * p == (idx + 1) * pow2(lvl as nat)) by (nonlinear_arith)
                requires
                    pow2(lvl as nat) == 2 * p,
            ;
            assert((2 * idx + 1) * p <= (2 * idx + 2) * p) by (nonlinear_arith);
            assert(2 * idx + 2 <= (2 * idx + 2) * p) by (nonlinear_arith)
                requires
                    p >= 1,
            ;
        }
        let left = Self::root_inner(top_nodes, lvl - 1, idx * 2);
        let right = Self::root_inner(top_nodes, lvl - 1, idx * 2 + 1);
        hash_pair(left.as_bytes(), right.as_bytes())
    }

    /// The indices that `msg` selects: its `k` lowest base-`height` digits
    /// as a little-endian number.
    pub open spec fn indices_spec(&self, msg: Seq<u8>) -> Seq<nat> {
        low_digits_spec(le_nat(msg), self.height as nat, self.k as nat)
    }

    /// The authentication path of leaf `m` up to the top nodes.
    pub open spec fn path_spec(&self, sk: Seq<Seq<u8>>, m: nat) -> Seq<Seq<u8>> {
        Seq::new((self.height - self.x) as nat, |j: int| hnode(sk, j as nat, sibling(shr(m, j as nat))))
    }

    /// The `2^x` nodes at height `height - x`.
    pub open spec fn top_spec(&self, sk: Seq<Seq<u8>>) -> Seq<Seq<u8>> {
        Seq::new(pow2(self.x as nat), |i: int| hnode(sk, (self.height - self.x) as nat, i as nat))
    }

    proof fn lemma_indices(&self, msg: Seq<u8>)
        requires
            self.valid(),
        ensures
            self.indices_spec(msg).len() == self.k,
            forall|j: int| 0 <= j < self.k ==> #[trigger] self.indices_spec(msg)[j] < self.height,
    {
        lemma_low_digits_len(le_nat(msg), self.height as nat, self.k as nat);
        lemma_low_digits_bound(le_nat(msg), self.height as nat, self.k as nat);
    }

    proof fn lemma_height_leaves(&self)
        requires
            self.valid(),
        ensures
            self.height < self.num_leaves,
            pow2(self.x as nat) <= self.num_leaves,
    {
        lemma_lt_pow2(self.height as nat);
        if self.x < self.height {
            lemma_pow2_strictly_increases(self.x as nat, self.height as nat);
        }
    }
}

proof fn lemma_lt_pow2(n: nat)
    ensures
        n < pow2(n),
    decreases n,
{
    lemma2_to64();
    if n > 0 {
        lemma_lt_pow2((n - 1) as nat);
        lemma_pow2_unfold(n);
    }
}

impl SignatureScheme for Horst {
    type Private = Vec<U256>;
    type Public = U256;
    type Signature = (Vec<Signature>, Vec<U256>);

    open spec fn valid(&self) -> bool {
        &&& 1 <= self.x <= self.height < 64
        &&& self.k >= 1
        &&& self.num_leaves == pow2(self.height as nat)
        &&& 32 * self.num_leaves <= usize::MAX
    }

    open spec fn signable(&self, len: nat) -> bool {
        8 * len <= self.k * self.height
    }

    open spec fn private_ok(&self, private: Vec<U256>) -> bool {
        private@.len() == self.num_leaves
    }

    open spec fn public_len(&self) -> nat {
        32
    }

    open spec fn public_bytes_spec(&self, public: U256) -> Seq<u8> {
        public@
    }

    open spec fn seeded_public(&self, seed: Seq<u8>) -> Seq<u8> {
        hnode(leaves_spec(seed, self.num_leaves as nat), self.height as nat, 0)
    }

    open spec fn seeded(&self, seed: Seq<u8>, private: Vec<U256>, public: U256) -> bool {
        &&& words(private@) == leaves_spec(seed, self.num_leaves as nat)
        &&& public@ == hnode(words(private@), self.height as nat, 0)
    }

    open spec fn key_pair(&self, private: Vec<U256>, public: U256) -> bool {
        public@ == hnode(words(private@), self.height as nat, 0)
    }

    open spec fn is_signature(&self, msg: Seq<u8>, private: Vec<U256>, sig: (Vec<Signature>, Vec<U256>)) -> bool {
        let sk = words(private@);
        let ms = self.indices_spec(msg);
        &&& sig.0@.len() == self.k
        &&& forall|j: int|
            0 <= j < self.k ==> {
                &&& (#[trigger] sig.0@[j]).sk@ == sk[ms[j] as int]
                &&& words(sig.0@[j].path@) == self.path_spec(sk, ms[j])
            }
        &&& words(sig.1@) == self.top_spec(sk)
    }

    open spec fn accepts(&self, msg: Seq<u8>, public: U256, sig: (Vec<Signature>, Vec<U256>)) -> bool {
        let ms = self.indices_spec(msg);
        let top = words(sig.1@);
        &&& sig.0@.len() == self.k
        &&& top.len() == pow2(self.x as nat)
        &&& forall|j: int|
            0 <= j < self.k ==> {
                let s = #[trigger] sig.0@[j];
                let path = words(s.path@);
                &&& path.len() == self.height - self.x
                &&& shr(ms[j], path.len()) < top.len()
                &&& fold_path(sha256_of(s.sk@), path, ms[j], path.len()) == top[shr(ms[j], path.len()) as int]
            }
        &&& rnode(top, self.x as nat, 0) == public@
    }

    fn public_bytes(&self, public: &U256) -> (r: Vec<u8>) {
        let mut out: Vec<u8> = Vec::new();
        crate::util::append_bytes(&mut out, public.as_bytes());
        out
    }

    fn gen_keys(&self, seed: Option<U256>) -> (r: (Vec<U256>, U256)) {
        let seed = match seed {
            Some(s) => s,
            None => os_seed(),
        };
        let bytes = std_rng_bytes(&seed, 32 * self.num_leaves);
        let mut private: Vec<U256> = Vec::new();
        let mut i: usize = 0;
        while i < self.num_leaves
            invariant
                self.valid(),
                bytes@ == std_rng_stream(seed@, 32 * self.num_leaves as nat),
                bytes@.len() == 32 * self.num_leaves,
                0 <= i <= self.num_leaves,
                private@.len() == i,
                forall|j: int|
                    0 <= j < i ==> (#[trigger] private@[j])@ == bytes@.subrange(32 * j, 32 * j + 32),
            decreases self.num_leaves - i,
        {
            private.push(U256::from_slice_at(bytes.as_slice(), 32 * i));
            i = i + 1;
        }
        assert(words(private@) =~= leaves_spec(seed@, self.num_leaves as nat));
        proof {
            lemma2_to64();
        }
        let public = Self::get_node(&private, self.height, 0);
        (private, public)
    }

    fn sign(&self, msg: &[u8], private: &Vec<U256>) -> (sig: (Vec<Signature>, Vec<U256>)) {
        let ms = self.transform_msg(msg);
        proof {
            self.lemma_indices(msg@);
            self.lemma_height_leaves();
        }
        let ghost sk = words(private@);
        let mut signature: Vec<Signature> = Vec::new();
        let mut j: usize = 0;
        while j < self.k
            invariant
                self.valid(),
                private@.len() == self.num_leaves,
                self.height < self.num_leaves,
                sk == words(private@),
                ms@.len() == self.k,
                forall|i: int| 0 <= i < self.k ==> ms@[i] as nat == #[trigger] self.indices_spec(msg@)[i],
                forall|i: int| 0 <= i < self.k ==> #[trigger] self.indices_spec(msg@)[i] < self.height,
                0 <= j <= self.k,
                signature@.len() == j,
                forall|i: int|
                    0 <= i < j ==> {
                        &&& (#[trigger] signature@[i]).sk@ == sk[self.indices_spec(msg@)[i] as int]
                        &&& words(signature@[i].path@) == self.path_spec(sk, self.indices_spec(msg@)[i])
                    },
            decreases self.k - j,
        {
            let m = ms[j];
            assert(m as nat == self.indices_spec(msg@)[j as int]);
            let path = self.get_path(private, m);
            signature.push(Signature { sk: private[m], path });
            j = j + 1;
        }
        let top_len = pow2_usize(self.x);
        let top_height = self.height - self.x;
        proof {
            lemma_pow2_adds(top_height as nat, self.x as nat);
            assert(top_height + self.x == self.height);
            assert(pow2(self.height as nat) == pow2(top_height as nat) * pow2(self.x as nat));
        }
        let mut top_nodes: Vec<U256> = Vec::new();
        let mut i: usize = 0;
        while i < top_len
            invariant
                self.valid(),
                private@.len() == self.num_leaves,
                sk == words(private@),
                top_len == pow2(self.x as nat),
                top_height == self.height - self.x,
                pow2(self.height as nat) == pow2(top_height as nat) * pow2(self.x as nat),
                0 <= i <= top_len,
                top_nodes@.len() == i,
                forall|t: int|
                    0 <= t < i ==> (#[trigger] top_nodes@[t])@ == hnode(sk, top_height as nat, t as nat),
            decreases top_len - i,
        {
            proof {
                assert((i + 1) * pow2(top_height as nat) <= pow2(self.height as nat))
                    by (nonlinear_arith)
                    requires
                        i + 1 <= pow2(self.x as nat),
                        pow2(self.height as nat) == pow2(top_height as nat) * pow2(self.x as nat),
                ;
            }
            top_nodes.push(Self::get_node(private, top_height, i));
            i = i + 1;
        }
        assert(words(top_nodes@) =~= self.top_spec(sk));
        (signature, top_nodes)
    }

    fn verify(&self, msg: &[u8], public: &U256, sig: &(Vec<Signature>, Vec<U256>)) -> (r: bool) {
        let ms = self.transform_msg(msg);
        proof {
            self.lemma_height_leaves();
        }
        let signature = &sig.0;
        let top_nodes = &sig.1;
        let top_len = pow2_usize(self.x);
        if signature.len() != self.k || top_nodes.len() != top_len {
            return false;
        }
        let path_len = self.height - self.x;
        let ghost top = words(top_nodes@);
        let mut j: usize = 0;
        while j < self.k
            invariant
                self.valid(),
                signature@ == sig.0@,
                top_nodes@ == sig.1@,
                top_len == pow2(self.x as nat),
                signature@.len() == self.k,
                top == words(top_nodes@),
                top_nodes@.len() == pow2(self.x as nat),
                path_len == self.height - self.x,
                ms@.len() == self.k,
                forall|i: int| 0 <= i < self.k ==> ms@[i] as nat == #[trigger] self.indices_spec(msg@)[i],
                0 <= j <= self.k,
                forall|i: int|
                    0 <= i < j ==> {
                        let s = #[trigger] signature@[i];
                        let path = words(s.path@);
                        let m = self.indices_spec(msg@)[i];
                        &&& path.len() == self.height - self.x
                        &&& shr(m, path.len()) < top.len()
                        &&& fold_path(sha256_of(s.sk@), path, m, path.len()) == top[shr(m, path.len()) as int]
                    },
            decreases self.k - j,
        {
            let s = &signature[j];
            assert(*s == sig.0@[j as int]);
            assert(words(s.path@).len() == s.path@.len());
            if s.path.len() != path_len {
                return false;
            }
            let leaf = hash(s.sk.as_bytes());
            let (node, idx) = fold_path_exec(leaf, s.path.as_slice(), ms[j]);
            assert(ms@[j as int] as nat == self.indices_spec(msg@)[j as int]);
            assert(words(s.path@).len() == s.path@.len());
            assert(idx == shr(self.indices_spec(msg@)[j as int], words(sig.0@[j as int].path@).len()));
            assert(top.len() == top_len);
            if idx >= top_len {
                return false;
            }
            if !node.equals(&top_nodes[idx]) {
                assert(top[idx as int] == top_nodes@[idx as int]@);
                return false;
            }
            j = j + 1;
        }
        let root = self.get_root_from_top_nodes(top_nodes.as_slice());
        root.equals(public)
    }

    proof fn lemma_seeded(&self, seed: Seq<u8>, private: Vec<U256>, public: U256) {
        assert(words(private@).len() == private@.len());
    }

    proof fn lemma_correct(&self, msg: Seq<u8>, private: Vec<U256>, public: U256, sig: (Vec<Signature>, Vec<U256>)) {
        let sk = words(private@);
        let ms = self.indices_spec(msg);
        let top = words(sig.1@);
        let node = |l: nat, i: nat| hnode(sk, l, i);
        let pl = (self.height - self.x) as nat;
        self.lemma_indices(msg);
        self.lemma_height_leaves();
        lemma_hnode_tree(sk, pl);
        assert forall|j: int| 0 <= j < self.k implies {
            let s = #[trigger] sig.0@[j];
            let path = words(s.path@);
            &&& path.len() == self.height - self.x
            &&& shr(ms[j], path.len()) < top.len()
            &&& fold_path(sha256_of(s.sk@), path, ms[j], path.len()) == top[shr(ms[j], path.len()) as int]
        } by {
            let s = sig.0@[j];
            let path = words(s.path@);
            assert(path == self.path_spec(sk, ms[j]));
            assert forall|t: int| 0 <= t < pl implies #[trigger] path[t] == node(t as nat, sibling(shr(ms[j], t as nat))) by {
            }
            lemma_fold_path(node, path, ms[j], pl);
            assert(sha256_of(s.sk@) == node(0, ms[j]));
            lemma_lt_pow2(self.height as nat);
            assert(ms[j] < pow2(self.height as nat));
            assert(self.x + pl == self.height);
            lemma_shr_bound(ms[j], self.x as nat, pl);
        }
        lemma2_to64();
        assert forall|i: int| 0 <= i < top.len() implies #[trigger] top[i] == hnode(sk, pl, i as nat) by {
        }
        assert(top.len() == pow2(self.x as nat));
        assert((0 + 1) * pow2(self.x as nat) == pow2(self.x as nat)) by (nonlinear_arith);
        lemma_rnode(sk, top, pl, self.x as nat, 0);
        assert(pl + self.x == self.height);
    }
}

impl Horst {
    /// Key generation from a seed is pure: two key pairs from one seed are
    /// byte-identical.
    pub proof fn lemma_deterministic(
        &self,
        seed: Seq<u8>,
        sk_a: Vec<U256>,
        pk_a: U256,
        sk_b: Vec<U256>,
        pk_b: U256,
    )
        requires
            self.seeded(seed, sk_a, pk_a),
            self.seeded(seed, sk_b, pk_b),
        ensures
            words(sk_a@) == words(sk_b@),
            pk_a@ == pk_b@,
    {
    }
}

} // verus!
