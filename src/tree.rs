use vstd::prelude::*;
use vstd::arithmetic::power2::{pow2, lemma_pow2_unfold};

use crate::hash::{hash_pair, hash_pair_spec};
use crate::u256::{words, U256};

verus! {

/// `m` halved `j` times: the index of a leaf's ancestor `j` levels up.
pub open spec fn shr(m: nat, j: nat) -> nat
    decreases j,
{
    if j == 0 {
        m
    } else {
        shr(m, (j - 1) as nat) / 2
    }
}

/// The index of a node's sibling.
pub open spec fn sibling(i: nat) -> nat {
    if i % 2 == 0 {
        i + 1
    } else {
        (i - 1) as nat
    }
}

/// The parent of a node at index `idx`, given the node and its sibling.
pub open spec fn combine(node: Seq<u8>, sib: Seq<u8>, idx: nat) -> Seq<u8> {
    if idx % 2 == 0 {
        hash_pair_spec(node, sib)
    } else {
        hash_pair_spec(sib, node)
    }
}

/// The node reached from `leaf`, the leaf at index `m`, after the first `n`
/// entries of the authentication path.
pub open spec fn fold_path(leaf: Seq<u8>, path: Seq<Seq<u8>>, m: nat, n: nat) -> Seq<u8>
    decreases n,
{
    if n == 0 {
        leaf
    } else {
        combine(fold_path(leaf, path, m, (n - 1) as nat), path[n - 1], shr(m, (n - 1) as nat))
    }
}

/// `node(l, i)` is a hash tree on its lowest `levels + 1` levels: a node is
/// the hash of its two children.
pub open spec fn is_hash_tree(node: spec_fn(nat, nat) -> Seq<u8>, levels: nat) -> bool {
    forall|l: nat, i: nat|
        l < levels ==> #[trigger] node(l + 1, i) == hash_pair_spec(node(l, 2 * i), node(l, 2 * i + 1))
}

/// Folding an authentication path of siblings yields the leaf's ancestor.
pub proof fn lemma_fold_path(
    node: spec_fn(nat, nat) -> Seq<u8>,
    path: Seq<Seq<u8>>,
    m: nat,
    n: nat,
)
    requires
        is_hash_tree(node, n),
        path.len() >= n,
        forall|j: int| 0 <= j < n ==> #[trigger] path[j] == node(j as nat, sibling(shr(m, j as nat))),
    ensures
        fold_path(node(0, m), path, m, n) == node(n, shr(m, n)),
    decreases n,
{
    if n > 0 {
        let p = (n - 1) as nat;
        lemma_fold_path(node, path, m, p);
        let s = shr(m, p);
        assert(path[p as int] == node(p, sibling(s)));
        assert(node(p + 1, s / 2) == hash_pair_spec(node(p, 2 * (s / 2)), node(p, 2 * (s / 2) + 1)));
        assert(p + 1 == n);
    }
}

/// An ancestor's index is below `2^a` when the leaf's is below `2^(a + n)`.
pub proof fn lemma_shr_bound(m: nat, a: nat, n: nat)
    requires
        m < pow2(a + n),
    ensures
        shr(m, n) < pow2(a),
    decreases n,
{
    if n > 0 {
        lemma_pow2_unfold(a + n);
        assert(m / 2 < pow2((a + n - 1) as nat));
        lemma_shr_bound(m / 2, a, (n - 1) as nat);
        lemma_shr_halve(m, (n - 1) as nat);
    }
}

/// Halving once more: `shr(m, n + 1) == shr(m / 2, n)`.
pub proof fn lemma_shr_halve(m: nat, n: nat)
    ensures
        shr(m, n + 1) == shr(m / 2, n),
    decreases n,
{
    assert(shr(m, n + 1) == shr(m, n) / 2);
    if n > 0 {
        lemma_shr_halve(m, (n - 1) as nat);
        assert(shr(m / 2, n) == shr(m / 2, (n - 1) as nat) / 2);
    } else {
        assert(shr(m, 0) == m);
    }
}

/// Folds an authentication path from the leaf `leaf` at index `m`: the node
/// reached and its index.
pub fn fold_path_exec(leaf: U256, path: &[U256], m: usize) -> (r: (U256, usize))
    ensures
        r.0@ == fold_path(leaf@, words(path@), m as nat, path@.len()),
        r.1 == shr(m as nat, path@.len()),
{
    let mut node = leaf;
    let mut idx = m;
    let mut j: usize = 0;
    while j < path.len()
        invariant
            0 <= j <= path@.len(),
            node@ == fold_path(leaf@, words(path@), m as nat, j as nat),
            idx == shr(m as nat, j as nat),
        decreases path@.len() - j,
    {
        if idx % 2 == 0 {
            node = hash_pair(node.as_bytes(), path[j].as_bytes());
        } else {
            node = hash_pair(path[j].as_bytes(), node.as_bytes());
        }
        idx = idx / 2;
        j = j + 1;
    }
    (node, idx)
}

} // verus!
