use vstd::prelude::*;
use vstd::arithmetic::power2::{pow2, lemma2_to64, lemma_pow2_unfold, lemma_pow2_strictly_increases};

pub use crate::hash::{hash, hash_n, hash_pair};

verus! {

/// Appends `src` to the end of `buf`.
pub fn append_bytes(buf: &mut Vec<u8>, src: &[u8])
    ensures
        final(buf)@ == old(buf)@ + src@,
{
    let ghost start = buf@;
    let mut i: usize = 0;
    while i < src.len()
        invariant
            0 <= i <= src@.len(),
            buf@ == start + src@.subrange(0, i as int),
        decreases src@.len() - i,
    {
        buf.push(src[i]);
        i = i + 1;
        assert(buf@ =~= start + src@.subrange(0, i as int));
    }
    assert(src@.subrange(0, src@.len() as int) =~= src@);
}

/// `dividend / divisor`, rounded up.
pub fn div_up(dividend: usize, divisor: usize) -> (r: usize)
    requires
        divisor > 0,
        dividend + divisor - 1 <= usize::MAX,
    ensures
        r == (dividend + divisor - 1) / divisor as int,
        r * divisor >= dividend,
        r == 0 || (r - 1) * divisor < dividend,
{
    let r = (dividend + (divisor - 1)) / divisor;
    assert(r * divisor >= dividend && (r == 0 || (r - 1) * divisor < dividend)) by (nonlinear_arith)
        requires
            r == (dividend + divisor - 1) / divisor as int,
            divisor > 0,
    ;
    r
}

/// The `n` low bytes of `x`, least significant first.
pub open spec fn le_bytes_spec(x: nat, n: nat) -> Seq<u8>
    decreases n,
{
    if n == 0 {
        Seq::empty()
    } else {
        seq![(x % 256) as u8] + le_bytes_spec(x / 256, (n - 1) as nat)
    }
}

/// The `n` low bytes of `x`, least significant first.
pub fn le_bytes(x: u128, n: usize) -> (r: Vec<u8>)
    ensures
        r@ == le_bytes_spec(x as nat, n as nat),
{
    let mut out: Vec<u8> = Vec::new();
    let mut cur: u128 = x;
    let mut i: usize = 0;
    while i < n
        invariant
            0 <= i <= n,
            out@ + le_bytes_spec(cur as nat, (n - i) as nat) == le_bytes_spec(x as nat, n as nat),
        decreases n - i,
    {
        let ghost rest = le_bytes_spec(cur as nat, (n - i) as nat);
        assert(rest == seq![(cur % 256) as u8] + le_bytes_spec(cur as nat / 256, (n - i - 1) as nat));
        out.push((cur % 256) as u8);
        cur = cur / 256;
        i = i + 1;
        assert(out@ + le_bytes_spec(cur as nat, (n - i) as nat) =~= le_bytes_spec(x as nat, n as nat));
    }
    assert(out@ + le_bytes_spec(cur as nat, 0) =~= out@);
    out
}

/// `2^e` as a `u128`.
pub fn pow2_u128(e: usize) -> (r: u128)
    requires
        pow2(e as nat) <= u128::MAX,
    ensures
        r == pow2(e as nat),
{
    let mut r: u128 = 1;
    let mut i: usize = 0;
    proof {
        lemma2_to64();
    }
    while i < e
        invariant
            0 <= i <= e,
            pow2(e as nat) <= u128::MAX,
            r == pow2(i as nat),
        decreases e - i,
    {
        proof {
            if i + 1 < e {
                lemma_pow2_strictly_increases((i + 1) as nat, e as nat);
            }
            lemma_pow2_unfold((i + 1) as nat);
        }
        r = r * 2;
        i = i + 1;
    }
    r
}

/// `2^e` as a `usize`.
pub fn pow2_usize(e: usize) -> (r: usize)
    requires
        pow2(e as nat) <= usize::MAX,
    ensures
        r == pow2(e as nat),
{
    let mut r: usize = 1;
    let mut i: usize = 0;
    proof {
        lemma2_to64();
    }
    while i < e
        invariant
            0 <= i <= e,
            pow2(e as nat) <= usize::MAX,
            r == pow2(i as nat),
        decreases e - i,
    {
        proof {
            if i + 1 < e {
                lemma_pow2_strictly_increases((i + 1) as nat, e as nat);
            }
            lemma_pow2_unfold((i + 1) as nat);
        }
        r = r * 2;
        i = i + 1;
    }
    r
}

/// The base-2 logarithm of `n > 0`, rounded down.
pub open spec fn log2_spec(n: nat) -> nat
    decreases n,
{
    if n <= 1 {
        0
    } else {
        1 + log2_spec(n / 2)
    }
}

pub proof fn lemma_log2_le(n: nat)
    ensures
        log2_spec(n) <= n,
    decreases n,
{
    if n > 1 {
        lemma_log2_le(n / 2);
    }
}

pub fn floored_log(n: usize) -> (r: usize)
    requires
        n > 0,
    ensures
        r == log2_spec(n as nat),
        pow2(r as nat) <= n < 2 * pow2(r as nat),
{
    let mut m: usize = n;
    let mut r: usize = 0;
    proof {
        lemma2_to64();
        lemma_log2_le(n as nat);
    }
    while m > 1
        invariant
            1 <= m <= n,
            r <= log2_spec(n as nat) <= n,
            r + log2_spec(m as nat) == log2_spec(n as nat),
            m * pow2(r as nat) <= n < (m + 1) * pow2(r as nat),
        decreases m,
    {
        proof {
            lemma_pow2_unfold((r + 1) as nat);
        }
        assert(m / 2 * pow2((r + 1) as nat) <= n < (m / 2 + 1) * pow2((r + 1) as nat))
            by (nonlinear_arith)
            requires
                m * pow2(r as nat) <= n < (m + 1) * pow2(r as nat),
                pow2((r + 1) as nat) == 2 * pow2(r as nat),
                m > 1,
        ;
        m = m / 2;
        r = r + 1;
    }
    r
}

/// `2^a <= 2^b` for `a <= b`.
pub proof fn lemma_pow2_le(a: nat, b: nat)
    requires
        a <= b,
    ensures
        pow2(a) <= pow2(b),
{
    if a < b {
        lemma_pow2_strictly_increases(a, b);
    }
}

/// Byte-wise equality of two byte strings.
pub fn bytes_equal(a: &[u8], b: &[u8]) -> (r: bool)
    ensures
        r == (a@ == b@),
{
    if a.len() != b.len() {
        return false;
    }
    let mut i: usize = 0;
    while i < a.len()
        invariant
            a@.len() == b@.len(),
            0 <= i <= a@.len(),
            forall|j: int| 0 <= j < i ==> a@[j] == b@[j],
        decreases a@.len() - i,
    {
        if a[i] != b[i] {
            return false;
        }
        i = i + 1;
    }
    assert(a@ =~= b@);
    true
}

/// `2^e` fits in a `u128` for `e < 128`.
pub proof fn lemma_pow2_u128(e: nat)
    requires
        e < 128,
    ensures
        pow2(e) <= u128::MAX,
{
    lemma2_to64();
    vstd::arithmetic::power2::lemma_pow2_adds(64, 64);
    lemma_pow2_le(e, 127);
    lemma_pow2_strictly_increases(127, 128);
}

} // verus!
