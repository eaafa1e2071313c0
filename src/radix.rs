use vstd::prelude::*;

use vstd::arithmetic::power::pow;

use crate::util::{append_bytes, le_bytes_spec};

verus! {

/// The number that `s` writes in little-endian order (byte 0 least
/// significant).
pub open spec fn le_nat(s: Seq<u8>) -> nat
    decreases s.len(),
{
    if s.len() == 0 {
        0
    } else {
        s[0] as nat + 256 * le_nat(s.subrange(1, s.len() as int))
    }
}

/// The lowest `k` base-`b` digits of `v`, least significant first.
pub open spec fn low_digits_spec(v: nat, b: nat, k: nat) -> Seq<nat>
    decreases k,
{
    if k == 0 || b == 0 {
        Seq::empty()
    } else {
        seq![v % b] + low_digits_spec(v / b, b, (k - 1) as nat)
    }
}

proof fn lemma_le_nat_split(s: Seq<u8>, i: int)
    requires
        0 <= i < s.len(),
    ensures
        le_nat(s.subrange(i, s.len() as int)) == s[i] as nat + 256 * le_nat(
            s.subrange(i + 1, s.len() as int),
        ),
{
    let t = s.subrange(i, s.len() as int);
    assert(t.subrange(1, t.len() as int) =~= s.subrange(i + 1, s.len() as int));
}

/// Divides the number that `v` writes by `d`: the quotient, in as many
/// bytes as `v`, and the remainder.
pub fn div_rem_small(v: &[u8], d: u32) -> (r: (Vec<u8>, u32))
    requires
        d > 0,
    ensures
        r.0@.len() == v@.len(),
        le_nat(v@) == le_nat(r.0@) * d + r.1,
        r.1 < d,
{
    let n = v.len();
    let mut q: Vec<u8> = Vec::new();
    let mut k: usize = 0;
    while k < n
        invariant
            n == v@.len(),
            0 <= k <= n,
            q@.len() == k,
        decreases n - k,
    {
        q.push(0u8);
        k = k + 1;
    }
    let mut rem: u64 = 0;
    let mut i: usize = n;
    proof {
        assert(le_nat(v@.subrange(n as int, n as int)) == 0);
        assert(le_nat(q@.subrange(n as int, n as int)) == 0);
    }
    while i > 0
        invariant
            n == v@.len(),
            q@.len() == n,
            0 <= i <= n,
            rem < d,
            le_nat(v@.subrange(i as int, n as int)) == le_nat(q@.subrange(i as int, n as int)) * d
                + rem,
        decreases i,
    {
        let ghost old_q = q@;
        let ghost hi_q = le_nat(q@.subrange(i as int, n as int));
        let ghost old_rem = rem;
        i = i - 1;
        let cur: u64 = rem * 256 + v[i] as u64;
        let qd: u64 = cur / d as u64;
        rem = cur % d as u64;
        assert(qd < 256) by (nonlinear_arith)
            requires
                cur == old_rem * 256 + v@[i as int],
                old_rem < d,
                v@[i as int] < 256,
                qd as int == cur as int / d as int,
                d > 0,
        ;
        q.set(i, qd as u8);
        proof {
            lemma_le_nat_split(v@, i as int);
            lemma_le_nat_split(q@, i as int);
            assert(q@.subrange(i + 1, n as int) =~= old_q.subrange(i + 1, n as int));
            let lo = v@[i as int] as nat;
            assert(cur == qd * d + rem) by (nonlinear_arith)
                requires
                    qd as int == cur as int / d as int,
                    rem as int == cur as int % d as int,
                    d > 0,
            ;
            assert(lo + 256 * (hi_q * d + old_rem) == (qd + 256 * hi_q) * d + rem) by (
            nonlinear_arith)
                requires
                    cur == old_rem * 256 + lo,
                    cur == qd * d + rem,
            ;
        }
    }
    assert(v@.subrange(0, n as int) =~= v@);
    assert(q@.subrange(0, n as int) =~= q@);
    (q, rem as u32)
}

/// The lowest `k` base-`b` digits of the number that `v` writes, least
/// significant first.
pub fn low_digits(v: &[u8], b: u32, k: usize) -> (r: Vec<usize>)
    requires
        b >= 1,
    ensures
        r@.len() == k,
        forall|j: int| 0 <= j < k ==> r@[j] as nat == #[trigger] low_digits_spec(le_nat(v@), b as nat, k as nat)[j],
{
    let ghost all = low_digits_spec(le_nat(v@), b as nat, k as nat);
    let mut cur: Vec<u8> = Vec::new();
    append_bytes(&mut cur, v);
    assert(cur@ =~= v@);
    let mut out: Vec<usize> = Vec::new();
    let mut i: usize = 0;
    proof {
        lemma_low_digits_len(le_nat(v@), b as nat, k as nat);
    }
    while i < k
        invariant
            b >= 1,
            0 <= i <= k,
            out@.len() == i,
            all == low_digits_spec(le_nat(v@), b as nat, k as nat),
            all.len() == k,
            low_digits_spec(le_nat(cur@), b as nat, (k - i) as nat).len() == k - i,
            forall|j: int| 0 <= j < i ==> out@[j] as nat == #[trigger] all[j],
            forall|j: int|
                0 <= j < k - i ==> #[trigger] low_digits_spec(le_nat(cur@), b as nat, (k - i) as nat)[j]
                    == all[i + j],
        decreases k - i,
    {
        let ghost before = le_nat(cur@);
        let (q, r) = div_rem_small(cur.as_slice(), b);
        proof {
            assert(r as nat == before % b as nat && le_nat(q@) == before / b as nat) by (
            nonlinear_arith)
                requires
                    before == le_nat(q@) * b + r,
                    r < b,
                    b >= 1,
            ;
            let ds = low_digits_spec(before, b as nat, (k - i) as nat);
            lemma_low_digits_len(le_nat(q@), b as nat, (k - i - 1) as nat);
            assert(ds == seq![before % b as nat] + low_digits_spec(
                before / b as nat,
                b as nat,
                (k - i - 1) as nat,
            ));
            assert(ds[0] == all[i as int]);
            assert forall|j: int| 0 <= j < k - i - 1 implies #[trigger] low_digits_spec(
                le_nat(q@),
                b as nat,
                (k - (i + 1)) as nat,
            )[j] == all[i + 1 + j] by {
                assert(ds[j + 1] == low_digits_spec(le_nat(q@), b as nat, (k - i - 1) as nat)[j]);
            }
        }
        out.push(r as usize);
        cur = q;
        i = i + 1;
    }
    out
}

pub proof fn lemma_low_digits_len(v: nat, b: nat, k: nat)
    requires
        b >= 1,
    ensures
        low_digits_spec(v, b, k).len() == k,
    decreases k,
{
    if k > 0 {
        lemma_low_digits_len(v / b, b, (k - 1) as nat);
    }
}

/// Each of the digits is below the base.
pub proof fn lemma_low_digits_bound(v: nat, b: nat, k: nat)
    requires
        b >= 1,
    ensures
        forall|j: int| 0 <= j < k ==> #[trigger] low_digits_spec(v, b, k)[j] < b,
    decreases k,
{
    if k > 0 {
        lemma_low_digits_bound(v / b, b, (k - 1) as nat);
        lemma_low_digits_len(v / b, b, (k - 1) as nat);
        let ds = low_digits_spec(v, b, k);
        assert forall|j: int| 0 <= j < k implies #[trigger] ds[j] < b by {
            if j > 0 {
                assert(ds[j] == low_digits_spec(v / b, b, (k - 1) as nat)[j - 1]);
            }
        }
    }
}

/// Reading back the `n` low bytes of a number below `256^n` gives the number.
pub proof fn lemma_le_bytes_round_trip(x: nat, n: nat)
    requires
        x < pow(256, n),
    ensures
        le_nat(le_bytes_spec(x, n)) == x,
    decreases n,
{
    reveal(pow);
    if n > 0 {
        let s = le_bytes_spec(x, n);
        let rest = le_bytes_spec(x / 256, (n - 1) as nat);
        assert(x / 256 < pow(256, (n - 1) as nat)) by (nonlinear_arith)
            requires
                x < 256 * pow(256, (n - 1) as nat),
        ;
        lemma_le_bytes_round_trip(x / 256, (n - 1) as nat);
        assert(s.subrange(1, s.len() as int) =~= rest);
    } else {
        assert(x == 0);
    }
}

/// The number that at most 16 little-endian bytes write.
pub fn le_u128(v: &[u8]) -> (r: u128)
    requires
        v@.len() <= 16,
    ensures
        r == le_nat(v@),
{
    let n = v.len();
    let mut acc: u128 = 0;
    let mut i: usize = n;
    proof {
        reveal(pow);
        assert(le_nat(v@.subrange(n as int, n as int)) == 0);
        lemma_pow256_mono(0, 16);
    }
    while i > 0
        invariant
            n == v@.len() <= 16,
            0 <= i <= n,
            acc == le_nat(v@.subrange(i as int, n as int)),
            acc < pow(256, (n - i) as nat),
            pow(256, (n - i) as nat) <= pow(256, 16),
        decreases i,
    {
        proof {
            lemma_le_nat_split(v@, (i - 1) as int);
            reveal(pow);
            assert(pow(256, (n - i + 1) as nat) == 256 * pow(256, (n - i) as nat));
            crate::radix::lemma_pow256_mono((n - i + 1) as nat, 16);
            reveal_with_fuel(pow, 17);
            assert(pow(256, 16) == 0x1_0000_0000_0000_0000_0000_0000_0000_0000);
            assert(v@[i - 1] as nat + 256 * acc < 256 * pow(256, (n - i) as nat)) by (nonlinear_arith)
                requires
                    acc < pow(256, (n - i) as nat),
                    v@[i - 1] < 256,
            ;
        }
        acc = v[i - 1] as u128 + 256 * acc;
        i = i - 1;
    }
    assert(v@.subrange(0, n as int) =~= v@);
    acc
}

/// `256^a <= 256^b` for `a <= b`.
pub proof fn lemma_pow256_mono(a: nat, b: nat)
    requires
        a <= b,
    ensures
        pow(256, a) <= pow(256, b),
    decreases b - a,
{
    reveal(pow);
    if a < b {
        lemma_pow256_mono(a, (b - 1) as nat);
        assert(pow(256, b) == 256 * pow(256, (b - 1) as nat));
        vstd::arithmetic::power::lemma_pow_positive(256, (b - 1) as nat);
    }
}

} // verus!
