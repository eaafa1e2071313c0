use vstd::prelude::*;
use vstd::arithmetic::power::pow;
use vstd::arithmetic::power2::{is_pow2, lemma2_to64, lemma_pow2_strictly_increases};

use crate::hash::{hash, hash_n, hash_n_spec, lemma_hash_n_add, sha256_of};
use crate::radix::{le_nat, low_digits, low_digits_spec, lemma_low_digits_bound, lemma_low_digits_len, lemma_le_bytes_round_trip};
use crate::rng::{os_seed, std_rng_bytes, std_rng_stream};
use crate::u256::U256;
use crate::util::{append_bytes, div_up, floored_log, le_bytes, log2_spec};
use crate::SignatureScheme;

verus! {

/// Words concatenated in order.
pub open spec fn concat_words(s: Seq<Seq<u8>>) -> Seq<u8>
    decreases s.len(),
{
    if s.len() == 0 {
        Seq::empty()
    } else {
        concat_words(s.drop_last()) + s.last()
    }
}

proof fn lemma_concat_words_len(s: Seq<Seq<u8>>)
    requires
        forall|i: int| 0 <= i < s.len() ==> (#[trigger] s[i]).len() == 32,
    ensures
        concat_words(s).len() == 32 * s.len(),
    decreases s.len(),
{
    if s.len() > 0 {
        lemma_concat_words_len(s.drop_last());
    }
}

/// `Σ (w − 1 − d)` over the digits `d`.
pub open spec fn checksum_spec(digits: Seq<nat>, w: nat) -> nat
    decreases digits.len(),
{
    if digits.len() == 0 {
        0
    } else {
        checksum_spec(digits.drop_last(), w) + (w - 1 - digits.last()) as nat
    }
}

/// A sequence of words: a Winternitz public key or signature.
pub struct Key(pub Vec<U256>);

impl View for Key {
    type V = Seq<Seq<u8>>;

    open spec fn view(&self) -> Seq<Seq<u8>> {
        Seq::new(self.0@.len(), |i: int| self.0@[i]@)
    }
}

impl Key {
    /// The words, concatenated in order.
    pub fn as_bytes(&self) -> (r: Vec<u8>)
        ensures
            r@ == concat_words(self@),
    {
        let mut out: Vec<u8> = Vec::new();
        let mut i: usize = 0;
        while i < self.0.len()
            invariant
                0 <= i <= self.0@.len(),
                out@ == concat_words(self@.subrange(0, i as int)),
            decreases self.0@.len() - i,
        {
            append_bytes(&mut out, self.0[i].as_bytes());
            proof {
                assert(self@.subrange(0, i + 1).drop_last() =~= self@.subrange(0, i as int));
            }
            i = i + 1;
        }
        assert(self@.subrange(0, self@.len() as int) =~= self@);
        out
    }

    pub fn len(&self) -> (r: usize)
        ensures
            r == self@.len(),
    {
        self.0.len()
    }
}

/// The Winternitz one-time signature with base `w`.
///
/// A message is signed through its digest's lowest `len1` base-`w` digits
/// followed by the lowest `len2` digits of their checksum: always `len`
/// digits, so the digits of a short number are padded with zeros on the
/// high side.
#[derive(Clone, Copy)]
pub struct Winternitz {
    pub w: usize,
    pub len1: usize,
    pub len2: usize,
    pub len: usize,
}

impl Winternitz {
    /// `len1 = ⌈256 / log₂ w⌉`, `len2 = ⌊log₂(len1 · (w − 1))⌋ / log₂ w + 1`.
    pub fn new(w: usize) -> (r: Self)
        requires
            is_pow2(w as int),
            2 <= w <= u32::MAX,
            256 * w <= usize::MAX,
        ensures
            r.w == w,
            r.len1 == (256 + log2_spec(w as nat) - 1) as int / log2_spec(w as nat) as int,
            r.len2 == log2_spec((r.len1 * (w - 1)) as nat) as int / log2_spec(w as nat) as int + 1,
            r.len == r.len1 + r.len2,
            r.valid(),
    {
        let log_w = floored_log(w);
        proof {
            lemma2_to64();
            if log_w >= 32 {
                if log_w > 32 {
                    lemma_pow2_strictly_increases(32, log_w as nat);
                }
            }
        }
        let len1 = div_up(256, log_w);
        assert(len1 <= 256 && len1 >= 1) by (nonlinear_arith)
            requires
                len1 == (256 + log_w - 1) / log_w as int,
                log_w >= 1,
        ;
        assert(1 <= len1 * (w - 1) <= 256 * w) by (nonlinear_arith)
            requires
                1 <= len1 <= 256,
                w >= 2,
        ;
        let lx = floored_log(len1 * (w - 1));
        proof {
            if lx > 64 {
                lemma_pow2_strictly_increases(64, lx as nat);
            }
        }
        assert(lx / log_w <= 64) by (nonlinear_arith)
            requires
                lx <= 64,
                log_w >= 1,
        ;
        let len2 = lx / log_w + 1;
        Self { w, len1, len2, len: len1 + len2 }
    }

    /// The chain secrets that `seed` expands to.
    fn gen_private(&self, seed: U256) -> (r: Key)
        requires
            self.valid(),
        ensures
            r@ == chains_spec(seed@, self.len as nat),
    {
        let bytes = std_rng_bytes(&seed, 32 * self.len);
        let mut out: Vec<U256> = Vec::new();
        let mut i: usize = 0;
        while i < self.len
            invariant
                self.valid(),
                bytes@ == std_rng_stream(seed@, 32 * self.len as nat),
                bytes@.len() == 32 * self.len,
                0 <= i <= self.len,
                out@.len() == i,
                forall|j: int|
                    0 <= j < i ==> (#[trigger] out@[j])@ == bytes@.subrange(32 * j, 32 * j + 32),
            decreases self.len - i,
        {
            out.push(U256::from_slice_at(bytes.as_slice(), 32 * i));
            i = i + 1;
        }
        let r = Key(out);
        assert(r@ =~= chains_spec(seed@, self.len as nat));
        r
    }

    /// Appends the lowest `count` base-`w` digits of the little-endian number
    /// `val`.
    fn push_base_w(&self, val: &[u8], count: usize, digits: &mut Vec<usize>)
        requires
            self.valid(),
        ensures
            final(digits)@.len() == old(digits)@.len() + count,
            forall|j: int| 0 <= j < old(digits)@.len() ==> #[trigger] final(digits)@[j] == old(digits)@[j],
            forall|j: int|
                0 <= j < count ==> final(digits)@[old(digits)@.len() + j] as nat
                    == #[trigger] low_digits_spec(le_nat(val@), self.w as nat, count as nat)[j],
    {
        let ds = low_digits(val, self.w as u32, count);
        let ghost start = digits@;
        let mut i: usize = 0;
        while i < count
            invariant
                ds@.len() == count,
                0 <= i <= count,
                digits@.len() == start.len() + i,
                forall|j: int| 0 <= j < start.len() ==> #[trigger] digits@[j] == start[j],
                forall|j: int| 0 <= j < i ==> digits@[start.len() + j] == #[trigger] ds@[j],
            decreases count - i,
        {
            digits.push(ds[i]);
            i = i + 1;
        }
    }

    /// The digits that sign and verify walk the chains by.
    pub fn hash_counts(&self, msg: &[u8]) -> (r: Vec<usize>)
        requires
            self.valid(),
        ensures
            r@.len() == self.len,
            forall|i: int| 0 <= i < self.len ==> r@[i] as nat == #[trigger] self.counts_spec(msg@)[i],
    {
        let mut counts: Vec<usize> = Vec::new();
        let h = hash(msg);
        self.push_base_w(h.as_bytes(), self.len1, &mut counts);
        let ghost ds = self.msg_digits(msg@);
        proof {
            lemma_low_digits_bound(le_nat(sha256_of(msg@)), self.w as nat, self.len1 as nat);
            lemma_low_digits_len(le_nat(sha256_of(msg@)), self.w as nat, self.len1 as nat);
        }
        let mut checksum: usize = 0;
        let mut i: usize = 0;
        while i < self.len1
            invariant
                self.valid(),
                ds == self.msg_digits(msg@),
                ds.len() == self.len1,
                counts@.len() == self.len1,
                forall|j: int| 0 <= j < self.len1 ==> counts@[j] as nat == #[trigger] ds[j],
                forall|j: int| 0 <= j < self.len1 ==> #[trigger] ds[j] < self.w,
                0 <= i <= self.len1,
                checksum == checksum_spec(ds.subrange(0, i as int), self.w as nat),
                checksum <= i * (self.w - 1),
            decreases self.len1 - i,
        {
            assert(counts@[i as int] as nat == ds[i as int]);
            proof {
                assert(ds.subrange(0, i + 1).drop_last() =~= ds.subrange(0, i as int));
                assert(checksum + (self.w - 1 - counts@[i as int]) <= (i + 1) * (self.w - 1)) by (nonlinear_arith)
                    requires
                        checksum <= i * (self.w - 1),
                        counts@[i as int] < self.w,
                ;
                assert((i + 1) * (self.w - 1) <= 256 * self.w) by (nonlinear_arith)
                    requires
                        i < self.len1 <= 256,
                        self.w >= 2,
                ;
            }
            checksum = checksum + (self.w - 1 - counts[i]);
            i = i + 1;
        }
        assert(ds.subrange(0, self.len1 as int) =~= ds);
        let cbytes = le_bytes(checksum as u128, 8);
        proof {
            reveal_with_fuel(pow, 9);
            assert(pow(256, 8) == 0x1_0000_0000_0000_0000);
            lemma_le_bytes_round_trip(checksum as nat, 8);
        }
        self.push_base_w(cbytes.as_slice(), self.len2, &mut counts);
        proof {
            let all = self.counts_spec(msg@);
            let cs = low_digits_spec(checksum as nat, self.w as nat, self.len2 as nat);
            lemma_low_digits_len(checksum as nat, self.w as nat, self.len2 as nat);
            assert(all == ds + cs);
            assert forall|i: int| 0 <= i < self.len implies counts@[i] as nat == #[trigger] all[i] by {
                if i >= self.len1 {
                    assert(all[i] == cs[i - self.len1]);
                }
            }
        }
        counts
    }
}

/// The `n` chain secrets that `seed` expands to: consecutive 32-byte blocks
/// of the seeded generator's stream.
pub open spec fn chains_spec(seed: Seq<u8>, n: nat) -> Seq<Seq<u8>> {
    let s = std_rng_stream(seed, 32 * n);
    Seq::new(n, |i: int| s.subrange(32 * i, 32 * i + 32))
}

impl Winternitz {
    /// The digest's lowest `len1` base-`w` digits.
    pub open spec fn msg_digits(&self, msg: Seq<u8>) -> Seq<nat> {
        low_digits_spec(le_nat(sha256_of(msg)), self.w as nat, self.len1 as nat)
    }

    /// The message digits followed by the lowest `len2` digits of their
    /// checksum.
    pub open spec fn counts_spec(&self, msg: Seq<u8>) -> Seq<nat> {
        let ds = self.msg_digits(msg);
        ds + low_digits_spec(checksum_spec(ds, self.w as nat), self.w as nat, self.len2 as nat)
    }

    /// The public key of the seed: each chain walked to its end.
    pub open spec fn public_spec(&self, seed: Seq<u8>) -> Seq<Seq<u8>> {
        let c = chains_spec(seed, self.len as nat);
        Seq::new(self.len as nat, |i: int| hash_n_spec(c[i], (self.w - 1) as nat))
    }

    /// The signature of `msg`: each chain walked as far as its digit.
    pub open spec fn signature_spec(&self, msg: Seq<u8>, seed: Seq<u8>) -> Seq<Seq<u8>> {
        let c = chains_spec(seed, self.len as nat);
        let counts = self.counts_spec(msg);
        Seq::new(self.len as nat, |i: int| hash_n_spec(c[i], counts[i]))
    }

    proof fn lemma_counts(&self, msg: Seq<u8>)
        requires
            self.valid(),
        ensures
            self.counts_spec(msg).len() == self.len,
            forall|i: int| 0 <= i < self.len ==> #[trigger] self.counts_spec(msg)[i] < self.w,
    {
        let ds = self.msg_digits(msg);
        let cs = low_digits_spec(checksum_spec(ds, self.w as nat), self.w as nat, self.len2 as nat);
        lemma_low_digits_len(le_nat(sha256_of(msg)), self.w as nat, self.len1 as nat);
        lemma_low_digits_bound(le_nat(sha256_of(msg)), self.w as nat, self.len1 as nat);
        lemma_low_digits_len(checksum_spec(ds, self.w as nat), self.w as nat, self.len2 as nat);
        lemma_low_digits_bound(checksum_spec(ds, self.w as nat), self.w as nat, self.len2 as nat);
        assert forall|i: int| 0 <= i < self.len implies #[trigger] self.counts_spec(msg)[i] < self.w by {
            if i < self.len1 {
                assert(self.counts_spec(msg)[i] == ds[i]);
            } else {
                assert(self.counts_spec(msg)[i] == cs[i - self.len1]);
            }
        }
    }
}

impl SignatureScheme for Winternitz {
    type Private = U256;
    type Public = Key;
    type Signature = Key;

    open spec fn valid(&self) -> bool {
        &&& 2 <= self.w <= u32::MAX
        &&& 256 * self.w <= usize::MAX
        &&& 1 <= self.len1 <= 256
        &&& self.len == self.len1 + self.len2
        &&& self.len2 <= 65
    }

    open spec fn signable(&self, len: nat) -> bool {
        true
    }

    open spec fn private_ok(&self, private: U256) -> bool {
        true
    }

    open spec fn public_len(&self) -> nat {
        (32 * self.len) as nat
    }

    open spec fn public_bytes_spec(&self, public: Key) -> Seq<u8> {
        concat_words(public@)
    }

    open spec fn seeded_public(&self, seed: Seq<u8>) -> Seq<u8> {
        concat_words(self.public_spec(seed))
    }

    open spec fn seeded(&self, seed: Seq<u8>, private: U256, public: Key) -> bool {
        &&& private@ == seed
        &&& public@ == self.public_spec(seed)
    }

    open spec fn key_pair(&self, private: U256, public: Key) -> bool {
        public@ == self.public_spec(private@)
    }

    open spec fn is_signature(&self, msg: Seq<u8>, private: U256, sig: Key) -> bool {
        sig@ == self.signature_spec(msg, private@)
    }

    open spec fn accepts(&self, msg: Seq<u8>, public: Key, sig: Key) -> bool {
        let counts = self.counts_spec(msg);
        &&& public@.len() == self.len
        &&& sig@.len() == self.len
        &&& forall|i: int|
            0 <= i < self.len ==> hash_n_spec(#[trigger] sig@[i], (self.w - 1 - counts[i]) as nat)
                == public@[i]
    }

    fn public_bytes(&self, public: &Key) -> (r: Vec<u8>) {
        public.as_bytes()
    }

    fn gen_keys(&self, seed: Option<U256>) -> (r: (U256, Key)) {
        let seed = match seed {
            Some(s) => s,
            None => os_seed(),
        };
        let private = self.gen_private(seed);
        assert(private@.len() == self.len);
        assert(private.0@.len() == self.len);
        let mut public: Vec<U256> = Vec::new();
        let mut i: usize = 0;
        while i < self.len
            invariant
                self.valid(),
                private.0@.len() == self.len,
                private@ == chains_spec(seed@, self.len as nat),
                0 <= i <= self.len,
                public@.len() == i,
                forall|j: int|
                    0 <= j < i ==> (#[trigger] public@[j])@ == hash_n_spec(
                        private@[j],
                        (self.w - 1) as nat,
                    ),
            decreases self.len - i,
        {
            public.push(hash_n(private.0[i], self.w - 1));
            i = i + 1;
        }
        let public = Key(public);
        assert(public@ =~= self.public_spec(seed@));
        (seed, public)
    }

    fn sign(&self, msg: &[u8], private: &U256) -> (sig: Key) {
        let counts = self.hash_counts(msg);
        let chains = self.gen_private(*private);
        assert(chains@.len() == self.len);
        assert(chains.0@.len() == self.len);
        proof {
            self.lemma_counts(msg@);
        }
        let mut out: Vec<U256> = Vec::new();
        let mut i: usize = 0;
        while i < self.len
            invariant
                self.valid(),
                chains.0@.len() == self.len,
                self.counts_spec(msg@).len() == self.len,
                chains@ == chains_spec(private@, self.len as nat),
                counts@.len() == self.len,
                forall|j: int| 0 <= j < self.len ==> counts@[j] as nat == #[trigger] self.counts_spec(msg@)[j],
                0 <= i <= self.len,
                out@.len() == i,
                forall|j: int|
                    0 <= j < i ==> (#[trigger] out@[j])@ == hash_n_spec(
                        chains@[j],
                        self.counts_spec(msg@)[j],
                    ),
            decreases self.len - i,
        {
            assert(counts@[i as int] as nat == self.counts_spec(msg@)[i as int]);
            out.push(hash_n(chains.0[i], counts[i]));
            i = i + 1;
        }
        let sig = Key(out);
        assert(sig@ =~= self.signature_spec(msg@, private@));
        sig
    }

    fn verify(&self, msg: &[u8], public: &Key, sig: &Key) -> (r: bool) {
        let counts = self.hash_counts(msg);
        proof {
            self.lemma_counts(msg@);
        }
        if public.0.len() != self.len || sig.0.len() != self.len {
            return false;
        }
        let mut i: usize = 0;
        while i < self.len
            invariant
                self.valid(),
                public@.len() == self.len,
                sig@.len() == self.len,
                counts@.len() == self.len,
                forall|j: int| 0 <= j < self.len ==> counts@[j] as nat == #[trigger] self.counts_spec(msg@)[j],
                forall|j: int| 0 <= j < self.len ==> #[trigger] self.counts_spec(msg@)[j] < self.w,
                0 <= i <= self.len,
                forall|j: int|
                    0 <= j < i ==> hash_n_spec(
                        #[trigger] sig@[j],
                        (self.w - 1 - self.counts_spec(msg@)[j]) as nat,
                    ) == public@[j],
            decreases self.len - i,
        {
            assert(counts@[i as int] as nat == self.counts_spec(msg@)[i as int]);
            assert(counts@[i as int] < self.w);
            let end = hash_n(sig.0[i], self.w - 1 - counts[i]);
            if !end.equals(&public.0[i]) {
                assert(sig@[i as int] == sig.0@[i as int]@);
                return false;
            }
            i = i + 1;
        }
        true
    }

    proof fn lemma_seeded(&self, seed: Seq<u8>, private: U256, public: Key) {
        assert forall|i: int| 0 <= i < public@.len() implies (#[trigger] public@[i]).len() == 32 by {
            assert(public.0@[i].0@.len() == 32);
        }
        lemma_concat_words_len(public@);
    }

    proof fn lemma_correct(&self, msg: Seq<u8>, private: U256, public: Key, sig: Key) {
        self.lemma_counts(msg);
        let c = chains_spec(private@, self.len as nat);
        let counts = self.counts_spec(msg);
        assert forall|i: int| 0 <= i < self.len implies hash_n_spec(
            #[trigger] sig@[i],
            (self.w - 1 - counts[i]) as nat,
        ) == public@[i] by {
            assert(counts[i] < self.w);
            lemma_hash_n_add(c[i], counts[i], (self.w - 1 - counts[i]) as nat);
        }
    }
}

impl Winternitz {
    /// Key generation from a seed is pure: two key pairs from one seed are
    /// byte-identical.
    pub proof fn lemma_deterministic(&self, seed: Seq<u8>, sk_a: U256, pk_a: Key, sk_b: U256, pk_b: Key)
        requires
            self.seeded(seed, sk_a, pk_a),
            self.seeded(seed, sk_b, pk_b),
        ensures
            sk_a@ == sk_b@,
            pk_a@ == pk_b@,
    {
    }
}

} // verus!
