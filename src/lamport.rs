use vstd::prelude::*;

use crate::hash::{hash, hash_spec};
use crate::rng::{hc128_bytes, hc128_stream, os_seed};
use crate::u256::U256;
use crate::util::append_bytes;
use crate::SignatureScheme;

verus! {

/// Bit `i` of `msg`: bit 0 is the least significant bit of byte 0.
pub open spec fn bit_spec(msg: Seq<u8>, i: int) -> bool {
    (msg[i / 8] >> ((i % 8) as u8)) & 1u8 == 1u8
}

/// The entry of a key pair that a bit selects.
pub open spec fn pick(entry: (Seq<u8>, Seq<u8>), bit: bool) -> Seq<u8> {
    if bit {
        entry.1
    } else {
        entry.0
    }
}

/// The private key of `n` entries that `seed` yields: consecutive 32-byte
/// blocks of the HC-128 stream.
pub open spec fn private_from_seed(seed: Seq<u8>, n: nat) -> Seq<(Seq<u8>, Seq<u8>)> {
    let s = hc128_stream(seed, 64 * n);
    Seq::new(n, |i: int| (s.subrange(64 * i, 64 * i + 32), s.subrange(64 * i + 32, 64 * i + 64)))
}

/// The public key of a private key: each entry hashed.
pub open spec fn public_from_private(sk: Seq<(Seq<u8>, Seq<u8>)>) -> Seq<(Seq<u8>, Seq<u8>)> {
    Seq::new(sk.len(), |i: int| (hash_spec(sk[i].0), hash_spec(sk[i].1)))
}

/// The signature of `msg`: for each bit, the private entry it selects.
pub open spec fn signature_spec(msg: Seq<u8>, sk: Seq<(Seq<u8>, Seq<u8>)>) -> Seq<Seq<u8>> {
    Seq::new(8 * msg.len(), |i: int| pick(sk[i], bit_spec(msg, i)))
}

/// A key's entries, concatenated in order.
pub open spec fn flatten(k: Seq<(Seq<u8>, Seq<u8>)>) -> Seq<u8>
    decreases k.len(),
{
    if k.len() == 0 {
        Seq::empty()
    } else {
        flatten(k.drop_last()) + k.last().0 + k.last().1
    }
}

/// A Lamport key: one pair of words per message bit.
#[derive(Clone)]
pub struct Key(pub Vec<[U256; 2]>);

impl View for Key {
    type V = Seq<(Seq<u8>, Seq<u8>)>;

    open spec fn view(&self) -> Seq<(Seq<u8>, Seq<u8>)> {
        Seq::new(self.0@.len(), |i: int| (self.0@[i][0]@, self.0@[i][1]@))
    }
}

proof fn lemma_flatten_len(k: Seq<(Seq<u8>, Seq<u8>)>)
    requires
        forall|i: int| 0 <= i < k.len() ==> (#[trigger] k[i]).0.len() == 32 && k[i].1.len() == 32,
    ensures
        flatten(k).len() == 64 * k.len(),
    decreases k.len(),
{
    if k.len() > 0 {
        lemma_flatten_len(k.drop_last());
    }
}

proof fn lemma_key_entries(k: Key)
    ensures
        forall|i: int|
            0 <= i < k@.len() ==> (#[trigger] k@[i]).0.len() == 32 && k@[i].1.len() == 32,
{
    assert forall|i: int| 0 <= i < k@.len() implies (#[trigger] k@[i]).0.len() == 32
        && k@[i].1.len() == 32 by {
        let p = k.0@[i];
        assert(p[0].0@.len() == 32);
        assert(p[1].0@.len() == 32);
    }
}

impl Key {
    /// The private key for messages of `msg_len` bytes that `seed` yields.
    fn gen_private(msg_len: usize, seed: U256) -> (r: Self)
        requires
            512 * msg_len <= usize::MAX,
        ensures
            r@ == private_from_seed(seed@, 8 * msg_len as nat),
    {
        let n = msg_len * 8;
        let bytes = hc128_bytes(&seed, 64 * n);
        let ghost s = hc128_stream(seed@, 64 * n as nat);
        let mut out: Vec<[U256; 2]> = Vec::new();
        let mut i: usize = 0;
        while i < n
            invariant
                n == msg_len * 8,
                512 * msg_len <= usize::MAX,
                bytes@ == s,
                s.len() == 64 * n,
                0 <= i <= n,
                out@.len() == i,
                forall|j: int|
                    0 <= j < i ==> (#[trigger] out@[j])[0]@ == s.subrange(64 * j, 64 * j + 32)
                        && out@[j][1]@ == s.subrange(64 * j + 32, 64 * j + 64),
            decreases n - i,
        {
            let a = U256::from_slice_at(bytes.as_slice(), 64 * i);
            let b = U256::from_slice_at(bytes.as_slice(), 64 * i + 32);
            out.push([a, b]);
            i = i + 1;
        }
        let r = Key(out);
        assert(r@ =~= private_from_seed(seed@, 8 * msg_len as nat));
        r
    }

    /// The public key of `private`: each entry hashed.
    pub fn gen_public(private: &Self) -> (r: Self)
        ensures
            r@ == public_from_private(private@),
    {
        let mut out: Vec<[U256; 2]> = Vec::new();
        let mut i: usize = 0;
        while i < private.0.len()
            invariant
                0 <= i <= private.0@.len(),
                out@.len() == i,
                forall|j: int|
                    0 <= j < i ==> (#[trigger] out@[j])[0]@ == hash_spec(private@[j].0)
                        && out@[j][1]@ == hash_spec(private@[j].1),
            decreases private.0@.len() - i,
        {
            let pair = private.0[i];
            out.push([hash(pair[0].as_bytes()), hash(pair[1].as_bytes())]);
            i = i + 1;
        }
        let r = Key(out);
        assert(r@ =~= public_from_private(private@));
        r
    }

    /// Length in signable bytes.
    pub fn len(&self) -> (r: usize)
        ensures
            r == self@.len() / 8,
    {
        self.0.len() / 8
    }

    /// The pair of words for bit `index`.
    pub fn get(&self, index: usize) -> (r: [U256; 2])
        requires
            index < self@.len(),
        ensures
            r[0]@ == self@[index as int].0,
            r[1]@ == self@[index as int].1,
    {
        self.0[index]
    }

    /// The entries as bytes, concatenated in order.
    pub fn as_bytes(&self) -> (r: Vec<u8>)
        ensures
            r@ == flatten(self@),
    {
        let mut out: Vec<u8> = Vec::new();
        let mut i: usize = 0;
        while i < self.0.len()
            invariant
                0 <= i <= self.0@.len(),
                out@ == flatten(self@.subrange(0, i as int)),
            decreases self.0@.len() - i,
        {
            let pair = self.0[i];
            append_bytes(&mut out, pair[0].as_bytes());
            append_bytes(&mut out, pair[1].as_bytes());
            proof {
                let t = self@.subrange(0, i + 1);
                assert(t.drop_last() =~= self@.subrange(0, i as int));
            }
            i = i + 1;
        }
        assert(self@.subrange(0, self@.len() as int) =~= self@);
        out
    }
}

/// A Lamport signature: one word per message bit.
pub struct Signature(pub Vec<U256>);

impl View for Signature {
    type V = Seq<Seq<u8>>;

    open spec fn view(&self) -> Seq<Seq<u8>> {
        Seq::new(self.0@.len(), |i: int| self.0@[i]@)
    }
}

impl Signature {
    /// Length in signed bytes.
    pub fn len(&self) -> (r: usize)
        ensures
            r == self@.len() / 8,
    {
        self.0.len() / 8
    }

    /// The word for bit `index`.
    pub fn get(&self, index: usize) -> (r: U256)
        requires
            index < self@.len(),
        ensures
            r@ == self@[index as int],
    {
        self.0[index]
    }
}

/// The Lamport one-time signature over messages of at most `msg_len` bytes.
#[derive(Copy, Clone)]
pub struct Lamport {
    pub msg_len: usize,
}

impl Lamport {
    pub fn new(msg_len: usize) -> (r: Self)
        requires
            512 * msg_len <= usize::MAX,
        ensures
            r.msg_len == msg_len,
            r.valid(),
    {
        Self { msg_len }
    }
}

fn message_bit(msg: &[u8], i: usize) -> (r: bool)
    requires
        i < 8 * msg@.len(),
    ensures
        r == bit_spec(msg@, i as int),
{
    (msg[i / 8] >> ((i % 8) as u8)) & 1u8 == 1u8
}

impl SignatureScheme for Lamport {
    type Private = Key;
    type Public = Key;
    type Signature = Signature;

    open spec fn valid(&self) -> bool {
        512 * self.msg_len <= usize::MAX
    }

    open spec fn signable(&self, len: nat) -> bool {
        len <= self.msg_len
    }

    open spec fn private_ok(&self, private: Key) -> bool {
        private@.len() == 8 * self.msg_len
    }

    open spec fn public_len(&self) -> nat {
        (512 * self.msg_len) as nat
    }

    open spec fn public_bytes_spec(&self, public: Key) -> Seq<u8> {
        flatten(public@)
    }

    open spec fn seeded_public(&self, seed: Seq<u8>) -> Seq<u8> {
        flatten(public_from_private(private_from_seed(seed, 8 * self.msg_len as nat)))
    }

    open spec fn seeded(&self, seed: Seq<u8>, private: Key, public: Key) -> bool {
        &&& private@ == private_from_seed(seed, 8 * self.msg_len as nat)
        &&& public@ == public_from_private(private@)
    }

    open spec fn key_pair(&self, private: Key, public: Key) -> bool {
        public@ == public_from_private(private@)
    }

    open spec fn is_signature(&self, msg: Seq<u8>, private: Key, sig: Signature) -> bool {
        sig@ == signature_spec(msg, private@)
    }

    open spec fn accepts(&self, msg: Seq<u8>, public: Key, sig: Signature) -> bool {
        &&& msg.len() <= self.msg_len
        &&& public@.len() == 8 * self.msg_len
        &&& sig@.len() == 8 * msg.len()
        &&& forall|i: int|
            0 <= i < 8 * msg.len() ==> hash_spec(#[trigger] sig@[i]) == pick(
                public@[i],
                bit_spec(msg, i),
            )
    }

    fn public_bytes(&self, public: &Key) -> (r: Vec<u8>) {
        public.as_bytes()
    }

    fn gen_keys(&self, seed: Option<U256>) -> (r: (Key, Key)) {
        let seed = match seed {
            Some(s) => s,
            None => os_seed(),
        };
        let private = Key::gen_private(self.msg_len, seed);
        let public = Key::gen_public(&private);
        (private, public)
    }

    fn sign(&self, msg: &[u8], private: &Key) -> (sig: Signature) {
        let n = msg.len() * 8;
        let mut out: Vec<U256> = Vec::new();
        let mut i: usize = 0;
        while i < n
            invariant
                n == 8 * msg@.len(),
                msg@.len() <= self.msg_len,
                private@.len() == 8 * self.msg_len,
                0 <= i <= n,
                out@.len() == i,
                forall|j: int|
                    0 <= j < i ==> (#[trigger] out@[j])@ == pick(
                        private@[j],
                        bit_spec(msg@, j),
                    ),
            decreases n - i,
        {
            let bit = message_bit(msg, i);
            let pair = private.0[i];
            if bit {
                out.push(pair[1]);
            } else {
                out.push(pair[0]);
            }
            i = i + 1;
        }
        let sig = Signature(out);
        assert(sig@ =~= signature_spec(msg@, private@));
        sig
    }

    fn verify(&self, msg: &[u8], public: &Key, sig: &Signature) -> (r: bool) {
        if msg.len() > self.msg_len || public.0.len() != self.msg_len * 8 {
            return false;
        }
        let n = msg.len() * 8;
        if sig.0.len() != n {
            return false;
        }
        let mut i: usize = 0;
        while i < n
            invariant
                n == 8 * msg@.len(),
                msg@.len() <= self.msg_len,
                public@.len() == 8 * self.msg_len,
                sig@.len() == n,
                0 <= i <= n,
                forall|j: int|
                    0 <= j < i ==> hash_spec(#[trigger] sig@[j]) == pick(
                        public@[j],
                        bit_spec(msg@, j),
                    ),
            decreases n - i,
        {
            let bit = message_bit(msg, i);
            let h = hash(sig.0[i].as_bytes());
            let pair = public.0[i];
            let expected = if bit {
                pair[1]
            } else {
                pair[0]
            };
            if !h.equals(&expected) {
                assert(hash_spec(sig@[i as int]) != pick(public@[i as int], bit_spec(msg@, i as int)));
                return false;
            }
            i = i + 1;
        }
        true
    }

    proof fn lemma_seeded(&self, seed: Seq<u8>, private: Key, public: Key) {
        lemma_key_entries(public);
        lemma_flatten_len(public@);
    }

    proof fn lemma_correct(&self, msg: Seq<u8>, private: Key, public: Key, sig: Signature) {
        assert forall|i: int| 0 <= i < 8 * msg.len() implies hash_spec(#[trigger] sig@[i]) == pick(
            public@[i],
            bit_spec(msg, i),
        ) by {
            assert(sig@[i] == pick(private@[i], bit_spec(msg, i)));
        }
    }
}

impl Lamport {
    /// Key generation from a seed is pure: two key pairs from one seed are
    /// byte-identical.
    pub proof fn lemma_deterministic(&self, seed: Seq<u8>, sk_a: Key, pk_a: Key, sk_b: Key, pk_b: Key)
        requires
            self.seeded(seed, sk_a, pk_a),
            self.seeded(seed, sk_b, pk_b),
        ensures
            sk_a@ == sk_b@,
            pk_a@ == pk_b@,
    {
    }
}

} // verus!
