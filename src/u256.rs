use vstd::prelude::*;

pub use crate::hash::{hash, hash_pair};

verus! {

/// A 32-byte word: a hash output, a seed or a tree node.
#[derive(Copy, Clone)]
pub struct U256(pub [u8; 32]);

impl View for U256 {
    type V = Seq<u8>;

    open spec fn view(&self) -> Seq<u8> {
        self.0@
    }
}

/// The byte views of a sequence of words.
pub open spec fn words(v: Seq<U256>) -> Seq<Seq<u8>> {
    Seq::new(v.len(), |i: int| v[i]@)
}

impl U256 {
    /// The all-zero word.
    pub fn new() -> (r: Self)
        ensures
            r@ == Seq::new(32, |_i: int| 0u8),
    {
        let r = U256([0u8; 32]);
        assert(r@ =~= Seq::new(32, |_i: int| 0u8));
        r
    }

    pub fn as_mut_bytes(&mut self) -> (r: &mut [u8; 32])
        ensures
            *r == old(self).0,
            final(self).0 == *final(r),
    {
        &mut self.0
    }

    pub fn into_bytes(self) -> (r: [u8; 32])
        ensures
            r@ == self@,
    {
        self.0
    }

    pub fn as_bytes(&self) -> (r: &[u8; 32])
        ensures
            r@ == self@,
    {
        &self.0
    }

    /// The word with the given bytes, or `None` unless there are exactly 32.
    pub fn try_from_slice(data: &[u8]) -> (r: Option<Self>)
        ensures
            r is Some <==> data@.len() == 32,
            r matches Some(w) ==> w@ == data@,
    {
        if data.len() != 32 {
            return None;
        }
        Some(Self::from_slice(data))
    }

    /// The word with the given 32 bytes.
    pub fn from_slice(data: &[u8]) -> (r: Self)
        requires
            data@.len() == 32,
        ensures
            r@ == data@,
    {
        let r = Self::from_slice_at(data, 0);
        assert(data@.subrange(0, 32) =~= data@);
        r
    }

    /// The word made of the 32 bytes of `data` from `start` on.
    pub fn from_slice_at(data: &[u8], start: usize) -> (r: Self)
        requires
            start + 32 <= data@.len(),
        ensures
            r@ == data@.subrange(start as int, start + 32),
    {
        let n = data.len();
        let mut out = [0u8; 32];
        let mut i: usize = 0;
        while i < 32
            invariant
                n == data@.len(),
                start + 32 <= data@.len(),
                0 <= i <= 32,
                out@.len() == 32,
                forall|j: int| 0 <= j < i ==> out@[j] == data@[start + j],
            decreases 32 - i,
        {
            out[i] = data[start + i];
            i = i + 1;
        }
        assert(out@ =~= data@.subrange(start as int, start + 32));
        U256(out)
    }

    /// Byte-wise equality.
    pub fn equals(&self, other: &Self) -> (r: bool)
        ensures
            r == (self@ == other@),
    {
        let mut i: usize = 0;
        while i < 32
            invariant
                0 <= i <= 32,
                self@.len() == 32,
                other@.len() == 32,
                forall|j: int| 0 <= j < i ==> self@[j] == other@[j],
            decreases 32 - i,
        {
            if self.0[i] != other.0[i] {
                return false;
            }
            i = i + 1;
        }
        assert(self@ =~= other@);
        true
    }
}

impl PartialEq for U256 {
    fn eq(&self, other: &U256) -> (r: bool) {
        self.equals(other)
    }
}

impl vstd::std_specs::cmp::PartialEqSpecImpl for U256 {
    open spec fn obeys_eq_spec() -> bool {
        true
    }

    open spec fn eq_spec(&self, other: &U256) -> bool {
        self@ == other@
    }
}

impl Eq for U256 {
}

impl From<[u8; 32]> for U256 {
    fn from(data: [u8; 32]) -> (r: U256) {
        U256(data)
    }
}

impl vstd::std_specs::convert::FromSpecImpl<[u8; 32]> for U256 {
    open spec fn obeys_from_spec() -> bool {
        true
    }

    open spec fn from_spec(data: [u8; 32]) -> U256 {
        U256(data)
    }
}

} // verus!
