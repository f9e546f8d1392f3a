//! Sponge keys.

use vstd::prelude::*;

verus! {

/// The length of a sponge key, and of the sponge's output, in bytes.
pub const SANCUS_KEY_SIZE: usize = 16;

/// A 128-bit key: a module key, the long-term key of a connection or a
/// session key.
#[derive(Clone, Copy, Debug, PartialEq, Eq)]
pub struct SancusKey {
    inner: [u8; 16],
}

impl View for SancusKey {
    type V = Seq<u8>;

    closed spec fn view(&self) -> Seq<u8> {
        self.inner@
    }
}

impl SancusKey {
    /// A key is sixteen bytes long.
    pub proof fn lemma_len(self)
        ensures
            self@.len() == SANCUS_KEY_SIZE,
    {
    }

    /// The key of sixteen zero bytes.
    pub fn zero() -> (key: SancusKey)
        ensures
            key@ == Seq::new(16, |i: int| 0u8),
    {
        let key = SancusKey { inner: [0; 16] };
        assert(key@ =~= Seq::new(16, |i: int| 0u8));
        key
    }

    /// The key with the given bytes.
    pub fn new(bytes: [u8; 16]) -> (key: SancusKey)
        ensures
            key@ == bytes@,
    {
        SancusKey { inner: bytes }
    }

    /// The key with the bytes of a slice, if there are sixteen of them.
    pub fn from_slice(bytes: &[u8]) -> (key: Option<SancusKey>)
        ensures
            bytes@.len() == SANCUS_KEY_SIZE ==> key is Some && key.unwrap()@ == bytes@,
            bytes@.len() != SANCUS_KEY_SIZE ==> key is None,
    {
        if bytes.len() != SANCUS_KEY_SIZE {
            return None;
        }
        let mut inner: [u8; 16] = [0; 16];
        let mut i: usize = 0;
        while i < 16
            invariant
                i <= 16,
                bytes@.len() == 16,
                forall|j: int| 0 <= j < i ==> inner@[j] == bytes@[j],
            decreases 16 - i,
        {
            inner[i] = bytes[i];
            i += 1;
        }
        assert(inner@ =~= bytes@);
        Some(SancusKey { inner })
    }

    /// The bytes of the key.
    pub fn as_bytes(&self) -> (bytes: &[u8; 16])
        ensures
            bytes@ == self@,
    {
        &self.inner
    }
}

} // verus!
