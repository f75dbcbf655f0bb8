//! FNV-1a hashing: a fixed, seedless 64-bit hash.

use vstd::prelude::*;

verus! {

/// FNV-1a offset basis for 64-bit hashes.
pub const FNV_OFFSET: u64 = 0xcbf2_9ce4_8422_2325;

/// FNV-1a prime for 64-bit hashes.
pub const FNV_PRIME: u64 = 0x0100_0000_01b3;

/// One FNV-1a step: mix in a byte, then multiply by the prime modulo 2^64.
pub open spec fn fnv_step(h: u64, b: u8) -> u64 {
    (((h ^ (b as u64)) as int * FNV_PRIME as int) % 0x1_0000_0000_0000_0000) as u64
}

/// The state after feeding `bytes` to a hasher in state `h`.
pub open spec fn fnv_fold(h: u64, bytes: Seq<u8>) -> u64
    decreases bytes.len(),
{
    if bytes.len() == 0 {
        h
    } else {
        fnv_step(fnv_fold(h, bytes.drop_last()), bytes.last())
    }
}

/// FNV-1a hash of a byte string.
pub open spec fn fnv_hash(bytes: Seq<u8>) -> u64 {
    fnv_fold(FNV_OFFSET, bytes)
}

/// Feeding two byte strings in turn is feeding their concatenation.
pub proof fn law_fnv_fold_concat(h: u64, a: Seq<u8>, b: Seq<u8>)
    ensures
        fnv_fold(fnv_fold(h, a), b) == fnv_fold(h, a + b),
    decreases b.len(),
{
    if b.len() == 0 {
        assert(a + b =~= a);
    } else {
        law_fnv_fold_concat(h, a, b.drop_last());
        assert((a + b).drop_last() =~= a + b.drop_last());
        assert((a + b).last() == b.last());
    }
}

/// An FNV-1a hasher.
pub struct FnvHasher {
    hash: u64,
}

impl View for FnvHasher {
    type V = u64;

    closed spec fn view(&self) -> u64 {
        self.hash
    }
}

impl FnvHasher {
    /// A hasher in the initial state.
    pub fn new() -> (r: Self)
        ensures
            r@ == FNV_OFFSET,
    {
        FnvHasher { hash: FNV_OFFSET }
    }

    /// Feeds bytes to the hasher.
    pub fn write_bytes(&mut self, bytes: &[u8])
        ensures
            final(self)@ == fnv_fold(old(self)@, bytes@),
    {
        let mut i: usize = 0;
        while i < bytes.len()
            invariant
                i <= bytes@.len(),
                self@ == fnv_fold(old(self)@, bytes@.subrange(0, i as int)),
            decreases bytes@.len() - i,
        {
            let b = bytes[i];
            let x = self.hash ^ (b as u64);
            self.hash = x.wrapping_mul(FNV_PRIME);
            proof {
                let pre = bytes@.subrange(0, i as int);
                let post = bytes@.subrange(0, i + 1);
                assert(post.drop_last() =~= pre);
                assert(post.last() == b);
                assert(self.hash == fnv_step(fnv_fold(old(self)@, pre), b));
            }
            i = i + 1;
        }
        assert(bytes@.subrange(0, i as int) =~= bytes@);
    }

    /// The hash of everything fed so far.
    pub fn finish_hash(&self) -> (h: u64)
        ensures
            h == self@,
    {
        self.hash
    }
}

impl Default for FnvHasher {
    fn default() -> (r: Self)
        ensures
            r@ == FNV_OFFSET,
    {
        FnvHasher::new()
    }
}

impl core::hash::Hasher for FnvHasher {
    fn finish(&self) -> (h: u64)
        ensures
            h == self@,
    {
        self.hash
    }

    fn write(&mut self, bytes: &[u8])
        ensures
            final(self)@ == fnv_fold(old(self)@, bytes@),
    {
        self.write_bytes(bytes);
    }
}

} // verus!
