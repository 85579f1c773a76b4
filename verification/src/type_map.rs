//! A hasher for type identifiers, which already are hashes.

use vstd::prelude::*;

verus! {

/// A hasher that keeps the one integer it is given as the hash.
///
/// Type identifiers are unique hashes already, so hashing them again is wasted work.
#[derive(Debug)]
pub struct TypeIdHasher {
    hash: u64,
}

impl TypeIdHasher {
    /// The hash so far.
    pub closed spec fn spec_hash(&self) -> u64 {
        self.hash
    }

    /// A hasher that has been given nothing.
    pub fn new() -> (h: Self)
        ensures
            h.spec_hash() == 0,
    {
        TypeIdHasher { hash: 0 }
    }

    /// Take a 64-bit identifier as the hash. Only one value is ever hashed, so the hash so far is
    /// zero.
    pub fn write_u64(&mut self, n: u64)
        requires
            old(self).spec_hash() == 0,
        ensures
            final(self).spec_hash() == n,
    {
        self.hash = n;
    }

    /// Take a 128-bit identifier's low 64 bits as the hash. Only one value is ever hashed, so the
    /// hash so far is zero.
    pub fn write_u128(&mut self, n: u128)
        requires
            old(self).spec_hash() == 0,
        ensures
            final(self).spec_hash() == n % 0x1_0000_0000_0000_0000,
    {
        let low = (n & 0xffff_ffff_ffff_ffff) as u64;
        assert(n & 0xffff_ffff_ffff_ffff == n % 0x1_0000_0000_0000_0000) by (bit_vector);
        self.hash = low;
    }

    /// The hash.
    pub fn finish(&self) -> (h: u64)
        ensures
            h == self.spec_hash(),
    {
        self.hash
    }
}

impl Default for TypeIdHasher {
    fn default() -> (h: Self)
        ensures
            h.spec_hash() == 0,
    {
        TypeIdHasher { hash: 0 }
    }
}

} // verus!
