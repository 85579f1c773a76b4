//! A hasher for keys that are integers already, whose value serves as their hash.

use vstd::prelude::*;

verus! {

/// A hasher that keeps the last integer it is given as the hash. Signed integers and `usize`
/// are taken as their bits, widened to 64 (signed ones with their sign).
#[derive(Clone, Copy, Debug)]
pub struct NoHashHasher {
    hash: u64,
}

impl NoHashHasher {
    /// The hash so far.
    pub closed spec fn spec_hash(&self) -> u64 {
        self.hash
    }

    /// A hasher that has been given nothing.
    pub fn new() -> (h: Self)
        ensures
            h.spec_hash() == 0,
    {
        NoHashHasher { hash: 0 }
    }

    /// Take a byte as the hash.
    pub fn write_u8(&mut self, n: u8)
        ensures
            final(self).spec_hash() == n,
    {
        self.hash = n as u64;
    }

    /// Take a 16-bit integer as the hash.
    pub fn write_u16(&mut self, n: u16)
        ensures
            final(self).spec_hash() == n,
    {
        self.hash = n as u64;
    }

    /// Take a 32-bit integer as the hash.
    pub fn write_u32(&mut self, n: u32)
        ensures
            final(self).spec_hash() == n,
    {
        self.hash = n as u64;
    }

    /// Take a 64-bit integer as the hash.
    pub fn write_u64(&mut self, n: u64)
        ensures
            final(self).spec_hash() == n,
    {
        self.hash = n;
    }

    /// Take a `usize` as the hash.
    pub fn write_usize(&mut self, n: usize)
        ensures
            final(self).spec_hash() == n as u64,
    {
        self.hash = n as u64;
    }

    /// Take a signed byte's bits, sign-extended, as the hash.
    pub fn write_i8(&mut self, n: i8)
        ensures
            final(self).spec_hash() == n as u64,
    {
        self.hash = n as u64;
    }

    /// Take a signed 16-bit integer's bits, sign-extended, as the hash.
    pub fn write_i16(&mut self, n: i16)
        ensures
            final(self).spec_hash() == n as u64,
    {
        self.hash = n as u64;
    }

    /// Take a signed 32-bit integer's bits, sign-extended, as the hash.
    pub fn write_i32(&mut self, n: i32)
        ensures
            final(self).spec_hash() == n as u64,
    {
        self.hash = n as u64;
    }

    /// Take a signed 64-bit integer's bits as the hash.
    pub fn write_i64(&mut self, n: i64)
        ensures
            final(self).spec_hash() == n as u64,
    {
        self.hash = n as u64;
    }

    /// Take a signed `isize`'s bits, sign-extended, as the hash.
    pub fn write_isize(&mut self, n: isize)
        ensures
            final(self).spec_hash() == n as u64,
    {
        self.hash = n as u64;
    }

    /// The hash.
    pub fn finish(&self) -> (h: u64)
        ensures
            h == self.spec_hash(),
    {
        self.hash
    }
}

impl Default for NoHashHasher {
    fn default() -> (h: Self)
        ensures
            h.spec_hash() == 0,
    {
        NoHashHasher { hash: 0 }
    }
}

} // verus!
