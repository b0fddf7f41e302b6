use vstd::prelude::*;

verus! {

/// A 32-byte hash, as carried by L1 handler transactions (their message hash)
/// and by the messaging configuration (the last processed message).
#[derive(Clone, Copy, Debug)]
pub struct Hash32 {
    pub bytes: [u8; 32],
}

/// Two hashes are the same when their bytes are.
pub open spec fn same_hash(a: Hash32, b: Hash32) -> bool {
    a.bytes@ == b.bytes@
}

impl Hash32 {
    /// Builds a hash from its 32 bytes.
    pub fn from_bytes(bytes: [u8; 32]) -> (h: Hash32)
        ensures
            h.bytes@ == bytes@,
    {
        Hash32 { bytes }
    }

    /// Byte-wise equality of two hashes.
    pub fn same_as(&self, other: &Hash32) -> (r: bool)
        ensures
            r == same_hash(*self, *other),
    {
        let mut i: usize = 0;
        while i < 32
            invariant
                i <= 32,
                forall|j: int| 0 <= j < i ==> self.bytes@[j] == other.bytes@[j],
            decreases 32 - i,
        {
            if self.bytes[i] != other.bytes[i] {
                return false;
            }
            i = i + 1;
        }
        assert(self.bytes@ =~= other.bytes@);
        true
    }
}

} // verus!
