//! Identities of principals and assets, and the authority check.

use vstd::prelude::*;

verus! {

/// The identity of a principal (an authority, a merchant, a customer) or of
/// an asset: 32 opaque bytes. Two identities are the same when all their
/// bytes agree.
#[derive(Clone, Copy, Debug, PartialEq, Eq)]
pub struct Identity {
    pub bytes: [u8; 32],
}

impl Identity {
    /// The identity made of the given bytes.
    pub fn new(bytes: [u8; 32]) -> (id: Identity)
        ensures
            id.bytes == bytes,
    {
        Identity { bytes }
    }

    /// The bytes of this identity.
    pub fn to_bytes(&self) -> (bytes: [u8; 32])
        ensures
            bytes == self.bytes,
    {
        self.bytes
    }

    /// Whether two identities are the same.
    pub fn same_as(&self, other: &Identity) -> (same: bool)
        ensures
            same == (*self == *other),
    {
        let mut i: usize = 0;
        while i < 32
            invariant
                i <= 32,
                forall|j: int| 0 <= j < i ==> self.bytes@[j] == other.bytes@[j],
            decreases 32 - i,
        {
            if self.bytes[i] != other.bytes[i] {
                return false;
            }
            i = i + 1;
        }
        assert(self.bytes =~= other.bytes);
        true
    }
}

/// Whether the identity presented by a caller is the one recorded as the
/// authority of a protected record. The caller's identity is taken as
/// already attested; this is the equality check alone.
pub fn check(presented: &Identity, recorded: &Identity) -> (allowed: bool)
    ensures
        allowed == (*presented == *recorded),
{
    presented.same_as(recorded)
}

} // verus!
