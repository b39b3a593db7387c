//! Identities of traders, authorities and markets.

use vstd::prelude::*;
use vstd::std_specs::cmp::PartialEqSpecImpl;

verus! {

/// Number of bytes in an identity.
pub const IDENTITY_LEN: usize = 32;

/// An authenticated identity: the 32 bytes under which the host knows a
/// trader, an authority or a market. Two identities are the same exactly when
/// their bytes are.
#[derive(Clone, Copy, Debug, Eq, Hash)]
pub struct Identity {
    pub bytes: [u8; IDENTITY_LEN],
}

impl Identity {
    /// Whether this is the identity that stands for nobody: all bytes zero.
    /// A record whose owner is unset has not been opened yet.
    pub open spec fn is_unset(self) -> bool {
        forall|i: int| 0 <= i < IDENTITY_LEN ==> self.bytes[i] == 0u8
    }

    /// The unset identity.
    pub fn unset() -> (id: Identity)
        ensures
            id.is_unset(),
    {
        Identity { bytes: [0u8; IDENTITY_LEN] }
    }

    /// Whether this is the unset identity.
    pub fn check_unset(&self) -> (unset: bool)
        ensures
            unset == self.is_unset(),
    {
        let mut i: usize = 0;
        while i < IDENTITY_LEN
            invariant
                0 <= i <= IDENTITY_LEN,
                forall|j: int| 0 <= j < i ==> self.bytes[j] == 0u8,
            decreases IDENTITY_LEN - i,
        {
            if self.bytes[i] != 0 {
                return false;
            }
            i += 1;
        }
        true
    }
}

impl PartialEq for Identity {
    fn eq(&self, other: &Identity) -> (same: bool) {
        let mut i: usize = 0;
        while i < IDENTITY_LEN
            invariant
                0 <= i <= IDENTITY_LEN,
                forall|j: int| 0 <= j < i ==> self.bytes[j] == other.bytes[j],
            decreases IDENTITY_LEN - i,
        {
            if self.bytes[i] != other.bytes[i] {
                return false;
            }
            i += 1;
        }
        assert(self.bytes =~= other.bytes);
        true
    }
}

impl PartialEqSpecImpl for Identity {
    open spec fn obeys_eq_spec() -> bool {
        true
    }

    open spec fn eq_spec(&self, other: &Identity) -> bool {
        *self == *other
    }
}

/// Any two unset identities are the same identity.
pub proof fn lemma_unset_is_unique(a: Identity, b: Identity)
    requires
        a.is_unset(),
        b.is_unset(),
    ensures
        a == b,
{
    assert(a.bytes =~= b.bytes);
}

} // verus!
