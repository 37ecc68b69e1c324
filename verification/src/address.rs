//! Account and contract addresses as plain values.

use vstd::prelude::*;

verus! {

/// An address: its kind (`0` for an account, `1` for a contract) and the 32 bytes that identify
/// it, as the upper and the lower half of a big-endian number.
///
/// Addresses are ordered by kind, then by their bytes.
#[derive(Clone, Copy, Debug, PartialEq, Eq, Structural)]
pub struct Address {
    pub kind: u32,
    pub upper: u128,
    pub lower: u128,
}

/// The lexicographic order on `(kind, upper, lower)`.
pub open spec fn key_less(a: (u32, u128, u128), b: (u32, u128, u128)) -> bool {
    ||| a.0 < b.0
    ||| a.0 == b.0 && a.1 < b.1
    ||| a.0 == b.0 && a.1 == b.1 && a.2 < b.2
}

impl Address {
    /// The address as a tuple of integers.
    pub open spec fn spec_key(self) -> (u32, u128, u128) {
        (self.kind, self.upper, self.lower)
    }

    /// Whether `self` comes before `other`.
    pub open spec fn precedes(self, other: Address) -> bool {
        key_less(self.spec_key(), other.spec_key())
    }

    /// The address as a tuple of integers.
    pub(crate) fn key(&self) -> (k: (u32, u128, u128))
        ensures
            k == self.spec_key(),
    {
        (self.kind, self.upper, self.lower)
    }

    /// The address that a tuple of integers stands for.
    pub open spec fn spec_of_key(k: (u32, u128, u128)) -> Address {
        Address { kind: k.0, upper: k.1, lower: k.2 }
    }

    /// The address that a tuple of integers stands for.
    pub(crate) fn of_key(k: (u32, u128, u128)) -> (a: Address)
        ensures
            a == Address::spec_of_key(k),
    {
        Address { kind: k.0, upper: k.1, lower: k.2 }
    }
}

} // verus!
