use crate::module::MFA;
use vstd::prelude::*;

verus! {

/// The function references that natively implemented functions answer in
/// place of bytecode.
pub struct BifRegistry {
    overrides: Vec<MFA>,
}

impl BifRegistry {
    /// Whether `mfa` has a native override.
    pub closed spec fn has(&self, mfa: MFA) -> bool {
        self.overrides@.contains(mfa)
    }

    /// A registry of the native functions `overrides`.
    pub fn new(overrides: Vec<MFA>) -> (r: Self)
        ensures
            forall|mfa: MFA| #[trigger] r.has(mfa) == overrides@.contains(mfa),
    {
        BifRegistry { overrides }
    }

    /// Whether a native function answers calls of `mfa`.
    pub fn is_override(&self, mfa: &MFA) -> (r: bool)
        ensures
            r == self.has(*mfa),
    {
        let mut i: usize = 0;
        while i < self.overrides.len()
            invariant
                i <= self.overrides@.len(),
                forall|j: int| 0 <= j < i ==> self.overrides@[j] != *mfa,
            decreases self.overrides@.len() - i,
        {
            if self.overrides[i] == *mfa {
                return true;
            }
            i = i + 1;
        }
        false
    }
}

} // verus!
