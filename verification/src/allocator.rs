//! Where identities come from.

use vstd::prelude::*;
use crate::name::{Name, Symbol};

verus! {

/// A counter from which the numbers of local names are minted. It only
/// rises, so no number is minted twice. Its view is the last number that
/// was minted; a new allocator stands at 1, so the first number is 2.
pub struct IdentityAllocator {
    counter: usize,
}

impl View for IdentityAllocator {
    type V = nat;

    closed spec fn view(&self) -> nat {
        self.counter as nat
    }
}

impl IdentityAllocator {
    /// An allocator that has minted nothing.
    pub fn new() -> (r: IdentityAllocator)
        ensures
            r@ == 1,
    {
        IdentityAllocator { counter: 1 }
    }

    /// Advances the counter and returns a name for `symbol` with the new
    /// value.
    pub fn mint(&mut self, symbol: Symbol) -> (r: Name)
        requires
            old(self)@ < usize::MAX,
        ensures
            final(self)@ == old(self)@ + 1,
            r == (Name { name: symbol, uid: (old(self)@ + 1) as usize }),
    {
        self.counter += 1;
        Name { name: symbol, uid: self.counter }
    }

    /// Whether `n` more numbers can be minted.
    pub fn has_room(&self, n: usize) -> (r: bool)
        ensures
            r == (self@ + n <= usize::MAX),
    {
        n <= usize::MAX - self.counter
    }
}

} // verus!
