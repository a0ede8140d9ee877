//! Identifiers before and after renaming.

use vstd::prelude::*;

verus! {

/// Handle of an interned string. Two handles are equal exactly when they
/// stand for the same text; which text that is, only the interner that gave
/// out the handle knows.
#[derive(Clone, Copy, Debug, PartialEq, Eq, Hash, Structural)]
pub struct Symbol(pub usize);

/// A resolved identifier.
///
/// `uid == 0` marks a global: such a name is identified by its symbol alone.
/// Every other `uid` was minted for one local binding and is shared by
/// nothing but the occurrences that refer to that binding.
#[derive(Clone, Copy, Debug, PartialEq, Eq, Hash, Structural)]
pub struct Name {
    pub name: Symbol,
    pub uid: usize,
}

impl Name {
    /// The name that stands for every global occurrence of `symbol`.
    pub open spec fn global(symbol: Symbol) -> Name {
        Name { name: symbol, uid: 0 }
    }

    /// Whether this name is identified by its symbol alone.
    pub fn is_global(&self) -> (r: bool)
        ensures
            r == (self.uid == 0),
    {
        self.uid == 0
    }
}

} // verus!
