//! What the pass reports, and the list in which it collects its reports.

use vstd::prelude::*;
use crate::name::Symbol;

verus! {

/// A fault in the program that is renamed.
#[derive(Clone, Copy, Debug, PartialEq, Eq, Structural)]
pub enum Diagnostic {
    /// `symbol` is defined a second time in one scope.
    DuplicateDefinition { symbol: Symbol },
}

/// A list of reports, in the order in which they were made. Recording a
/// report never interrupts the work that found the fault.
pub struct Errors<T> {
    errors: Vec<T>,
}

impl<T> View for Errors<T> {
    type V = Seq<T>;

    closed spec fn view(&self) -> Seq<T> {
        self.errors@
    }
}

impl<T> Errors<T> {
    /// The empty list.
    pub fn new() -> (r: Errors<T>)
        ensures
            r@ == Seq::<T>::empty(),
    {
        Errors { errors: Vec::new() }
    }

    /// Appends `e`.
    pub fn insert(&mut self, e: T)
        ensures
            final(self)@ == old(self)@.push(e),
    {
        self.errors.push(e);
    }

    /// Whether anything was reported.
    pub fn has_errors(&self) -> (r: bool)
        ensures
            r == (self@.len() != 0),
    {
        self.errors.len() != 0
    }

    /// Hands out the reports in the order in which they were made, and
    /// leaves the list empty.
    pub fn drain(&mut self) -> (r: Vec<T>)
        ensures
            r@ == old(self)@,
            final(self)@ == Seq::<T>::empty(),
    {
        let mut out: Vec<T> = Vec::new();
        std::mem::swap(&mut self.errors, &mut out);
        out
    }
}

} // verus!
