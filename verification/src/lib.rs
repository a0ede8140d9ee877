//! Scope resolution for a small functional language.
//!
//! The renaming pass turns a syntax tree whose identifiers are interned
//! symbols into one whose identifiers are [`Name`]s: a symbol paired with a
//! number that tells apart the bindings that share the symbol. It resolves
//! every identifier to the binding that it refers to under nested scopes,
//! and reports a symbol that is defined twice in one scope without giving
//! up on the rest of the program.

pub mod allocator;
pub mod binders;
pub mod capacity;
pub mod errors;
pub mod grouping;
pub mod invariants;
pub mod laws;
pub mod name;
pub mod renamer;
pub mod scoped_map;
pub mod semantics;
pub mod syntax;
pub mod uniqueness;

pub use allocator::IdentityAllocator;
pub use capacity::{
    count_bindings, count_expr, count_module, count_modules, count_pattern, count_patterns,
};
pub use errors::{Diagnostic, Errors};
pub use grouping::binding_groups;
pub use name::{Name, Symbol};
pub use renamer::{
    checked_rename_modules, rename_expr, rename_module, rename_module_, rename_modules, Renamer,
};
pub use scoped_map::ScopedMap;
