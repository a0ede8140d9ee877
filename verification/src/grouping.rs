//! Grouping the equations of a binding list into definitions.
//!
//! A function may be defined by several equations, written one after the
//! other. A definition is therefore a maximal run of consecutive bindings
//! with one name.

use vstd::prelude::*;
use crate::name::Symbol;
use crate::semantics::{declared, starts_group, Env};
use crate::syntax::{bindings_view, Binding, BindingView};

verus! {

/// Whether no binding after `from` and before `to` opens a definition.
pub open spec fn is_run(bindings: Seq<BindingView<Symbol>>, from: int, to: int) -> bool {
    forall|j: int| from < j < to ==> !#[trigger] starts_group(bindings, j)
}

/// Whether `groups`, read as half-open index ranges, cuts `bindings` into
/// its definitions: the ranges are not empty, follow each other without a
/// gap from the first binding to the last, and each begins where a
/// definition opens and holds no other such place.
pub open spec fn is_grouping(
    bindings: Seq<BindingView<Symbol>>,
    groups: Seq<(usize, usize)>,
) -> bool {
    &&& groups.len() == 0 <==> bindings.len() == 0
    &&& groups.len() > 0 ==> groups[0].0 == 0 && groups.last().1 == bindings.len()
    &&& forall|k: int|
        0 <= k < groups.len() ==> {
            &&& (#[trigger] groups[k]).0 < groups[k].1 <= bindings.len()
            &&& starts_group(bindings, groups[k].0 as int)
            &&& is_run(bindings, groups[k].0 as int, groups[k].1 as int)
        }
    &&& forall|k: int, l: int|
        0 <= k < groups.len() && l == k + 1 && l < groups.len() ==> (#[trigger] groups[k]).1 == (
        #[trigger] groups[l]).0
}

/// The definitions of a binding list, in order, as half-open index ranges.
pub fn binding_groups(bindings: &Vec<Binding<Symbol>>) -> (groups: Vec<(usize, usize)>)
    ensures
        is_grouping(bindings_view(bindings@), groups@),
{
    let ghost items = bindings_view(bindings@);
    let mut groups: Vec<(usize, usize)> = Vec::new();
    let n: usize = bindings.len();
    if n == 0 {
        return groups;
    }
    let mut start: usize = 0;
    let mut i: usize = 1;
    while i < n
        invariant
            n == bindings@.len(),
            items == bindings_view(bindings@),
            start < i <= n,
            groups@.len() == 0 ==> start == 0,
            groups@.len() > 0 ==> groups@[0].0 == 0 && groups@.last().1 == start,
            forall|k: int|
                0 <= k < groups@.len() ==> {
                    &&& (#[trigger] groups@[k]).0 < groups@[k].1 <= start
                    &&& starts_group(items, groups@[k].0 as int)
                    &&& is_run(items, groups@[k].0 as int, groups@[k].1 as int)
                },
            forall|k: int, l: int|
                0 <= k < groups@.len() && l == k + 1 && l < groups@.len() ==> (
                #[trigger] groups@[k]).1 == (#[trigger] groups@[l]).0,
            starts_group(items, start as int),
            is_run(items, start as int, i as int),
        decreases n - i,
    {
        if !(bindings[i].name == bindings[i - 1].name) {
            groups.push((start, i));
            start = i;
        }
        i += 1;
    }
    groups.push((start, n));
    groups
}

/// Bindings that open no definition declare nothing.
pub proof fn lemma_declared_run(
    env: Env,
    bindings: Seq<BindingView<Symbol>>,
    from: nat,
    to: nat,
    is_global: bool,
)
    requires
        from <= to <= bindings.len(),
        forall|j: int| from <= j < to ==> !starts_group(bindings, j),
    ensures
        declared(env, bindings, to, is_global) == declared(env, bindings, from, is_global),
    decreases to,
{
    if from < to {
        lemma_declared_run(env, bindings, from, (to - 1) as nat, is_global);
    }
}

} // verus!
