//! What the pass guarantees, whatever tree it is given.

use vstd::prelude::*;
use crate::invariants::{
    extends, lemma_bindings, lemma_clause, lemma_clauses, lemma_declare, lemma_declared, lemma_expr,
    lemma_instances, lemma_make_unique, lemma_modules,
};
use crate::name::{Name, Symbol};
use crate::scoped_map::{lemma_nearest, lookup};
use crate::semantics::{
    bindings_renaming, clause_renaming, clauses_renaming, declared, expr_renaming,
    instances_renaming, module_renaming, modules_renaming, pattern_renaming, starts_group, Env,
    Renamed,
};
use crate::syntax::{
    BindingView, ExprView, InstanceView, Location, ModuleView, PatternView, Type, TypedExprView,
};

verus! {

/// The first identity that a new renamer mints is 2.
pub proof fn law_first_mint(symbol: Symbol)
    ensures
        Env::initial().make_unique(symbol).out == (Name { name: symbol, uid: 2 }),
        Env::initial().make_unique(symbol).env.errors.len() == 0,
{
}

/// An identifier that no frame binds is a reference to a global: it is
/// renamed to the global name of its symbol, nothing is reported and the
/// state stays as it is.
pub proof fn law_free_variable(env: Env, symbol: Symbol, typ: Type, location: Location)
    requires
        forall|i: int|
            0 <= i < env.scopes.len() ==> !(#[trigger] env.scopes[i]).contains_key(symbol),
    ensures
        expr_renaming(
            env,
            TypedExprView { expr: ExprView::Identifier(symbol), typ, location },
        ) == (Renamed {
            env,
            out: TypedExprView { expr: ExprView::Identifier(Name::global(symbol)), typ, location },
        }),
{
    lemma_nearest(env.scopes, symbol);
}

/// An identifier that some frame binds takes the identity of its innermost
/// binding, however many frames further out bind the same symbol.
pub proof fn law_innermost_binding(env: Env, symbol: Symbol, typ: Type, location: Location, i: int)
    requires
        0 <= i < env.scopes.len(),
        env.scopes[i].contains_key(symbol),
        forall|j: int|
            i < j < env.scopes.len() ==> !(#[trigger] env.scopes[j]).contains_key(symbol),
    ensures
        expr_renaming(
            env,
            TypedExprView { expr: ExprView::Identifier(symbol), typ, location },
        ).out.expr == ExprView::Identifier(Name { name: symbol, uid: env.scopes[i][symbol].uid }),
{
    lemma_nearest(env.scopes, symbol);
}

/// A constructor in a pattern is a global name, and the state does not
/// learn of it.
pub proof fn law_constructor_pattern(env: Env, symbol: Symbol)
    ensures
        pattern_renaming(
            env,
            PatternView::ConstructorPattern(symbol, Seq::empty()),
        ) == (Renamed {
            env,
            out: PatternView::ConstructorPattern(Name::global(symbol), Seq::empty()),
        }),
        forall|patterns: Seq<PatternView<Symbol>>|
            (#[trigger] pattern_renaming(
                env,
                PatternView::ConstructorPattern(symbol, patterns),
            ).out) matches PatternView::ConstructorPattern(name, _) && name == Name::global(symbol),
{
}

/// Every equation of a list takes the name that the declarations gave to
/// its symbol.
pub proof fn lemma_clause_names(env: Env, bindings: Seq<BindingView<Symbol>>, n: nat)
    requires
        env.scopes.len() >= 1,
        n <= bindings.len(),
    ensures
        forall|j: int|
            0 <= j < n ==> (#[trigger] clauses_renaming(env, bindings, n).out[j]).name == lookup(
                env.scopes,
                bindings[j].name,
            ).unwrap(),
    decreases n,
{
    if n > 0 {
        let m = (n - 1) as nat;
        lemma_clause_names(env, bindings, m);
        lemma_clauses(env, bindings, 0, m);
        let before = clauses_renaming(env, bindings, m);
        assert forall|j: int| 0 <= j < n implies (#[trigger] clauses_renaming(
            env,
            bindings,
            n,
        ).out[j]).name == lookup(env.scopes, bindings[j].name).unwrap() by {
            let last = clause_renaming(before.env, bindings[n - 1]);
            assert(clauses_renaming(env, bindings, n).out == before.out.push(last.out));
            if j < m {
                assert(clauses_renaming(env, bindings, n).out[j] == before.out[j]);
            } else {
                assert(clauses_renaming(env, bindings, n).out[j] == last.out);
            }
        }
    }
}

/// The equations of one definition share one name: two bindings of a list
/// that have the same symbol are renamed to the same name. Each equation
/// has its arguments in a frame of its own, which is gone when the equation
/// is done.
pub proof fn law_clauses_share_name(
    env: Env,
    bindings: Seq<BindingView<Symbol>>,
    is_global: bool,
    i: int,
    j: int,
)
    requires
        env.scopes.len() >= 1,
        0 <= i < bindings.len(),
        0 <= j < bindings.len(),
        bindings[i].name == bindings[j].name,
    ensures
        bindings_renaming(env, bindings, is_global).out[i].name == bindings_renaming(
            env,
            bindings,
            is_global,
        ).out[j].name,
        forall|before: Env|
            before.scopes.len() >= 1 ==> (#[trigger] clause_renaming(
                before,
                bindings[i],
            )).env.scopes == before.scopes,
{
    let start = declared(env, bindings, bindings.len(), is_global);
    lemma_declared(env, bindings, 0, bindings.len(), is_global);
    lemma_clause_names(start, bindings, bindings.len());
    assert forall|before: Env| before.scopes.len() >= 1 implies (#[trigger] clause_renaming(
        before,
        bindings[i],
    )).env.scopes == before.scopes by {
        lemma_clause(before, bindings[i]);
    }
}

/// After the definitions of a global list are declared, the innermost
/// frame binds the symbol of each binding to a global name.
pub proof fn lemma_declared_global(env: Env, bindings: Seq<BindingView<Symbol>>, n: nat)
    requires
        env.scopes.len() >= 1,
        n <= bindings.len(),
    ensures
        forall|j: int|
            0 <= j < n ==> {
                let frame = declared(env, bindings, n, true).scopes.last();
                frame.contains_key(#[trigger] bindings[j].name) && frame[bindings[j].name].uid == 0
            },
    decreases n,
{
    if n > 0 {
        let m = (n - 1) as nat;
        lemma_declared_global(env, bindings, m);
        lemma_declared(env, bindings, 0, m, true);
        let before = declared(env, bindings, m, true);
        if starts_group(bindings, n - 1) {
            let symbol = bindings[n - 1].name;
            lemma_make_unique(before, symbol);
            lemma_declare(before, symbol, true);
            lemma_nearest(before.make_unique(symbol).env.scopes, symbol);
        }
    }
}

/// The bindings of a global list are renamed to global names.
pub proof fn law_global_bindings(env: Env, bindings: Seq<BindingView<Symbol>>)
    requires
        env.scopes.len() >= 1,
    ensures
        bindings_renaming(env, bindings, true).out.len() == bindings.len(),
        forall|i: int|
            0 <= i < bindings.len() ==> (#[trigger] bindings_renaming(
                env,
                bindings,
                true,
            ).out[i]).name.uid == 0,
{
    let start = declared(env, bindings, bindings.len(), true);
    lemma_bindings(env, bindings, true);
    lemma_declared(env, bindings, 0, bindings.len(), true);
    lemma_declared_global(env, bindings, bindings.len());
    lemma_clause_names(start, bindings, bindings.len());
    assert forall|i: int| 0 <= i < bindings.len() implies (#[trigger] bindings_renaming(
        env,
        bindings,
        true,
    ).out[i]).name.uid == 0 by {
        lemma_nearest(start.scopes, bindings[i].name);
    }
}

/// The method bindings of the first `n` instances are renamed to global
/// names.
pub proof fn lemma_global_instances(env: Env, instances: Seq<InstanceView<Symbol>>, n: nat)
    requires
        env.scopes.len() >= 1,
        n <= instances.len(),
    ensures
        instances_renaming(env, instances, n).out.len() == n,
        forall|i: int, j: int|
            0 <= i < n && 0 <= j < instances_renaming(env, instances, n).out[i].bindings.len()
                ==> (#[trigger] instances_renaming(env, instances, n).out[i].bindings[j]).name.uid
                == 0,
    decreases n,
{
    lemma_instances(env, instances, 0, n);
    if n > 0 {
        let m = (n - 1) as nat;
        lemma_global_instances(env, instances, m);
        lemma_instances(env, instances, 0, m);
        let before = instances_renaming(env, instances, m);
        law_global_bindings(before.env, instances[n - 1].bindings);
        let now = instances_renaming(env, instances, n);
        assert forall|i: int, j: int|
            0 <= i < n && 0 <= j < now.out[i].bindings.len() implies (
        #[trigger] now.out[i].bindings[j]).name.uid == 0 by {
            if i < m {
                assert(now.out[i] == before.out[i]);
            }
        }
    }
}

/// In a renamed module every top-level binding, every method binding of an
/// instance and every data constructor has a global name.
pub proof fn law_global_sentinel(env: Env, module: ModuleView<Symbol>)
    requires
        env.scopes.len() >= 1,
    ensures
        ({
            let out = module_renaming(env, module).out;
            &&& forall|i: int|
                0 <= i < out.bindings.len() ==> (#[trigger] out.bindings[i]).name.uid == 0
            &&& forall|i: int, j: int|
                0 <= i < out.instances.len() && 0 <= j < out.instances[i].bindings.len() ==> (
                #[trigger] out.instances[i].bindings[j]).name.uid == 0
            &&& forall|i: int, j: int|
                0 <= i < out.data_definitions.len() && 0 <= j
                    < out.data_definitions[i].constructors.len() ==> (
                #[trigger] out.data_definitions[i].constructors[j]).name.uid == 0
        }),
{
    lemma_global_instances(env, module.instances, module.instances.len());
    lemma_instances(env, module.instances, 0, module.instances.len());
    let instances = instances_renaming(env, module.instances, module.instances.len());
    law_global_bindings(instances.env, module.bindings);
}

/// A new renamer is well formed, and renaming a program keeps it so:
/// whatever is in scope at any time is bound under its own symbol and has
/// a number that the counter has reached.
pub proof fn law_well_formed(modules: Seq<ModuleView<Symbol>>, n: nat)
    requires
        n <= modules.len(),
    ensures
        Env::initial().well_formed(),
        modules_renaming(Env::initial(), modules, n).env.well_formed(),
{
    lemma_modules(Env::initial(), modules, 0, n);
}

/// Renaming an expression in a well-formed state leaves a well-formed
/// state, with the frames that were there and the bindings that they had.
pub proof fn law_expr_keeps_scopes(env: Env, expr: TypedExprView<Symbol>)
    requires
        env.scopes.len() >= 1,
    ensures
        extends(env, expr_renaming(env, expr).env),
        env.well_formed() ==> expr_renaming(env, expr).env.well_formed(),
{
    lemma_expr(env, expr);
}

} // verus!
