//! What every step of the pass leaves untouched.
//!
//! A step never changes the number of frames nor any frame but the
//! innermost, never unbinds a symbol in the innermost frame, never lowers
//! the counter and never withdraws a report. Steps that open a frame for
//! themselves leave all frames as they found them. The statements of a
//! `do` block may open frames that are left when the block ends.

use vstd::prelude::*;
use crate::name::Symbol;
use crate::scoped_map::{lemma_nearest, lookup};
use crate::semantics::{
    alternative_renaming, alternatives_renaming, bindings_renaming, clause_renaming,
    clauses_renaming, declared, expr_renaming, instance_renaming, instances_renaming,
    module_renaming, modules_renaming, node_renaming, pattern_renaming, patterns_renaming,
    opened_frames, starts_group, statement_renaming, statements_renaming, Env,
};
use crate::syntax::{
    AlternativeView, BindingView, DoBindingView, ExprView, InstanceView, ModuleView, PatternView,
    TypedExprView,
};

verus! {

/// `after` can be reached from `before` by steps of the pass that work in
/// the innermost frame of `before`.
pub open spec fn extends(before: Env, after: Env) -> bool {
    &&& after.scopes.len() == before.scopes.len()
    &&& after.scopes.drop_last() =~= before.scopes.drop_last()
    &&& before.scopes.last().dom().subset_of(after.scopes.last().dom())
    &&& before.counter <= after.counter
    &&& before.errors.is_prefix_of(after.errors)
    &&& before.well_formed() ==> after.well_formed()
}

/// `after` can be reached from `before` by steps of the pass that leave
/// every frame as it was.
pub open spec fn advances(before: Env, after: Env) -> bool {
    &&& after.scopes == before.scopes
    &&& before.counter <= after.counter
    &&& before.errors.is_prefix_of(after.errors)
    &&& before.well_formed() ==> after.well_formed()
}

/// `after` can be reached from `before` by steps of the pass that work in
/// the innermost frame of `before` or in frames that they open above it.
pub open spec fn deepens(before: Env, after: Env) -> bool {
    &&& after.scopes.len() >= before.scopes.len()
    &&& after.scopes.take(before.scopes.len() - 1) =~= before.scopes.drop_last()
    &&& before.scopes.last().dom().subset_of(after.scopes[before.scopes.len() - 1].dom())
    &&& before.counter <= after.counter
    &&& before.errors.is_prefix_of(after.errors)
    &&& before.well_formed() ==> after.well_formed()
}

/// Steps in the innermost frame are steps in or above it, and steps in or
/// above the innermost frame can follow each other.
pub proof fn lemma_deepens(first: Env, second: Env, third: Env)
    requires
        first.scopes.len() >= 1,
        deepens(first, second),
        deepens(second, third) || extends(second, third),
    ensures
        deepens(first, third),
        extends(second, third) ==> deepens(second, third),
{
    let depth = first.scopes.len() as int;
    if extends(second, third) {
        assert(third.scopes.take(second.scopes.len() - 1) =~= third.scopes.drop_last());
    }
    assert(deepens(second, third));
    assert forall|i: int| 0 <= i < depth - 1 implies third.scopes[i] == first.scopes[i] by {
        assert(third.scopes.take(second.scopes.len() - 1)[i] == second.scopes.drop_last()[i]);
        assert(second.scopes.take(depth - 1)[i] == first.scopes.drop_last()[i]);
    }
    assert(third.scopes.take(depth - 1) =~= first.scopes.drop_last());
    if second.scopes.len() > depth {
        assert(third.scopes.take(second.scopes.len() - 1)[depth - 1]
            == second.scopes.drop_last()[depth - 1]);
    }
}

/// Entering a scope is a step above the innermost frame.
pub proof fn lemma_deepens_enter(before: Env)
    requires
        before.scopes.len() >= 1,
    ensures
        deepens(before, before.enter()),
        before.enter().scopes.len() == before.scopes.len() + 1,
{
    let entered = before.enter();
    assert(entered.scopes.take(before.scopes.len() - 1) =~= before.scopes.drop_last());
    if before.well_formed() {
        assert forall|i: int, symbol: Symbol|
            0 <= i < entered.scopes.len() && (#[trigger] entered.scopes[i].contains_key(
                symbol,
            )) implies entered.scopes[i][symbol].name == symbol && entered.scopes[i][symbol].uid
            <= entered.counter by {
            if i < before.scopes.len() {
                assert(entered.scopes[i] == before.scopes[i]);
            }
        }
    }
}

/// Leaving the frames that were opened above the innermost frame gives a
/// step in the innermost frame.
pub proof fn lemma_deepens_leave(before: Env, after: Env)
    requires
        before.scopes.len() >= 1,
        deepens(before, after),
    ensures
        extends(before, after.leave_to(before.scopes.len())),
{
    let left = after.leave_to(before.scopes.len());
    assert(left.scopes.drop_last() =~= after.scopes.take(before.scopes.len() - 1));
    if before.well_formed() {
        assert forall|i: int, symbol: Symbol|
            0 <= i < left.scopes.len() && (#[trigger] left.scopes[i].contains_key(
                symbol,
            )) implies left.scopes[i][symbol].name == symbol && left.scopes[i][symbol].uid
            <= left.counter by {
            assert(left.scopes[i] == after.scopes[i]);
        }
    }
}

/// A step in a frame of its own leaves the frames as they were.
pub proof fn lemma_scoped(before: Env, inner: Env)
    requires
        extends(before.enter(), inner),
    ensures
        advances(before, inner.exit()),
{
    assert(before.enter().scopes.drop_last() =~= before.scopes);
    if before.well_formed() {
        let entered = before.enter();
        assert forall|i: int, symbol: Symbol|
            0 <= i < entered.scopes.len() && (#[trigger] entered.scopes[i].contains_key(
                symbol,
            )) implies entered.scopes[i][symbol].name == symbol && entered.scopes[i][symbol].uid
            <= entered.counter by {
            if i < before.scopes.len() {
                assert(entered.scopes[i] == before.scopes[i]);
            }
        }
        let left = inner.exit();
        assert forall|i: int, symbol: Symbol|
            0 <= i < left.scopes.len() && (#[trigger] left.scopes[i].contains_key(
                symbol,
            )) implies left.scopes[i][symbol].name == symbol && left.scopes[i][symbol].uid
            <= left.counter by {
            assert(left.scopes[i] == inner.scopes[i]);
        }
    }
}

/// A declaration works in the innermost frame, and afterwards the symbol
/// is bound there to the name that the declaration returned.
pub proof fn lemma_make_unique(env: Env, symbol: Symbol)
    requires
        env.scopes.len() >= 1,
    ensures
        extends(env, env.make_unique(symbol).env),
        env.make_unique(symbol).env.scopes.last().contains_key(symbol),
        lookup(env.make_unique(symbol).env.scopes, symbol) == Some(env.make_unique(symbol).out),
{
    let made = env.make_unique(symbol).env;
    if env.well_formed() {
        assert forall|i: int, s: Symbol|
            0 <= i < made.scopes.len() && (#[trigger] made.scopes[i].contains_key(
                s,
            )) implies made.scopes[i][s].name == s && made.scopes[i][s].uid <= made.counter by {
            if made.scopes[i] == env.scopes[i] {
                assert(env.scopes[i].contains_key(s));
            } else if s != symbol {
                assert(env.scopes[i].contains_key(s));
            }
        }
    }
}

/// Declaring a definition works in the innermost frame and binds its
/// symbol there; making it global does not touch the counter.
pub proof fn lemma_declare(env: Env, symbol: Symbol, is_global: bool)
    requires
        env.scopes.len() >= 1,
    ensures
        extends(env, env.declare(symbol, is_global)),
        env.declare(symbol, is_global).scopes.last().contains_key(symbol),
        env.declare(symbol, is_global).counter == env.make_unique(symbol).env.counter,
{
    lemma_make_unique(env, symbol);
    let made = env.make_unique(symbol).env;
    lemma_nearest(made.scopes, symbol);
    let after = env.declare(symbol, is_global);
    if env.well_formed() && is_global {
        assert forall|i: int, s: Symbol|
            0 <= i < after.scopes.len() && (#[trigger] after.scopes[i].contains_key(
                s,
            )) implies after.scopes[i][s].name == s && after.scopes[i][s].uid <= after.counter by {
            if after.scopes[i] == made.scopes[i] {
                assert(made.scopes[i].contains_key(s));
            } else if s != symbol {
                assert(made.scopes[i].contains_key(s));
            } else {
                assert(made.scopes[i].contains_key(symbol));
            }
        }
    }
}

/// Declaring the definitions of a list binds the name of every binding
/// that was passed in the innermost frame.
pub proof fn lemma_declared(
    env: Env,
    bindings: Seq<BindingView<Symbol>>,
    i: nat,
    n: nat,
    is_global: bool,
)
    requires
        env.scopes.len() >= 1,
        i <= n <= bindings.len(),
    ensures
        extends(
            declared(env, bindings, i, is_global),
            declared(env, bindings, n, is_global),
        ),
        extends(env, declared(env, bindings, n, is_global)),
        forall|j: int|
            0 <= j < n ==> declared(env, bindings, n, is_global).scopes.last().contains_key(
                #[trigger] bindings[j].name,
            ),
    decreases n,
{
    if n > 0 {
        let m = (n - 1) as nat;
        lemma_declared(env, bindings, 0, m, is_global);
        if i < n {
            lemma_declared(env, bindings, i, m, is_global);
        }
        let before = declared(env, bindings, m, is_global);
        if starts_group(bindings, n - 1) {
            lemma_declare(before, bindings[n - 1].name, is_global);
        }
    }
}

/// Renaming a pattern works in the innermost frame.
pub proof fn lemma_pattern(env: Env, pattern: PatternView<Symbol>)
    requires
        env.scopes.len() >= 1,
    ensures
        extends(env, pattern_renaming(env, pattern).env),
    decreases pattern, 0nat,
{
    match pattern {
        PatternView::IdentifierPattern(symbol) => {
            lemma_make_unique(env, symbol);
        },
        PatternView::ConstructorPattern(symbol, patterns) => {
            lemma_patterns(env, patterns, 0, patterns.len());
        },
        _ => {},
    }
}

/// Renaming the patterns of a list works in the innermost frame, from any
/// prefix of the list to any longer one.
pub proof fn lemma_patterns(env: Env, patterns: Seq<PatternView<Symbol>>, i: nat, n: nat)
    requires
        env.scopes.len() >= 1,
        i <= n <= patterns.len(),
    ensures
        extends(patterns_renaming(env, patterns, i).env, patterns_renaming(env, patterns, n).env),
        extends(env, patterns_renaming(env, patterns, n).env),
        patterns_renaming(env, patterns, n).out.len() == n,
    decreases patterns, n,
{
    if n > 0 {
        let m = (n - 1) as nat;
        lemma_patterns(env, patterns, 0, m);
        if i < n {
            lemma_patterns(env, patterns, i, m);
        }
        lemma_pattern(patterns_renaming(env, patterns, m).env, patterns[n - 1]);
    }
}

/// Renaming an expression works in the innermost frame.
pub proof fn lemma_expr(env: Env, expr: TypedExprView<Symbol>)
    requires
        env.scopes.len() >= 1,
    ensures
        extends(env, expr_renaming(env, expr).env),
    decreases expr, 0nat,
{
    lemma_node(env, expr.expr);
}

/// The same for an expression without its annotations.
pub proof fn lemma_node(env: Env, expr: ExprView<Symbol>)
    requires
        env.scopes.len() >= 1,
    ensures
        extends(env, node_renaming(env, expr).env),
    decreases expr, 0nat,
{
    match expr {
        ExprView::Literal(_) => {},
        ExprView::Identifier(_) => {},
        ExprView::Apply(function, argument) => {
            lemma_expr(env, *function);
            lemma_expr(expr_renaming(env, *function).env, *argument);
        },
        ExprView::Lambda(pattern, body) => {
            lemma_pattern(env.enter(), pattern);
            let p = pattern_renaming(env.enter(), pattern);
            lemma_expr(p.env, *body);
            lemma_scoped(env, expr_renaming(p.env, *body).env);
        },
        ExprView::Let(bindings, body) => {
            lemma_bindings(env.enter(), bindings, false);
            let bs = bindings_renaming(env.enter(), bindings, false);
            lemma_expr(bs.env, *body);
            lemma_scoped(env, expr_renaming(bs.env, *body).env);
        },
        ExprView::Case(scrutinee, alternatives) => {
            lemma_expr(env, *scrutinee);
            let s = expr_renaming(env, *scrutinee);
            lemma_alternatives(s.env, alternatives, 0, alternatives.len());
        },
        ExprView::Do(statements, result) => {
            lemma_statements(env, statements, 0, statements.len());
            let stmts = statements_renaming(env, statements, statements.len());
            lemma_expr(stmts.env, *result);
            let r = expr_renaming(stmts.env, *result);
            lemma_deepens(env, stmts.env, r.env);
            lemma_deepens_leave(env, r.env);
        },
    }
}

/// Renaming a binding list works in the innermost frame, and leaves the
/// frames as the declarations made them.
pub proof fn lemma_bindings(env: Env, bindings: Seq<BindingView<Symbol>>, is_global: bool)
    requires
        env.scopes.len() >= 1,
    ensures
        extends(env, bindings_renaming(env, bindings, is_global).env),
        bindings_renaming(env, bindings, is_global).env.scopes == declared(
            env,
            bindings,
            bindings.len(),
            is_global,
        ).scopes,
        bindings_renaming(env, bindings, is_global).out.len() == bindings.len(),
    decreases bindings, bindings.len() + 1,
{
    lemma_declared(env, bindings, 0, bindings.len(), is_global);
    lemma_clauses(
        declared(env, bindings, bindings.len(), is_global),
        bindings,
        0,
        bindings.len(),
    );
}

/// Renaming the equations of a declared list leaves every frame as it
/// was, from any prefix of the list to any longer one.
pub proof fn lemma_clauses(env: Env, bindings: Seq<BindingView<Symbol>>, i: nat, n: nat)
    requires
        env.scopes.len() >= 1,
        i <= n <= bindings.len(),
    ensures
        advances(clauses_renaming(env, bindings, i).env, clauses_renaming(env, bindings, n).env),
        advances(env, clauses_renaming(env, bindings, n).env),
        clauses_renaming(env, bindings, n).out.len() == n,
    decreases bindings, n,
{
    if n > 0 {
        let m = (n - 1) as nat;
        lemma_clauses(env, bindings, 0, m);
        if i < n {
            lemma_clauses(env, bindings, i, m);
        }
        lemma_clause(clauses_renaming(env, bindings, m).env, bindings[n - 1]);
    }
}

/// Renaming one equation leaves every frame as it was.
pub proof fn lemma_clause(env: Env, binding: BindingView<Symbol>)
    requires
        env.scopes.len() >= 1,
    ensures
        advances(env, clause_renaming(env, binding).env),
    decreases binding, 0nat,
{
    lemma_patterns(env.enter(), binding.arguments, 0, binding.arguments.len());
    let arguments = patterns_renaming(env.enter(), binding.arguments, binding.arguments.len());
    lemma_expr(arguments.env, binding.expression);
    lemma_scoped(env, expr_renaming(arguments.env, binding.expression).env);
}

/// Renaming the alternatives of a case expression leaves every frame as
/// it was, from any prefix of the list to any longer one.
pub proof fn lemma_alternatives(
    env: Env,
    alternatives: Seq<AlternativeView<Symbol>>,
    i: nat,
    n: nat,
)
    requires
        env.scopes.len() >= 1,
        i <= n <= alternatives.len(),
    ensures
        advances(
            alternatives_renaming(env, alternatives, i).env,
            alternatives_renaming(env, alternatives, n).env,
        ),
        advances(env, alternatives_renaming(env, alternatives, n).env),
        alternatives_renaming(env, alternatives, n).out.len() == n,
    decreases alternatives, n,
{
    if n > 0 {
        let m = (n - 1) as nat;
        lemma_alternatives(env, alternatives, 0, m);
        if i < n {
            lemma_alternatives(env, alternatives, i, m);
        }
        lemma_alternative(alternatives_renaming(env, alternatives, m).env, alternatives[n - 1]);
    }
}

/// Renaming one alternative leaves every frame as it was.
pub proof fn lemma_alternative(env: Env, alternative: AlternativeView<Symbol>)
    requires
        env.scopes.len() >= 1,
    ensures
        advances(env, alternative_renaming(env, alternative).env),
    decreases alternative, 0nat,
{
    lemma_pattern(env.enter(), alternative.pattern.node);
    let p = pattern_renaming(env.enter(), alternative.pattern.node);
    lemma_expr(p.env, alternative.expression);
    lemma_scoped(env, expr_renaming(p.env, alternative.expression).env);
}

/// Renaming the statements of a `do` block works in the innermost frame
/// or above it, from any prefix of the block to any longer one, and opens
/// one frame for each `let` statement.
pub proof fn lemma_statements(
    env: Env,
    statements: Seq<DoBindingView<Symbol>>,
    i: nat,
    n: nat,
)
    requires
        env.scopes.len() >= 1,
        i <= n <= statements.len(),
    ensures
        deepens(
            statements_renaming(env, statements, i).env,
            statements_renaming(env, statements, n).env,
        ),
        deepens(env, statements_renaming(env, statements, n).env),
        statements_renaming(env, statements, i).env.scopes.len() >= 1,
        statements_renaming(env, statements, n).out.len() == n,
        statements_renaming(env, statements, n).env.scopes.len() == env.scopes.len()
            + opened_frames(statements, n),
    decreases statements, n,
{
    if n > 0 {
        let m = (n - 1) as nat;
        let before = statements_renaming(env, statements, m).env;
        let now = statements_renaming(env, statements, n).env;
        lemma_statements(env, statements, 0, m);
        lemma_statement(before, statements[n - 1]);
        lemma_deepens(env, before, now);
        if i < n {
            lemma_statements(env, statements, i, m);
            let from = statements_renaming(env, statements, i).env;
            lemma_deepens(from, before, now);
        } else {
            lemma_reflexive(now);
        }
    } else {
        lemma_reflexive(env);
    }
}

/// A state is reached from itself.
proof fn lemma_reflexive(env: Env)
    requires
        env.scopes.len() >= 1,
    ensures
        deepens(env, env),
{
    assert(env.scopes.take(env.scopes.len() - 1) =~= env.scopes.drop_last());
}

/// Renaming one statement works in the innermost frame, or, for a `let`,
/// in a frame that it opens.
pub proof fn lemma_statement(env: Env, statement: DoBindingView<Symbol>)
    requires
        env.scopes.len() >= 1,
    ensures
        deepens(env, statement_renaming(env, statement).env),
        statement_renaming(env, statement).env.scopes.len() == env.scopes.len() + if statement
            is DoLet {
            1nat
        } else {
            0nat
        },
    decreases statement, 0nat,
{
    lemma_reflexive(env);
    match statement {
        DoBindingView::DoExpr(expr) => {
            lemma_expr(env, expr);
            lemma_deepens(env, env, expr_renaming(env, expr).env);
        },
        DoBindingView::DoLet(bindings) => {
            lemma_deepens_enter(env);
            lemma_bindings(env.enter(), bindings, false);
            lemma_deepens(env, env.enter(), bindings_renaming(env.enter(), bindings, false).env);
        },
        DoBindingView::DoBind(pattern, expr) => {
            lemma_expr(env, expr);
            let e = expr_renaming(env, expr).env;
            lemma_pattern(e, pattern.node);
            lemma_deepens(env, env, e);
            lemma_deepens(env, e, pattern_renaming(e, pattern.node).env);
        },
    }
}

/// Renaming an instance works in the innermost frame.
pub proof fn lemma_instance(env: Env, instance: InstanceView<Symbol>)
    requires
        env.scopes.len() >= 1,
    ensures
        extends(env, instance_renaming(env, instance).env),
{
    lemma_bindings(env, instance.bindings, true);
}

/// Renaming the instances of a module works in the innermost frame, from
/// any prefix of the list to any longer one.
pub proof fn lemma_instances(env: Env, instances: Seq<InstanceView<Symbol>>, i: nat, n: nat)
    requires
        env.scopes.len() >= 1,
        i <= n <= instances.len(),
    ensures
        extends(
            instances_renaming(env, instances, i).env,
            instances_renaming(env, instances, n).env,
        ),
        extends(env, instances_renaming(env, instances, n).env),
        instances_renaming(env, instances, n).out.len() == n,
    decreases n,
{
    if n > 0 {
        let m = (n - 1) as nat;
        lemma_instances(env, instances, 0, m);
        if i < n {
            lemma_instances(env, instances, i, m);
        }
        lemma_instance(instances_renaming(env, instances, m).env, instances[n - 1]);
    }
}

/// Renaming a module works in the innermost frame.
pub proof fn lemma_module(env: Env, module: ModuleView<Symbol>)
    requires
        env.scopes.len() >= 1,
    ensures
        extends(env, module_renaming(env, module).env),
{
    lemma_instances(env, module.instances, 0, module.instances.len());
    let instances = instances_renaming(env, module.instances, module.instances.len());
    lemma_bindings(instances.env, module.bindings, true);
    let bindings = bindings_renaming(instances.env, module.bindings, true);
    lemma_make_unique(bindings.env, module.name);
}

/// Renaming the modules of a program works in the innermost frame, from
/// any prefix of the program to any longer one.
pub proof fn lemma_modules(env: Env, modules: Seq<ModuleView<Symbol>>, i: nat, n: nat)
    requires
        env.scopes.len() >= 1,
        i <= n <= modules.len(),
    ensures
        extends(modules_renaming(env, modules, i).env, modules_renaming(env, modules, n).env),
        extends(env, modules_renaming(env, modules, n).env),
        modules_renaming(env, modules, n).out.len() == n,
    decreases n,
{
    if n > 0 {
        let m = (n - 1) as nat;
        lemma_modules(env, modules, 0, m);
        if i < n {
            lemma_modules(env, modules, i, m);
        }
        lemma_module(modules_renaming(env, modules, m).env, modules[n - 1]);
    }
}

} // verus!
