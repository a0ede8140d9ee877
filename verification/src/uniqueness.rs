//! No identity is given out twice.
//!
//! As long as no local declaration is reported, every local binding
//! occurrence that the pass writes carries a number that was minted for it
//! alone: listed in the order in which the pass meets them, the numbers
//! rise strictly, and all of them lie above the counter that the pass
//! started from and not above the counter that it ended with. Two runs of
//! one renamer therefore never share a number either.
//!
//! When a symbol is declared twice in one frame, the second declaration is
//! reported and takes the name of the first, so the two occurrences do
//! share a number; that is why the laws ask that the local declarations go
//! unreported. A global definition that is declared twice is reported as
//! well, but global names carry no number, so such reports do no harm.

use vstd::prelude::*;
use crate::binders::{
    alternative_binders, alternatives_binders, bindings_binders, clause_binders, clauses_binders,
    definition_names, expr_binders, instances_binders, module_binders, modules_binders,
    node_binders, pattern_binders, patterns_binders, statement_binders, statements_binders,
};
use crate::invariants::{
    lemma_alternative, lemma_alternatives, lemma_bindings, lemma_clause, lemma_clauses,
    lemma_declared, lemma_expr, lemma_instance, lemma_instances, lemma_make_unique, lemma_module,
    lemma_modules, lemma_pattern, lemma_patterns, lemma_statement, lemma_statements,
};
use crate::laws::lemma_clause_names;
use crate::name::{Name, Symbol};
use crate::semantics::{
    alternative_renaming, alternatives_renaming, bindings_renaming, clause_renaming,
    clauses_renaming, declared, expr_renaming, instance_renaming, instances_renaming,
    is_batch_result, module_renaming, modules_renaming, node_renaming, pattern_renaming,
    patterns_renaming, starts_group, statement_renaming, statements_renaming, Env,
};
use crate::syntax::{
    AlternativeView, BindingView, DoBindingView, ExprView, InstanceView, ModuleView, PatternView,
    TypedExprView,
};

verus! {

/// The numbers of `names` rise strictly from one name to the next, and all
/// of them lie above `low` and not above `high`.
pub open spec fn ascending(names: Seq<Name>, low: nat, high: nat) -> bool {
    &&& low <= high
    &&& forall|i: int| 0 <= i < names.len() ==> low < (#[trigger] names[i]).uid <= high
    &&& forall|i: int, j: int|
        0 <= i < j < names.len() ==> (#[trigger] names[i]).uid < (#[trigger] names[j]).uid
}

/// Between `before` and `after` nothing was reported, and the counter did
/// not leave the range of the machine's numbers.
pub open spec fn quiet(before: Env, after: Env) -> bool {
    &&& after.errors == before.errors
    &&& after.counter <= usize::MAX
}

/// `after` comes after `before`: the counter did not fall and no report
/// was withdrawn.
pub open spec fn follows(before: Env, after: Env) -> bool {
    &&& before.counter <= after.counter
    &&& before.errors.is_prefix_of(after.errors)
}

/// Nothing was reported while the local declarations of a binding list
/// were made, and the counter stayed in the range of the machine's
/// numbers. For a local list that is the whole step; for a global list it
/// is what follows the declaration of its definitions.
pub open spec fn bindings_quiet(
    env: Env,
    bindings: Seq<BindingView<Symbol>>,
    is_global: bool,
) -> bool {
    quiet(
        if is_global {
            declared(env, bindings, bindings.len(), true)
        } else {
            env
        },
        bindings_renaming(env, bindings, is_global).env,
    )
}

/// The same for the method bindings of the first `n` instances of a
/// module.
pub open spec fn instances_quiet(env: Env, instances: Seq<InstanceView<Symbol>>, n: nat) -> bool
    decreases n,
{
    n == 0 || n > instances.len() || {
        &&& instances_quiet(env, instances, (n - 1) as nat)
        &&& bindings_quiet(
            instances_renaming(env, instances, (n - 1) as nat).env,
            instances[n - 1].bindings,
            true,
        )
    }
}

/// The same for a module: for its instances, for its top-level bindings,
/// and for its own name.
pub open spec fn module_quiet(env: Env, module: ModuleView<Symbol>) -> bool {
    let instances = instances_renaming(env, module.instances, module.instances.len());
    let bindings = bindings_renaming(instances.env, module.bindings, true);
    &&& instances_quiet(env, module.instances, module.instances.len())
    &&& bindings_quiet(instances.env, module.bindings, true)
    &&& quiet(bindings.env, bindings.env.make_unique(module.name).env)
}

/// The same for the first `n` modules of a program.
pub open spec fn modules_quiet(env: Env, modules: Seq<ModuleView<Symbol>>, n: nat) -> bool
    decreases n,
{
    n == 0 || n > modules.len() || {
        &&& modules_quiet(env, modules, (n - 1) as nat)
        &&& module_quiet(modules_renaming(env, modules, (n - 1) as nat).env, modules[n - 1])
    }
}

/// Names that rise strictly are pairwise distinct.
pub proof fn law_distinct_numbers(names: Seq<Name>, low: nat, high: nat, i: int, j: int)
    requires
        ascending(names, low, high),
        0 <= i < names.len(),
        0 <= j < names.len(),
        i != j,
    ensures
        names[i].uid != names[j].uid,
        names[i].uid != 0,
{
    if i < j {
        assert(names[i].uid < names[j].uid);
    } else {
        assert(names[j].uid < names[i].uid);
    }
}

/// Names that rise up to `mid`, followed by names that rise from `mid`,
/// rise.
pub proof fn lemma_ascending_concat(
    first: Seq<Name>,
    second: Seq<Name>,
    low: nat,
    mid: nat,
    high: nat,
)
    requires
        ascending(first, low, mid),
        ascending(second, mid, high),
    ensures
        ascending(first + second, low, high),
{
    let all = first + second;
    assert forall|i: int| 0 <= i < all.len() implies low < (#[trigger] all[i]).uid <= high by {
        if i < first.len() {
            assert(all[i] == first[i]);
        } else {
            assert(all[i] == second[i - first.len()]);
        }
    }
    assert forall|i: int, j: int| 0 <= i < j < all.len() implies (#[trigger] all[i]).uid < (
    #[trigger] all[j]).uid by {
        if i < first.len() {
            assert(all[i] == first[i]);
        } else {
            assert(all[i] == second[i - first.len()]);
        }
        if j < first.len() {
            assert(all[j] == first[j]);
        } else {
            assert(all[j] == second[j - first.len()]);
        }
    }
}

/// If nothing was reported between two states, nothing was reported up
/// to a state between them, nor from there on.
proof fn lemma_quiet_split(before: Env, between: Env, after: Env)
    requires
        follows(before, between),
        follows(between, after),
        quiet(before, after),
    ensures
        quiet(before, between),
        quiet(between, after),
{
    assert(between.errors =~= before.errors);
}

/// A declaration that reports nothing mints a number: the symbol was not
/// bound in the innermost frame, and its name carries the counter's next
/// value.
pub proof fn law_unique_declaration(env: Env, symbol: Symbol)
    requires
        env.scopes.len() >= 1,
        quiet(env, env.make_unique(symbol).env),
    ensures
        !env.scopes.last().contains_key(symbol),
        env.make_unique(symbol).out == (Name { name: symbol, uid: (env.counter + 1) as usize }),
        env.make_unique(symbol).env.counter == env.counter + 1,
        ascending(
            seq![env.make_unique(symbol).out],
            env.counter,
            env.make_unique(symbol).env.counter,
        ),
{
    if env.scopes.last().contains_key(symbol) {
        assert(env.make_unique(symbol).env.errors.len() == env.errors.len() + 1);
    }
}

/// The variables of a pattern that is renamed without a report carry
/// numbers that rise strictly, above the counter before and not above the
/// counter after.
pub proof fn law_unique_pattern(env: Env, pattern: PatternView<Symbol>)
    requires
        env.scopes.len() >= 1,
        quiet(env, pattern_renaming(env, pattern).env),
    ensures
        ascending(
            pattern_binders(pattern_renaming(env, pattern).out),
            env.counter,
            pattern_renaming(env, pattern).env.counter,
        ),
    decreases pattern, 0nat,
{
    match pattern {
        PatternView::IdentifierPattern(symbol) => {
            law_unique_declaration(env, symbol);
        },
        PatternView::ConstructorPattern(symbol, patterns) => {
            lemma_patterns(env, patterns, 0, patterns.len());
            law_unique_patterns(env, patterns, patterns.len());
        },
        _ => {},
    }
}

/// The same for the first `n` patterns of a list.
pub proof fn law_unique_patterns(env: Env, patterns: Seq<PatternView<Symbol>>, n: nat)
    requires
        env.scopes.len() >= 1,
        n <= patterns.len(),
        quiet(env, patterns_renaming(env, patterns, n).env),
    ensures
        ascending(
            patterns_binders(patterns_renaming(env, patterns, n).out),
            env.counter,
            patterns_renaming(env, patterns, n).env.counter,
        ),
    decreases patterns, n,
{
    if n > 0 {
        let m = (n - 1) as nat;
        let before = patterns_renaming(env, patterns, m);
        let last = pattern_renaming(before.env, patterns[n - 1]);
        let now = patterns_renaming(env, patterns, n);
        lemma_patterns(env, patterns, 0, m);
        lemma_pattern(before.env, patterns[n - 1]);
        lemma_quiet_split(env, before.env, now.env);
        law_unique_patterns(env, patterns, m);
        law_unique_pattern(before.env, patterns[n - 1]);
        assert(now.out.drop_last() =~= before.out);
        lemma_ascending_concat(
            patterns_binders(before.out),
            pattern_binders(last.out),
            env.counter,
            before.env.counter,
            now.env.counter,
        );
    }
}

/// The local binding occurrences of an expression that is renamed without
/// a report carry numbers that rise strictly in the order in which the
/// pass meets them, above the counter before and not above the counter
/// after. No two of them share a number, and none shares one with a name
/// that was minted before.
pub proof fn law_unique_expr(env: Env, expr: TypedExprView<Symbol>)
    requires
        env.scopes.len() >= 1,
        quiet(env, expr_renaming(env, expr).env),
    ensures
        ascending(
            expr_binders(expr_renaming(env, expr).out),
            env.counter,
            expr_renaming(env, expr).env.counter,
        ),
    decreases expr, 0nat,
{
    law_unique_node(env, expr.expr);
}

/// The same for an expression without its annotations.
pub proof fn law_unique_node(env: Env, expr: ExprView<Symbol>)
    requires
        env.scopes.len() >= 1,
        quiet(env, node_renaming(env, expr).env),
    ensures
        ascending(
            node_binders(node_renaming(env, expr).out),
            env.counter,
            node_renaming(env, expr).env.counter,
        ),
    decreases expr, 0nat,
{
    match expr {
        ExprView::Literal(_) => {},
        ExprView::Identifier(_) => {},
        ExprView::Apply(function, argument) => {
            let f = expr_renaming(env, *function);
            let a = expr_renaming(f.env, *argument);
            lemma_expr(env, *function);
            lemma_expr(f.env, *argument);
            lemma_quiet_split(env, f.env, a.env);
            law_unique_expr(env, *function);
            law_unique_expr(f.env, *argument);
            lemma_ascending_concat(
                expr_binders(f.out),
                expr_binders(a.out),
                env.counter,
                f.env.counter,
                a.env.counter,
            );
        },
        ExprView::Lambda(pattern, body) => {
            let p = pattern_renaming(env.enter(), pattern);
            let b = expr_renaming(p.env, *body);
            lemma_pattern(env.enter(), pattern);
            lemma_expr(p.env, *body);
            lemma_quiet_split(env.enter(), p.env, b.env);
            law_unique_pattern(env.enter(), pattern);
            law_unique_expr(p.env, *body);
            lemma_ascending_concat(
                pattern_binders(p.out),
                expr_binders(b.out),
                env.counter,
                p.env.counter,
                b.env.counter,
            );
        },
        ExprView::Let(bindings, body) => {
            let bs = bindings_renaming(env.enter(), bindings, false);
            let b = expr_renaming(bs.env, *body);
            lemma_bindings(env.enter(), bindings, false);
            lemma_expr(bs.env, *body);
            lemma_quiet_split(env.enter(), bs.env, b.env);
            law_unique_bindings(env.enter(), bindings, false);
            law_unique_expr(bs.env, *body);
            lemma_ascending_concat(
                bindings_binders(bs.out, false),
                expr_binders(b.out),
                env.counter,
                bs.env.counter,
                b.env.counter,
            );
        },
        ExprView::Case(scrutinee, alternatives) => {
            let s = expr_renaming(env, *scrutinee);
            let alts = alternatives_renaming(s.env, alternatives, alternatives.len());
            lemma_expr(env, *scrutinee);
            lemma_alternatives(s.env, alternatives, 0, alternatives.len());
            lemma_quiet_split(env, s.env, alts.env);
            law_unique_expr(env, *scrutinee);
            law_unique_alternatives(s.env, alternatives, alternatives.len());
            lemma_ascending_concat(
                expr_binders(s.out),
                alternatives_binders(alts.out),
                env.counter,
                s.env.counter,
                alts.env.counter,
            );
        },
        ExprView::Do(statements, result) => {
            let stmts = statements_renaming(env, statements, statements.len());
            let r = expr_renaming(stmts.env, *result);
            lemma_statements(env, statements, 0, statements.len());
            lemma_expr(stmts.env, *result);
            lemma_quiet_split(env, stmts.env, r.env);
            law_unique_statements(env, statements, statements.len());
            law_unique_expr(stmts.env, *result);
            lemma_ascending_concat(
                statements_binders(stmts.out),
                expr_binders(r.out),
                env.counter,
                stmts.env.counter,
                r.env.counter,
            );
        },
    }
}

/// After the definitions among the first `n` bindings of a local list are
/// declared without a report, the innermost frame binds the symbol of the
/// binding at `j` to a name that was minted when its definition was
/// declared.
proof fn lemma_declared_fresh(env: Env, bindings: Seq<BindingView<Symbol>>, n: nat, j: int)
    requires
        env.scopes.len() >= 1,
        n <= bindings.len(),
        0 <= j < n,
        quiet(env, declared(env, bindings, n, false)),
    ensures
        declared(env, bindings, n, false).scopes.last().contains_key(bindings[j].name),
        env.counter < declared(env, bindings, n, false).scopes.last()[bindings[j].name].uid
            <= declared(env, bindings, (j + 1) as nat, false).counter,
        starts_group(bindings, j) ==> declared(
            env,
            bindings,
            n,
            false,
        ).scopes.last()[bindings[j].name].uid == declared(env, bindings, j as nat, false).counter
            + 1 && declared(
            env,
            bindings,
            (j + 1) as nat,
            false,
        ).counter == declared(env, bindings, j as nat, false).counter + 1,
    decreases n,
{
    let m = (n - 1) as nat;
    let before = declared(env, bindings, m, false);
    let now = declared(env, bindings, n, false);
    lemma_declared(env, bindings, 0, m, false);
    lemma_declared(env, bindings, m, n, false);
    lemma_quiet_split(env, before, now);
    if starts_group(bindings, n - 1) {
        let symbol = bindings[n - 1].name;
        law_unique_declaration(before, symbol);
        if j < m {
            lemma_declared_fresh(env, bindings, m, j);
            assert(before.scopes.last().contains_key(bindings[j].name));
            assert(bindings[j].name != symbol);
        }
    } else {
        assert(now == before);
        assert(bindings[n - 1].name == bindings[n - 2].name);
        if j < m {
            lemma_declared_fresh(env, bindings, m, j);
        } else {
            lemma_declared_fresh(env, bindings, m, j - 1);
            lemma_declared(env, bindings, m, m, false);
        }
    }
}

/// The names of the definitions of a local list that is declared without
/// a report rise strictly, above the counter before the declarations and
/// not above the counter after them.
proof fn lemma_unique_definitions(env: Env, bindings: Seq<BindingView<Symbol>>, n: nat)
    requires
        env.scopes.len() >= 1,
        n <= bindings.len(),
        quiet(env, declared(env, bindings, bindings.len(), false)),
    ensures
        ascending(
            definition_names(
                clauses_renaming(
                    declared(env, bindings, bindings.len(), false),
                    bindings,
                    n,
                ).out,
            ),
            env.counter,
            declared(env, bindings, n, false).counter,
        ),
    decreases n,
{
    let start = declared(env, bindings, bindings.len(), false);
    lemma_declared(env, bindings, 0, bindings.len(), false);
    lemma_declared(env, bindings, 0, n, false);
    if n > 0 {
        let m = (n - 1) as nat;
        let before = clauses_renaming(start, bindings, m).out;
        let now = clauses_renaming(start, bindings, n).out;
        let low = declared(env, bindings, m, false).counter;
        let high = declared(env, bindings, n, false).counter;
        lemma_unique_definitions(env, bindings, m);
        assert(now.drop_last() =~= before && now.len() == n) by {
            lemma_clauses(start, bindings, 0, n);
            lemma_clauses(start, bindings, 0, m);
        }
        let last = start.scopes.last()[bindings[n - 1].name];
        assert(now[n - 1].name == last) by {
            lemma_clause_names(start, bindings, n);
            lemma_declared_fresh(env, bindings, bindings.len(), n - 1);
        }
        assert(low <= high) by {
            lemma_declared(env, bindings, m, n, false);
        }
        lemma_declared_fresh(env, bindings, bindings.len(), n - 1);
        if n >= 2 {
            let previous = start.scopes.last()[bindings[n - 2].name];
            assert(now[n - 2].name == previous) by {
                lemma_clause_names(start, bindings, n);
                lemma_declared_fresh(env, bindings, bindings.len(), n - 2);
            }
            lemma_declared_fresh(env, bindings, bindings.len(), n - 2);
            assert(previous.uid <= low);
            assert(starts_group(bindings, n - 1) <==> previous != last);
        }
        if n >= 2 && now[n - 2].name == now[n - 1].name {
            assert(definition_names(now) == definition_names(before));
            assert(high == low);
        } else {
            assert(definition_names(now) =~= definition_names(before) + seq![last]);
            assert(last.uid == low + 1 && high == low + 1);
            assert(ascending(seq![last], low, high));
            lemma_ascending_concat(definition_names(before), seq![last], env.counter, low, high);
        }
    }
}

/// The local binding occurrences of a binding list whose local
/// declarations go unreported carry numbers that rise strictly, above the
/// counter before and not above the counter after.
pub proof fn law_unique_bindings(env: Env, bindings: Seq<BindingView<Symbol>>, is_global: bool)
    requires
        env.scopes.len() >= 1,
        bindings_quiet(env, bindings, is_global),
    ensures
        ascending(
            bindings_binders(bindings_renaming(env, bindings, is_global).out, is_global),
            env.counter,
            bindings_renaming(env, bindings, is_global).env.counter,
        ),
    decreases bindings, bindings.len() + 1,
{
    let start = declared(env, bindings, bindings.len(), is_global);
    let done = clauses_renaming(start, bindings, bindings.len());
    lemma_declared(env, bindings, 0, bindings.len(), is_global);
    lemma_clauses(start, bindings, 0, bindings.len());
    if is_global {
        law_unique_clauses(start, bindings, bindings.len());
        lemma_ascending_concat(
            Seq::empty(),
            clauses_binders(done.out),
            env.counter,
            start.counter,
            done.env.counter,
        );
        assert(Seq::<Name>::empty() + clauses_binders(done.out) =~= clauses_binders(done.out));
    } else {
        lemma_quiet_split(env, start, done.env);
        law_unique_clauses(start, bindings, bindings.len());
        lemma_unique_definitions(env, bindings, bindings.len());
        lemma_ascending_concat(
            definition_names(done.out),
            clauses_binders(done.out),
            env.counter,
            start.counter,
            done.env.counter,
        );
    }
}

/// The same for what the first `n` equations of a declared list bind.
pub proof fn law_unique_clauses(env: Env, bindings: Seq<BindingView<Symbol>>, n: nat)
    requires
        env.scopes.len() >= 1,
        n <= bindings.len(),
        quiet(env, clauses_renaming(env, bindings, n).env),
    ensures
        ascending(
            clauses_binders(clauses_renaming(env, bindings, n).out),
            env.counter,
            clauses_renaming(env, bindings, n).env.counter,
        ),
    decreases bindings, n,
{
    if n > 0 {
        let m = (n - 1) as nat;
        let before = clauses_renaming(env, bindings, m);
        let last = clause_renaming(before.env, bindings[n - 1]);
        let now = clauses_renaming(env, bindings, n);
        lemma_clauses(env, bindings, 0, m);
        lemma_clause(before.env, bindings[n - 1]);
        lemma_quiet_split(env, before.env, now.env);
        law_unique_clauses(env, bindings, m);
        law_unique_clause(before.env, bindings[n - 1]);
        assert(now.out.drop_last() =~= before.out);
        lemma_ascending_concat(
            clauses_binders(before.out),
            clause_binders(last.out),
            env.counter,
            before.env.counter,
            now.env.counter,
        );
    }
}

/// The same for what one equation binds.
pub proof fn law_unique_clause(env: Env, binding: BindingView<Symbol>)
    requires
        env.scopes.len() >= 1,
        quiet(env, clause_renaming(env, binding).env),
    ensures
        ascending(
            clause_binders(clause_renaming(env, binding).out),
            env.counter,
            clause_renaming(env, binding).env.counter,
        ),
    decreases binding, 0nat,
{
    let arguments = patterns_renaming(env.enter(), binding.arguments, binding.arguments.len());
    let body = expr_renaming(arguments.env, binding.expression);
    lemma_patterns(env.enter(), binding.arguments, 0, binding.arguments.len());
    lemma_expr(arguments.env, binding.expression);
    lemma_quiet_split(env.enter(), arguments.env, body.env);
    law_unique_patterns(env.enter(), binding.arguments, binding.arguments.len());
    law_unique_expr(arguments.env, binding.expression);
    lemma_ascending_concat(
        patterns_binders(arguments.out),
        expr_binders(body.out),
        env.counter,
        arguments.env.counter,
        body.env.counter,
    );
}

/// The same for the first `n` alternatives of a case expression.
pub proof fn law_unique_alternatives(env: Env, alternatives: Seq<AlternativeView<Symbol>>, n: nat)
    requires
        env.scopes.len() >= 1,
        n <= alternatives.len(),
        quiet(env, alternatives_renaming(env, alternatives, n).env),
    ensures
        ascending(
            alternatives_binders(alternatives_renaming(env, alternatives, n).out),
            env.counter,
            alternatives_renaming(env, alternatives, n).env.counter,
        ),
    decreases alternatives, n,
{
    if n > 0 {
        let m = (n - 1) as nat;
        let before = alternatives_renaming(env, alternatives, m);
        let last = alternative_renaming(before.env, alternatives[n - 1]);
        let now = alternatives_renaming(env, alternatives, n);
        lemma_alternatives(env, alternatives, 0, m);
        lemma_alternative(before.env, alternatives[n - 1]);
        lemma_quiet_split(env, before.env, now.env);
        law_unique_alternatives(env, alternatives, m);
        law_unique_alternative(before.env, alternatives[n - 1]);
        assert(now.out.drop_last() =~= before.out);
        lemma_ascending_concat(
            alternatives_binders(before.out),
            alternative_binders(last.out),
            env.counter,
            before.env.counter,
            now.env.counter,
        );
    }
}

/// The same for one alternative.
pub proof fn law_unique_alternative(env: Env, alternative: AlternativeView<Symbol>)
    requires
        env.scopes.len() >= 1,
        quiet(env, alternative_renaming(env, alternative).env),
    ensures
        ascending(
            alternative_binders(alternative_renaming(env, alternative).out),
            env.counter,
            alternative_renaming(env, alternative).env.counter,
        ),
    decreases alternative, 0nat,
{
    let p = pattern_renaming(env.enter(), alternative.pattern.node);
    let e = expr_renaming(p.env, alternative.expression);
    lemma_pattern(env.enter(), alternative.pattern.node);
    lemma_expr(p.env, alternative.expression);
    lemma_quiet_split(env.enter(), p.env, e.env);
    law_unique_pattern(env.enter(), alternative.pattern.node);
    law_unique_expr(p.env, alternative.expression);
    lemma_ascending_concat(
        pattern_binders(p.out),
        expr_binders(e.out),
        env.counter,
        p.env.counter,
        e.env.counter,
    );
}

/// The same for the first `n` statements of a `do` block.
pub proof fn law_unique_statements(env: Env, statements: Seq<DoBindingView<Symbol>>, n: nat)
    requires
        env.scopes.len() >= 1,
        n <= statements.len(),
        quiet(env, statements_renaming(env, statements, n).env),
    ensures
        ascending(
            statements_binders(statements_renaming(env, statements, n).out),
            env.counter,
            statements_renaming(env, statements, n).env.counter,
        ),
    decreases statements, n,
{
    if n > 0 {
        let m = (n - 1) as nat;
        let before = statements_renaming(env, statements, m);
        let last = statement_renaming(before.env, statements[n - 1]);
        let now = statements_renaming(env, statements, n);
        lemma_statements(env, statements, 0, m);
        lemma_statement(before.env, statements[n - 1]);
        lemma_quiet_split(env, before.env, now.env);
        law_unique_statements(env, statements, m);
        law_unique_statement(before.env, statements[n - 1]);
        assert(now.out.drop_last() =~= before.out);
        lemma_ascending_concat(
            statements_binders(before.out),
            statement_binders(last.out),
            env.counter,
            before.env.counter,
            now.env.counter,
        );
    }
}

/// The same for one statement.
pub proof fn law_unique_statement(env: Env, statement: DoBindingView<Symbol>)
    requires
        env.scopes.len() >= 1,
        quiet(env, statement_renaming(env, statement).env),
    ensures
        ascending(
            statement_binders(statement_renaming(env, statement).out),
            env.counter,
            statement_renaming(env, statement).env.counter,
        ),
    decreases statement, 0nat,
{
    match statement {
        DoBindingView::DoExpr(expr) => {
            law_unique_expr(env, expr);
        },
        DoBindingView::DoLet(bindings) => {
            law_unique_bindings(env.enter(), bindings, false);
        },
        DoBindingView::DoBind(pattern, expr) => {
            let e = expr_renaming(env, expr);
            let p = pattern_renaming(e.env, pattern.node);
            lemma_expr(env, expr);
            lemma_pattern(e.env, pattern.node);
            lemma_quiet_split(env, e.env, p.env);
            law_unique_expr(env, expr);
            law_unique_pattern(e.env, pattern.node);
            lemma_ascending_concat(
                expr_binders(e.out),
                pattern_binders(p.out),
                env.counter,
                e.env.counter,
                p.env.counter,
            );
        },
    }
}

/// The same for the first `n` instances of a module.
pub proof fn law_unique_instances(env: Env, instances: Seq<InstanceView<Symbol>>, n: nat)
    requires
        env.scopes.len() >= 1,
        n <= instances.len(),
        instances_quiet(env, instances, n),
    ensures
        ascending(
            instances_binders(instances_renaming(env, instances, n).out),
            env.counter,
            instances_renaming(env, instances, n).env.counter,
        ),
    decreases n,
{
    if n > 0 {
        let m = (n - 1) as nat;
        let before = instances_renaming(env, instances, m);
        let last = instance_renaming(before.env, instances[n - 1]);
        let now = instances_renaming(env, instances, n);
        lemma_instances(env, instances, 0, m);
        law_unique_instances(env, instances, m);
        law_unique_bindings(before.env, instances[n - 1].bindings, true);
        assert(now.out.drop_last() =~= before.out);
        lemma_ascending_concat(
            instances_binders(before.out),
            bindings_binders(last.out.bindings, true),
            env.counter,
            before.env.counter,
            now.env.counter,
        );
    }
}

/// The local binding occurrences of a module whose local declarations go
/// unreported, the module's own name among them, carry numbers that rise
/// strictly, above the counter before and not above the counter after.
pub proof fn law_unique_module(env: Env, module: ModuleView<Symbol>)
    requires
        env.scopes.len() >= 1,
        module_quiet(env, module),
    ensures
        ascending(
            module_binders(module_renaming(env, module).out),
            env.counter,
            module_renaming(env, module).env.counter,
        ),
{
    let instances = instances_renaming(env, module.instances, module.instances.len());
    let bindings = bindings_renaming(instances.env, module.bindings, true);
    let name = bindings.env.make_unique(module.name);
    lemma_instances(env, module.instances, 0, module.instances.len());
    lemma_bindings(instances.env, module.bindings, true);
    law_unique_instances(env, module.instances, module.instances.len());
    law_unique_bindings(instances.env, module.bindings, true);
    law_unique_declaration(bindings.env, module.name);
    lemma_ascending_concat(
        instances_binders(instances.out),
        bindings_binders(bindings.out, true),
        env.counter,
        instances.env.counter,
        bindings.env.counter,
    );
    lemma_ascending_concat(
        instances_binders(instances.out) + bindings_binders(bindings.out, true),
        seq![name.out],
        env.counter,
        bindings.env.counter,
        name.env.counter,
    );
    assert(module_binders(module_renaming(env, module).out) =~= (instances_binders(instances.out)
        + bindings_binders(bindings.out, true)) + seq![name.out]);
}

/// The local binding occurrences of a program whose modules are renamed
/// through one renamer, with the local declarations unreported, carry
/// numbers that rise strictly across all modules: no number is given out
/// twice in the program.
pub proof fn law_unique_modules(env: Env, modules: Seq<ModuleView<Symbol>>, n: nat)
    requires
        env.scopes.len() >= 1,
        n <= modules.len(),
        modules_quiet(env, modules, n),
    ensures
        ascending(
            modules_binders(modules_renaming(env, modules, n).out),
            env.counter,
            modules_renaming(env, modules, n).env.counter,
        ),
    decreases n,
{
    if n > 0 {
        let m = (n - 1) as nat;
        let before = modules_renaming(env, modules, m);
        let last = module_renaming(before.env, modules[n - 1]);
        let now = modules_renaming(env, modules, n);
        lemma_modules(env, modules, 0, m);
        law_unique_modules(env, modules, m);
        law_unique_module(before.env, modules[n - 1]);
        assert(now.out.drop_last() =~= before.out);
        lemma_ascending_concat(
            modules_binders(before.out),
            module_binders(last.out),
            env.counter,
            before.env.counter,
            now.env.counter,
        );
    }
}

/// If nothing at all is reported while the first `n` instances of a
/// module are renamed, their local declarations go unreported.
proof fn lemma_instances_quiet(env: Env, instances: Seq<InstanceView<Symbol>>, n: nat)
    requires
        env.scopes.len() >= 1,
        n <= instances.len(),
        quiet(env, instances_renaming(env, instances, n).env),
    ensures
        instances_quiet(env, instances, n),
    decreases n,
{
    if n > 0 {
        let m = (n - 1) as nat;
        let before = instances_renaming(env, instances, m).env;
        let now = instances_renaming(env, instances, n).env;
        let bindings = instances[n - 1].bindings;
        lemma_instances(env, instances, 0, m);
        lemma_instance(before, instances[n - 1]);
        lemma_quiet_split(env, before, now);
        lemma_instances_quiet(env, instances, m);
        let start = declared(before, bindings, bindings.len(), true);
        lemma_declared(before, bindings, 0, bindings.len(), true);
        lemma_clauses(start, bindings, 0, bindings.len());
        lemma_quiet_split(before, start, now);
    }
}

/// If nothing at all is reported while a module is renamed, its local
/// declarations go unreported.
proof fn lemma_module_quiet(env: Env, module: ModuleView<Symbol>)
    requires
        env.scopes.len() >= 1,
        quiet(env, module_renaming(env, module).env),
    ensures
        module_quiet(env, module),
{
    let instances = instances_renaming(env, module.instances, module.instances.len());
    let bindings = bindings_renaming(instances.env, module.bindings, true);
    let name = bindings.env.make_unique(module.name);
    lemma_instances(env, module.instances, 0, module.instances.len());
    lemma_bindings(instances.env, module.bindings, true);
    lemma_make_unique(bindings.env, module.name);
    lemma_quiet_split(env, bindings.env, name.env);
    lemma_quiet_split(env, instances.env, bindings.env);
    lemma_instances_quiet(env, module.instances, module.instances.len());
    let start = declared(instances.env, module.bindings, module.bindings.len(), true);
    lemma_declared(instances.env, module.bindings, 0, module.bindings.len(), true);
    lemma_clauses(start, module.bindings, 0, module.bindings.len());
    lemma_quiet_split(instances.env, start, bindings.env);
}

/// If nothing at all is reported while the first `n` modules of a program
/// are renamed, their local declarations go unreported.
pub proof fn lemma_modules_quiet(env: Env, modules: Seq<ModuleView<Symbol>>, n: nat)
    requires
        env.scopes.len() >= 1,
        n <= modules.len(),
        quiet(env, modules_renaming(env, modules, n).env),
    ensures
        modules_quiet(env, modules, n),
    decreases n,
{
    if n > 0 {
        let m = (n - 1) as nat;
        let before = modules_renaming(env, modules, m).env;
        let now = modules_renaming(env, modules, n).env;
        lemma_modules(env, modules, 0, m);
        lemma_module(before, modules[n - 1]);
        lemma_quiet_split(env, before, now);
        lemma_modules_quiet(env, modules, m);
        lemma_module_quiet(before, modules[n - 1]);
    }
}

/// The modules that a batch returns have no number twice: a batch
/// returns modules only if nothing was reported, and then the numbers of
/// their local binding occurrences rise strictly from 2 on.
pub proof fn law_unique_batch(modules: Seq<ModuleView<Symbol>>, out: Seq<ModuleView<Name>>)
    requires
        is_batch_result(modules, Ok(out)),
        modules_renaming(Env::initial(), modules, modules.len()).env.counter <= usize::MAX,
    ensures
        ascending(
            modules_binders(out),
            1,
            modules_renaming(Env::initial(), modules, modules.len()).env.counter,
        ),
{
    let renamed = modules_renaming(Env::initial(), modules, modules.len());
    assert(renamed.env.errors =~= Env::initial().errors);
    lemma_modules_quiet(Env::initial(), modules, modules.len());
    law_unique_modules(Env::initial(), modules, modules.len());
}

/// A name that the pass mints differs from every name that was in scope
/// before: in a well-formed state the numbers in scope do not exceed the
/// counter, and the numbers of new binding occurrences lie above it.
pub proof fn law_binders_are_new(
    env: Env,
    expr: TypedExprView<Symbol>,
    k: int,
    i: int,
    symbol: Symbol,
)
    requires
        env.scopes.len() >= 1,
        env.well_formed(),
        quiet(env, expr_renaming(env, expr).env),
        0 <= k < expr_binders(expr_renaming(env, expr).out).len(),
        0 <= i < env.scopes.len(),
        env.scopes[i].contains_key(symbol),
    ensures
        env.scopes[i][symbol].uid < expr_binders(expr_renaming(env, expr).out)[k].uid,
{
    law_unique_expr(env, expr);
}

} // verus!
