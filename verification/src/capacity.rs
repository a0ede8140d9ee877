//! How many identities a tree may need.
//!
//! The counter of a renamer is a machine number. Every declaration that
//! the pass makes advances it by one at most, so a tree with `n` places
//! that declare a name can be renamed as long as the counter is at least
//! `n` below the largest number. The functions here count these places,
//! as mathematics and on the tree itself.

use vstd::prelude::*;
use crate::name::Symbol;
use crate::semantics::{
    alternative_renaming, alternatives_renaming, bindings_renaming, clause_renaming,
    clauses_renaming, declared, expr_renaming, instances_renaming, module_renaming,
    modules_renaming, node_renaming, pattern_renaming, patterns_renaming, statement_renaming,
    statements_renaming, Env,
};
use crate::syntax::{
    alternative_view, alternatives_view, binding_view, bindings_view, expr_view, instances_view,
    modules_view, pattern_view, patterns_view, statement_view, statements_view, Alternative,
    AlternativeView, Binding, BindingView, DoBinding, DoBindingView, Expr, ExprView, InstanceView,
    Module, ModuleView, Pattern, PatternView, TypedExpr, TypedExprView,
};

verus! {

broadcast use vstd::seq::axiom_seq_subrange_decreases;

/// The variables of a pattern.
pub open spec fn pattern_sites(pattern: PatternView<Symbol>) -> nat
    decreases pattern,
{
    match pattern {
        PatternView::IdentifierPattern(_) => 1,
        PatternView::ConstructorPattern(_, patterns) => patterns_sites(patterns),
        _ => 0,
    }
}

/// The variables of the patterns of a list.
pub open spec fn patterns_sites(patterns: Seq<PatternView<Symbol>>) -> nat
    decreases patterns,
{
    if patterns.len() == 0 {
        0
    } else {
        patterns_sites(patterns.drop_last()) + pattern_sites(patterns.last())
    }
}

/// The places in an expression that declare a name.
pub open spec fn expr_sites(expr: TypedExprView<Symbol>) -> nat
    decreases expr,
{
    node_sites(expr.expr)
}

/// The places in an expression that declare a name, by variant.
pub open spec fn node_sites(expr: ExprView<Symbol>) -> nat
    decreases expr,
{
    match expr {
        ExprView::Literal(_) => 0,
        ExprView::Identifier(_) => 0,
        ExprView::Apply(function, argument) => expr_sites(*function) + expr_sites(*argument),
        ExprView::Lambda(pattern, body) => pattern_sites(pattern) + expr_sites(*body),
        ExprView::Let(bindings, body) => bindings_sites(bindings) + expr_sites(*body),
        ExprView::Case(scrutinee, alternatives) => expr_sites(*scrutinee) + alternatives_sites(
            alternatives,
        ),
        ExprView::Do(statements, result) => statements_sites(statements) + expr_sites(*result),
    }
}

/// The places in a binding list that declare a name, each equation counted
/// as one for the definition that it may open.
pub open spec fn bindings_sites(bindings: Seq<BindingView<Symbol>>) -> nat
    decreases bindings,
{
    if bindings.len() == 0 {
        0
    } else {
        bindings_sites(bindings.drop_last()) + 1 + clause_sites(bindings.last())
    }
}

/// The places in the arguments and the body of an equation.
pub open spec fn clause_sites(binding: BindingView<Symbol>) -> nat
    decreases binding,
{
    patterns_sites(binding.arguments) + expr_sites(binding.expression)
}

/// The places in the alternatives of a case expression.
pub open spec fn alternatives_sites(alternatives: Seq<AlternativeView<Symbol>>) -> nat
    decreases alternatives,
{
    if alternatives.len() == 0 {
        0
    } else {
        alternatives_sites(alternatives.drop_last()) + alternative_sites(alternatives.last())
    }
}

/// The places in one alternative.
pub open spec fn alternative_sites(alternative: AlternativeView<Symbol>) -> nat
    decreases alternative,
{
    pattern_sites(alternative.pattern.node) + expr_sites(alternative.expression)
}

/// The places in the statements of a `do` block.
pub open spec fn statements_sites(statements: Seq<DoBindingView<Symbol>>) -> nat
    decreases statements,
{
    if statements.len() == 0 {
        0
    } else {
        statements_sites(statements.drop_last()) + statement_sites(statements.last())
    }
}

/// The places in one statement.
pub open spec fn statement_sites(statement: DoBindingView<Symbol>) -> nat
    decreases statement,
{
    match statement {
        DoBindingView::DoExpr(expr) => expr_sites(expr),
        DoBindingView::DoLet(bindings) => bindings_sites(bindings),
        DoBindingView::DoBind(pattern, expr) => expr_sites(expr) + pattern_sites(pattern.node),
    }
}

/// The places in the instances of a module.
pub open spec fn instances_sites(instances: Seq<InstanceView<Symbol>>) -> nat
    decreases instances.len(),
{
    if instances.len() == 0 {
        0
    } else {
        instances_sites(instances.drop_last()) + bindings_sites(instances.last().bindings)
    }
}

/// The places in a module, its own name among them.
pub open spec fn module_sites(module: ModuleView<Symbol>) -> nat {
    instances_sites(module.instances) + bindings_sites(module.bindings) + 1
}

/// The places in the modules of a program.
pub open spec fn modules_sites(modules: Seq<ModuleView<Symbol>>) -> nat
    decreases modules.len(),
{
    if modules.len() == 0 {
        0
    } else {
        modules_sites(modules.drop_last()) + module_sites(modules.last())
    }
}

/// The sum of the sites of the equations of a list without the one that
/// each counts for its definition.
spec fn clauses_sites(bindings: Seq<BindingView<Symbol>>) -> nat
    decreases bindings.len(),
{
    if bindings.len() == 0 {
        0
    } else {
        clauses_sites(bindings.drop_last()) + clause_sites(bindings.last())
    }
}

/// A binding list has one site for each equation besides the sites of
/// its equations.
proof fn lemma_clauses_sites(bindings: Seq<BindingView<Symbol>>)
    ensures
        bindings_sites(bindings) == bindings.len() + clauses_sites(bindings),
    decreases bindings.len(),
{
    if bindings.len() > 0 {
        lemma_clauses_sites(bindings.drop_last());
    }
}

/// Renaming a pattern advances the counter by the number of its variables
/// at most.
pub proof fn lemma_pattern_sites(env: Env, pattern: PatternView<Symbol>)
    ensures
        pattern_renaming(env, pattern).env.counter <= env.counter + pattern_sites(pattern),
    decreases pattern, 0nat,
{
    match pattern {
        PatternView::ConstructorPattern(_, patterns) => {
            lemma_patterns_sites(env, patterns, patterns.len());
            assert(patterns.take(patterns.len() as int) =~= patterns);
        },
        _ => {},
    }
}

/// The same for the first `n` patterns of a list.
pub proof fn lemma_patterns_sites(env: Env, patterns: Seq<PatternView<Symbol>>, n: nat)
    requires
        n <= patterns.len(),
    ensures
        patterns_renaming(env, patterns, n).env.counter <= env.counter + patterns_sites(
            patterns.take(n as int),
        ),
    decreases patterns, n,
{
    if n > 0 {
        let m = (n - 1) as nat;
        lemma_patterns_sites(env, patterns, m);
        lemma_pattern_sites(patterns_renaming(env, patterns, m).env, patterns[n - 1]);
        assert(patterns.take(n as int).drop_last() =~= patterns.take(m as int));
    }
}

/// Renaming an expression advances the counter by the number of its
/// declaring places at most.
pub proof fn lemma_expr_sites(env: Env, expr: TypedExprView<Symbol>)
    ensures
        expr_renaming(env, expr).env.counter <= env.counter + expr_sites(expr),
    decreases expr, 0nat,
{
    lemma_node_sites(env, expr.expr);
}

/// The same for an expression without its annotations.
pub proof fn lemma_node_sites(env: Env, expr: ExprView<Symbol>)
    ensures
        node_renaming(env, expr).env.counter <= env.counter + node_sites(expr),
    decreases expr, 0nat,
{
    match expr {
        ExprView::Literal(_) => {},
        ExprView::Identifier(_) => {},
        ExprView::Apply(function, argument) => {
            lemma_expr_sites(env, *function);
            lemma_expr_sites(expr_renaming(env, *function).env, *argument);
        },
        ExprView::Lambda(pattern, body) => {
            lemma_pattern_sites(env.enter(), pattern);
            lemma_expr_sites(pattern_renaming(env.enter(), pattern).env, *body);
        },
        ExprView::Let(bindings, body) => {
            lemma_bindings_sites(env.enter(), bindings, false);
            lemma_expr_sites(bindings_renaming(env.enter(), bindings, false).env, *body);
        },
        ExprView::Case(scrutinee, alternatives) => {
            lemma_expr_sites(env, *scrutinee);
            lemma_alternatives_sites(
                expr_renaming(env, *scrutinee).env,
                alternatives,
                alternatives.len(),
            );
            assert(alternatives.take(alternatives.len() as int) =~= alternatives);
        },
        ExprView::Do(statements, result) => {
            lemma_statements_sites(env, statements, statements.len());
            assert(statements.take(statements.len() as int) =~= statements);
            lemma_expr_sites(statements_renaming(env, statements, statements.len()).env, *result);
        },
    }
}

/// Declaring the definitions among `n` bindings advances the counter by
/// `n` at most.
proof fn lemma_declared_sites(env: Env, bindings: Seq<BindingView<Symbol>>, n: nat, is_global: bool)
    requires
        n <= bindings.len(),
    ensures
        declared(env, bindings, n, is_global).counter <= env.counter + n,
    decreases n,
{
    if n > 0 {
        lemma_declared_sites(env, bindings, (n - 1) as nat, is_global);
    }
}

/// Renaming a binding list advances the counter by the number of its
/// declaring places at most.
pub proof fn lemma_bindings_sites(env: Env, bindings: Seq<BindingView<Symbol>>, is_global: bool)
    ensures
        bindings_renaming(env, bindings, is_global).env.counter <= env.counter + bindings_sites(
            bindings,
        ),
    decreases bindings, bindings.len() + 1,
{
    lemma_declared_sites(env, bindings, bindings.len(), is_global);
    lemma_clauses_renaming_sites(
        declared(env, bindings, bindings.len(), is_global),
        bindings,
        bindings.len(),
    );
    assert(bindings.take(bindings.len() as int) =~= bindings);
    lemma_clauses_sites(bindings);
}

/// Renaming the first `n` equations of a declared list advances the
/// counter by the number of their declaring places at most.
proof fn lemma_clauses_renaming_sites(env: Env, bindings: Seq<BindingView<Symbol>>, n: nat)
    requires
        n <= bindings.len(),
    ensures
        clauses_renaming(env, bindings, n).env.counter <= env.counter + clauses_sites(
            bindings.take(n as int),
        ),
    decreases bindings, n,
{
    if n > 0 {
        let m = (n - 1) as nat;
        lemma_clauses_renaming_sites(env, bindings, m);
        lemma_clause_sites(clauses_renaming(env, bindings, m).env, bindings[n - 1]);
        assert(bindings.take(n as int).drop_last() =~= bindings.take(m as int));
    }
}

/// The same for one equation.
proof fn lemma_clause_sites(env: Env, binding: BindingView<Symbol>)
    ensures
        clause_renaming(env, binding).env.counter <= env.counter + clause_sites(binding),
    decreases binding, 0nat,
{
    lemma_patterns_sites(env.enter(), binding.arguments, binding.arguments.len());
    assert(binding.arguments.take(binding.arguments.len() as int) =~= binding.arguments);
    lemma_expr_sites(
        patterns_renaming(env.enter(), binding.arguments, binding.arguments.len()).env,
        binding.expression,
    );
}

/// The same for the first `n` alternatives of a case expression.
proof fn lemma_alternatives_sites(env: Env, alternatives: Seq<AlternativeView<Symbol>>, n: nat)
    requires
        n <= alternatives.len(),
    ensures
        alternatives_renaming(env, alternatives, n).env.counter <= env.counter
            + alternatives_sites(alternatives.take(n as int)),
    decreases alternatives, n,
{
    if n > 0 {
        let m = (n - 1) as nat;
        lemma_alternatives_sites(env, alternatives, m);
        lemma_alternative_sites(
            alternatives_renaming(env, alternatives, m).env,
            alternatives[n - 1],
        );
        assert(alternatives.take(n as int).drop_last() =~= alternatives.take(m as int));
    }
}

/// The same for one alternative.
proof fn lemma_alternative_sites(env: Env, alternative: AlternativeView<Symbol>)
    ensures
        alternative_renaming(env, alternative).env.counter <= env.counter + alternative_sites(
            alternative,
        ),
    decreases alternative, 0nat,
{
    lemma_pattern_sites(env.enter(), alternative.pattern.node);
    lemma_expr_sites(
        pattern_renaming(env.enter(), alternative.pattern.node).env,
        alternative.expression,
    );
}

/// The same for the first `n` statements of a `do` block.
proof fn lemma_statements_sites(env: Env, statements: Seq<DoBindingView<Symbol>>, n: nat)
    requires
        n <= statements.len(),
    ensures
        statements_renaming(env, statements, n).env.counter <= env.counter + statements_sites(
            statements.take(n as int),
        ),
    decreases statements, n,
{
    if n > 0 {
        let m = (n - 1) as nat;
        lemma_statements_sites(env, statements, m);
        lemma_statement_sites(statements_renaming(env, statements, m).env, statements[n - 1]);
        assert(statements.take(n as int).drop_last() =~= statements.take(m as int));
    }
}

/// The same for one statement.
proof fn lemma_statement_sites(env: Env, statement: DoBindingView<Symbol>)
    ensures
        statement_renaming(env, statement).env.counter <= env.counter + statement_sites(
            statement,
        ),
    decreases statement, 0nat,
{
    match statement {
        DoBindingView::DoExpr(expr) => {
            lemma_expr_sites(env, expr);
        },
        DoBindingView::DoLet(bindings) => {
            lemma_bindings_sites(env.enter(), bindings, false);
        },
        DoBindingView::DoBind(pattern, expr) => {
            lemma_expr_sites(env, expr);
            lemma_pattern_sites(expr_renaming(env, expr).env, pattern.node);
        },
    }
}

/// The same for the first `n` instances of a module.
proof fn lemma_instances_sites(env: Env, instances: Seq<InstanceView<Symbol>>, n: nat)
    requires
        n <= instances.len(),
    ensures
        instances_renaming(env, instances, n).env.counter <= env.counter + instances_sites(
            instances.take(n as int),
        ),
    decreases n,
{
    if n > 0 {
        let m = (n - 1) as nat;
        lemma_instances_sites(env, instances, m);
        lemma_bindings_sites(
            instances_renaming(env, instances, m).env,
            instances[n - 1].bindings,
            true,
        );
        assert(instances.take(n as int).drop_last() =~= instances.take(m as int));
    }
}

/// Renaming a module advances the counter by the number of its declaring
/// places at most.
pub proof fn lemma_module_sites(env: Env, module: ModuleView<Symbol>)
    ensures
        module_renaming(env, module).env.counter <= env.counter + module_sites(module),
{
    lemma_instances_sites(env, module.instances, module.instances.len());
    assert(module.instances.take(module.instances.len() as int) =~= module.instances);
    lemma_bindings_sites(
        instances_renaming(env, module.instances, module.instances.len()).env,
        module.bindings,
        true,
    );
}

/// Renaming the first `n` modules of a program advances the counter by the
/// number of their declaring places at most.
pub proof fn lemma_modules_sites(env: Env, modules: Seq<ModuleView<Symbol>>, n: nat)
    requires
        n <= modules.len(),
    ensures
        modules_renaming(env, modules, n).env.counter <= env.counter + modules_sites(
            modules.take(n as int),
        ),
    decreases n,
{
    if n > 0 {
        let m = (n - 1) as nat;
        lemma_modules_sites(env, modules, m);
        lemma_module_sites(modules_renaming(env, modules, m).env, modules[n - 1]);
        assert(modules.take(n as int).drop_last() =~= modules.take(m as int));
    }
}

/// Whether `count` is the number `sites`, or stands for a number that is
/// too large for the machine.
pub open spec fn counts(count: Option<usize>, sites: nat) -> bool {
    match count {
        Some(n) => n == sites,
        None => sites > usize::MAX,
    }
}

/// The sum of two counts; a sum that is too large for the machine is
/// `None`, and so is a sum with a `None`.
pub open spec fn sum_of(a: Option<usize>, b: Option<usize>) -> Option<usize> {
    match (a, b) {
        (Some(x), Some(y)) => if x + y <= usize::MAX {
            Some((x + y) as usize)
        } else {
            None
        },
        _ => None,
    }
}

/// Adds two counts.
fn sum(a: Option<usize>, b: Option<usize>) -> (r: Option<usize>)
    ensures
        r == sum_of(a, b),
{
    match (a, b) {
        (Some(x), Some(y)) => {
            if x > usize::MAX - y {
                None
            } else {
                Some(x + y)
            }
        },
        _ => None,
    }
}

/// The number of variables of a pattern.
pub fn count_pattern(pattern: &Pattern<Symbol>) -> (r: Option<usize>)
    ensures
        counts(r, pattern_sites(pattern@)),
    decreases pattern@, 0nat,
{
    assert(pattern@ == pattern_view(*pattern));
    match pattern {
        Pattern::IdentifierPattern(_) => Some(1),
        Pattern::ConstructorPattern(_, patterns) => {
            assert(pattern@ matches PatternView::ConstructorPattern(_, ps) && ps == patterns_view(
                patterns@,
            ));
            count_patterns(patterns)
        },
        _ => Some(0),
    }
}

/// The number of variables of the patterns of a list.
pub fn count_patterns(patterns: &Vec<Pattern<Symbol>>) -> (r: Option<usize>)
    ensures
        counts(r, patterns_sites(patterns_view(patterns@))),
    decreases patterns_view(patterns@), patterns@.len(),
{
    let ghost items = patterns_view(patterns@);
    let mut total: Option<usize> = Some(0);
    let mut i: usize = 0;
    while i < patterns.len()
        invariant
            i <= patterns@.len(),
            items == patterns_view(patterns@),
            counts(total, patterns_sites(items.take(i as int))),
        decreases patterns@.len() - i,
    {
        assert(patterns@[i as int]@ == items[i as int]);
        let one = count_pattern(&patterns[i]);
        assert(items.take(i + 1).drop_last() =~= items.take(i as int));
        total = sum(total, one);
        i += 1;
    }
    assert(items.take(i as int) =~= items);
    total
}

/// The number of places in an expression that declare a name.
pub fn count_expr(expr: &TypedExpr<Symbol>) -> (r: Option<usize>)
    ensures
        counts(r, expr_sites(expr@)),
    decreases expr@, 0nat,
{
    assert(expr@.expr == expr_view(expr.expr));
    match &expr.expr {
        Expr::Literal(_) => Some(0),
        Expr::Identifier(_) => Some(0),
        Expr::Apply(function, argument) => {
            assert(expr@.expr matches ExprView::Apply(f, a) && *f == function@ && *a == argument@);
            let f = count_expr(function);
            let a = count_expr(argument);
            sum(f, a)
        },
        Expr::Lambda(pattern, body) => {
            assert(expr@.expr matches ExprView::Lambda(p, b) && p == pattern@ && *b == body@);
            let p = count_pattern(pattern);
            let b = count_expr(body);
            sum(p, b)
        },
        Expr::Let(bindings, body) => {
            assert(expr@.expr matches ExprView::Let(bs, b) && bs == bindings_view(bindings@) && *b
                == body@);
            let bs = count_bindings(bindings);
            let b = count_expr(body);
            sum(bs, b)
        },
        Expr::Case(scrutinee, alternatives) => {
            assert(expr@.expr matches ExprView::Case(s, alts) && alts == alternatives_view(
                alternatives@,
            ) && *s == scrutinee@);
            let s = count_expr(scrutinee);
            let alts = count_alternatives(alternatives);
            sum(s, alts)
        },
        Expr::Do(statements, result) => {
            assert(expr@.expr matches ExprView::Do(stmts, r) && stmts == statements_view(
                statements@,
            ) && *r == result@);
            let stmts = count_statements(statements);
            let r = count_expr(result);
            sum(stmts, r)
        },
    }
}

/// The number of places in a binding list that declare a name.
pub fn count_bindings(bindings: &Vec<Binding<Symbol>>) -> (r: Option<usize>)
    ensures
        counts(r, bindings_sites(bindings_view(bindings@))),
    decreases bindings_view(bindings@), bindings@.len(),
{
    let ghost items = bindings_view(bindings@);
    let mut total: Option<usize> = Some(0);
    let mut i: usize = 0;
    while i < bindings.len()
        invariant
            i <= bindings@.len(),
            items == bindings_view(bindings@),
            counts(total, bindings_sites(items.take(i as int))),
        decreases bindings@.len() - i,
    {
        assert(items[i as int] == binding_view(bindings@[i as int]));
        assert(items[i as int].arguments == patterns_view(bindings@[i as int].arguments@));
        assert(items[i as int].expression == bindings@[i as int].expression@);
        let arguments = count_patterns(&bindings[i].arguments);
        let body = count_expr(&bindings[i].expression);
        assert(counts(sum_of(arguments, body), clause_sites(items[i as int])));
        assert(items.take(i + 1).drop_last() =~= items.take(i as int));
        assert(items.take(i + 1).last() == items[i as int]);
        assert(bindings_sites(items.take(i + 1)) == bindings_sites(items.take(i as int)) + 1
            + clause_sites(items[i as int]));
        total = sum(sum(total, Some(1)), sum(arguments, body));
        i += 1;
    }
    assert(items.take(i as int) =~= items);
    total
}

/// The number of places in the alternatives of a case expression that
/// declare a name.
fn count_alternatives(alternatives: &Vec<Alternative<Symbol>>) -> (r: Option<usize>)
    ensures
        counts(r, alternatives_sites(alternatives_view(alternatives@))),
    decreases alternatives_view(alternatives@), alternatives@.len(),
{
    let ghost items = alternatives_view(alternatives@);
    let mut total: Option<usize> = Some(0);
    let mut i: usize = 0;
    while i < alternatives.len()
        invariant
            i <= alternatives@.len(),
            items == alternatives_view(alternatives@),
            counts(total, alternatives_sites(items.take(i as int))),
        decreases alternatives@.len() - i,
    {
        assert(items[i as int] == alternative_view(alternatives@[i as int]));
        assert(items[i as int].pattern.node == alternatives@[i as int].pattern.node@);
        assert(items[i as int].expression == alternatives@[i as int].expression@);
        let pattern = count_pattern(&alternatives[i].pattern.node);
        let expression = count_expr(&alternatives[i].expression);
        assert(counts(sum_of(pattern, expression), alternative_sites(items[i as int])));
        assert(items.take(i + 1).drop_last() =~= items.take(i as int));
        assert(items.take(i + 1).last() == items[i as int]);
        assert(alternatives_sites(items.take(i + 1)) == alternatives_sites(items.take(i as int))
            + alternative_sites(items[i as int]));
        total = sum(total, sum(pattern, expression));
        i += 1;
    }
    assert(items.take(i as int) =~= items);
    total
}

/// The number of places in the statements of a `do` block that declare a
/// name.
fn count_statements(statements: &Vec<DoBinding<Symbol>>) -> (r: Option<usize>)
    ensures
        counts(r, statements_sites(statements_view(statements@))),
    decreases statements_view(statements@), statements@.len(),
{
    let ghost items = statements_view(statements@);
    let mut total: Option<usize> = Some(0);
    let mut i: usize = 0;
    while i < statements.len()
        invariant
            i <= statements@.len(),
            items == statements_view(statements@),
            counts(total, statements_sites(items.take(i as int))),
        decreases statements@.len() - i,
    {
        assert(items[i as int] == statement_view(statements@[i as int]));
        let one = match &statements[i] {
            DoBinding::DoExpr(expr) => {
                assert(items[i as int] matches DoBindingView::DoExpr(e) && e == expr@);
                count_expr(expr)
            },
            DoBinding::DoLet(bindings) => {
                assert(items[i as int] matches DoBindingView::DoLet(bs) && bs == bindings_view(
                    bindings@,
                ));
                count_bindings(bindings)
            },
            DoBinding::DoBind(pattern, expr) => {
                assert(items[i as int] matches DoBindingView::DoBind(p, e) && e == expr@ && p.node
                    == pattern.node@);
                let e = count_expr(expr);
                let p = count_pattern(&pattern.node);
                sum(e, p)
            },
        };
        assert(counts(one, statement_sites(items[i as int])));
        assert(items.take(i + 1).drop_last() =~= items.take(i as int));
        assert(items.take(i + 1).last() == items[i as int]);
        assert(statements_sites(items.take(i + 1)) == statements_sites(items.take(i as int))
            + statement_sites(items[i as int]));
        total = sum(total, one);
        i += 1;
    }
    assert(items.take(i as int) =~= items);
    total
}

/// The number of places in a module that declare a name, its own name
/// among them.
pub fn count_module(module: &Module<Symbol>) -> (r: Option<usize>)
    ensures
        counts(r, module_sites(module@)),
{
    let ghost items = instances_view(module.instances@);
    let mut total: Option<usize> = Some(0);
    let mut i: usize = 0;
    while i < module.instances.len()
        invariant
            i <= module.instances@.len(),
            items == instances_view(module.instances@),
            counts(total, instances_sites(items.take(i as int))),
        decreases module.instances@.len() - i,
    {
        let one = count_bindings(&module.instances[i].bindings);
        assert(items.take(i + 1).drop_last() =~= items.take(i as int));
        total = sum(total, one);
        i += 1;
    }
    assert(items.take(i as int) =~= items);
    sum(sum(total, count_bindings(&module.bindings)), Some(1))
}

/// The number of places in the modules of a program that declare a name.
pub fn count_modules(modules: &Vec<Module<Symbol>>) -> (r: Option<usize>)
    ensures
        counts(r, modules_sites(modules_view(modules@))),
{
    let ghost items = modules_view(modules@);
    let mut total: Option<usize> = Some(0);
    let mut i: usize = 0;
    while i < modules.len()
        invariant
            i <= modules@.len(),
            items == modules_view(modules@),
            counts(total, modules_sites(items.take(i as int))),
        decreases modules@.len() - i,
    {
        let one = count_module(&modules[i]);
        assert(items.take(i + 1).drop_last() =~= items.take(i as int));
        total = sum(total, one);
        i += 1;
    }
    assert(items.take(i as int) =~= items);
    total
}

} // verus!
