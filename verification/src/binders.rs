//! The binding occurrences of a renamed tree.
//!
//! A local binding occurrence is a variable in a pattern, the name of a
//! definition in a local binding list, or the name of a module. The
//! functions here list them in the order in which the pass meets them. The
//! names of global definitions and of constructors are not among them.

use vstd::prelude::*;
use crate::name::Name;
use crate::syntax::{
    AlternativeView, BindingView, DoBindingView, ExprView, InstanceView, ModuleView, PatternView,
    TypedExprView,
};

verus! {

broadcast use vstd::seq::axiom_seq_subrange_decreases;

/// The variables that a pattern binds.
pub open spec fn pattern_binders(pattern: PatternView<Name>) -> Seq<Name>
    decreases pattern,
{
    match pattern {
        PatternView::IdentifierPattern(name) => seq![name],
        PatternView::ConstructorPattern(_, patterns) => patterns_binders(patterns),
        _ => Seq::empty(),
    }
}

/// The variables that the patterns of a list bind.
pub open spec fn patterns_binders(patterns: Seq<PatternView<Name>>) -> Seq<Name>
    decreases patterns,
{
    if patterns.len() == 0 {
        Seq::empty()
    } else {
        patterns_binders(patterns.drop_last()) + pattern_binders(patterns.last())
    }
}

/// The binding occurrences in an expression.
pub open spec fn expr_binders(expr: TypedExprView<Name>) -> Seq<Name>
    decreases expr,
{
    node_binders(expr.expr)
}

/// The binding occurrences in an expression, by variant.
pub open spec fn node_binders(expr: ExprView<Name>) -> Seq<Name>
    decreases expr,
{
    match expr {
        ExprView::Literal(_) => Seq::empty(),
        ExprView::Identifier(_) => Seq::empty(),
        ExprView::Apply(function, argument) => expr_binders(*function) + expr_binders(*argument),
        ExprView::Lambda(pattern, body) => pattern_binders(pattern) + expr_binders(*body),
        ExprView::Let(bindings, body) => bindings_binders(bindings, false) + expr_binders(*body),
        ExprView::Case(scrutinee, alternatives) => expr_binders(*scrutinee)
            + alternatives_binders(alternatives),
        ExprView::Do(statements, result) => statements_binders(statements) + expr_binders(*result),
    }
}

/// The names of the definitions of a binding list: the name of each
/// binding that is the first of the list or follows one of another name.
pub open spec fn definition_names(bindings: Seq<BindingView<Name>>) -> Seq<Name>
    decreases bindings.len(),
{
    if bindings.len() == 0 {
        Seq::empty()
    } else if bindings.len() >= 2 && bindings[bindings.len() - 2].name == bindings.last().name {
        definition_names(bindings.drop_last())
    } else {
        definition_names(bindings.drop_last()).push(bindings.last().name)
    }
}

/// The binding occurrences of a binding list: the names of its definitions
/// unless the list is global, then what its equations bind.
pub open spec fn bindings_binders(bindings: Seq<BindingView<Name>>, is_global: bool) -> Seq<Name>
    decreases bindings, bindings.len() + 1,
{
    if is_global {
        clauses_binders(bindings)
    } else {
        definition_names(bindings) + clauses_binders(bindings)
    }
}

/// The binding occurrences in the equations of a binding list.
pub open spec fn clauses_binders(bindings: Seq<BindingView<Name>>) -> Seq<Name>
    decreases bindings, bindings.len(),
{
    if bindings.len() == 0 {
        Seq::empty()
    } else {
        clauses_binders(bindings.drop_last()) + clause_binders(bindings.last())
    }
}

/// The binding occurrences in one equation: its arguments, then its body.
pub open spec fn clause_binders(binding: BindingView<Name>) -> Seq<Name>
    decreases binding,
{
    patterns_binders(binding.arguments) + expr_binders(binding.expression)
}

/// The binding occurrences in the alternatives of a case expression.
pub open spec fn alternatives_binders(alternatives: Seq<AlternativeView<Name>>) -> Seq<Name>
    decreases alternatives,
{
    if alternatives.len() == 0 {
        Seq::empty()
    } else {
        alternatives_binders(alternatives.drop_last()) + alternative_binders(alternatives.last())
    }
}

/// The binding occurrences in one alternative: its pattern, then its
/// expression.
pub open spec fn alternative_binders(alternative: AlternativeView<Name>) -> Seq<Name>
    decreases alternative,
{
    pattern_binders(alternative.pattern.node) + expr_binders(alternative.expression)
}

/// The binding occurrences in the statements of a `do` block.
pub open spec fn statements_binders(statements: Seq<DoBindingView<Name>>) -> Seq<Name>
    decreases statements,
{
    if statements.len() == 0 {
        Seq::empty()
    } else {
        statements_binders(statements.drop_last()) + statement_binders(statements.last())
    }
}

/// The binding occurrences in one statement. A bind lists what its
/// expression binds before the variables of its pattern.
pub open spec fn statement_binders(statement: DoBindingView<Name>) -> Seq<Name>
    decreases statement,
{
    match statement {
        DoBindingView::DoExpr(expr) => expr_binders(expr),
        DoBindingView::DoLet(bindings) => bindings_binders(bindings, false),
        DoBindingView::DoBind(pattern, expr) => expr_binders(expr) + pattern_binders(pattern.node),
    }
}

/// The binding occurrences in the instances of a module.
pub open spec fn instances_binders(instances: Seq<InstanceView<Name>>) -> Seq<Name>
    decreases instances.len(),
{
    if instances.len() == 0 {
        Seq::empty()
    } else {
        instances_binders(instances.drop_last()) + bindings_binders(
            instances.last().bindings,
            true,
        )
    }
}

/// The binding occurrences in a module: what its instances and its
/// top-level bindings bind locally, then the name of the module.
pub open spec fn module_binders(module: ModuleView<Name>) -> Seq<Name> {
    (instances_binders(module.instances) + bindings_binders(module.bindings, true)).push(
        module.name,
    )
}

/// The binding occurrences in the modules of a program.
pub open spec fn modules_binders(modules: Seq<ModuleView<Name>>) -> Seq<Name>
    decreases modules.len(),
{
    if modules.len() == 0 {
        Seq::empty()
    } else {
        modules_binders(modules.drop_last()) + module_binders(modules.last())
    }
}

} // verus!
