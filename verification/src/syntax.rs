//! The syntax tree, generic in the representation `T` of its identifiers.
//!
//! The renaming pass reads symbols and writes names. Types, source
//! locations, literals, imports and class declarations ride along: the pass
//! moves them from the input tree to the output tree and never looks inside.
//!
//! Each tree type has a mathematical twin, reached with `@`, in which every
//! `Vec` of subtrees is a `Seq` of their twins. Contracts speak about the
//! twins.

use vstd::prelude::*;
use crate::name::Symbol;

verus! {

/// A position in the source text.
#[derive(Clone, Copy, Debug, PartialEq, Eq)]
pub struct Location {
    pub column: usize,
    pub row: usize,
    pub absolute: usize,
}

/// A node together with the place where it was read.
#[derive(Debug, PartialEq, Eq)]
pub struct Located<T> {
    pub location: Location,
    pub node: T,
}

/// A type expression: a variable, a type constructor, or an application of
/// one type to another.
#[derive(Debug, PartialEq, Eq)]
pub enum Type {
    Variable(usize),
    Constructor(Symbol),
    Application(Box<Type>, Box<Type>),
}

/// A class constraint on type variables.
#[derive(Debug, PartialEq, Eq)]
pub struct Constraint {
    pub class: Symbol,
    pub variables: Vec<usize>,
}

/// A declared type signature.
#[derive(Debug, PartialEq, Eq)]
pub struct TypeDeclaration {
    pub context: Vec<Constraint>,
    pub typ: Type,
    pub name: Symbol,
}

/// An import of another module.
#[derive(Debug, PartialEq, Eq)]
pub struct Import {
    pub module: Symbol,
}

/// A type class declaration.
#[derive(Debug, PartialEq, Eq)]
pub struct Class {
    pub constraints: Vec<Constraint>,
    pub name: Symbol,
    pub variable: usize,
    pub declarations: Vec<TypeDeclaration>,
}

/// A literal. A fractional literal is kept as the bit pattern of its
/// IEEE 754 double.
#[derive(Clone, Copy, Debug, PartialEq, Eq)]
pub enum Literal {
    Integral(i64),
    Fractional(u64),
    String(Symbol),
    Char(char),
}

/// A pattern, as it stands in an argument list, a lambda, a case
/// alternative or a `do` binding.
#[derive(Debug, PartialEq, Eq)]
pub enum Pattern<T> {
    NumberPattern(i64),
    IdentifierPattern(T),
    ConstructorPattern(T, Vec<Pattern<T>>),
    WildCardPattern,
}

/// An expression with its type annotation and source location.
#[derive(Debug, PartialEq, Eq)]
pub struct TypedExpr<T> {
    pub expr: Expr<T>,
    pub typ: Type,
    pub location: Location,
}

/// The variants of an expression.
#[derive(Debug, PartialEq, Eq)]
pub enum Expr<T> {
    Literal(Literal),
    Identifier(T),
    Apply(Box<TypedExpr<T>>, Box<TypedExpr<T>>),
    Lambda(Pattern<T>, Box<TypedExpr<T>>),
    Let(Vec<Binding<T>>, Box<TypedExpr<T>>),
    Case(Box<TypedExpr<T>>, Vec<Alternative<T>>),
    Do(Vec<DoBinding<T>>, Box<TypedExpr<T>>),
}

/// One equation of a definition. A definition with several equations is a
/// run of consecutive bindings with the same name.
#[derive(Debug, PartialEq, Eq)]
pub struct Binding<T> {
    pub name: T,
    pub arguments: Vec<Pattern<T>>,
    pub expression: TypedExpr<T>,
    pub type_decl: TypeDeclaration,
    pub arity: usize,
}

/// One arm of a case expression.
#[derive(Debug, PartialEq, Eq)]
pub struct Alternative<T> {
    pub pattern: Located<Pattern<T>>,
    pub expression: TypedExpr<T>,
}

/// One statement of a `do` block.
#[derive(Debug, PartialEq, Eq)]
pub enum DoBinding<T> {
    DoLet(Vec<Binding<T>>),
    DoBind(Located<Pattern<T>>, TypedExpr<T>),
    DoExpr(TypedExpr<T>),
}

/// A data constructor.
#[derive(Debug, PartialEq, Eq)]
pub struct Constructor<T> {
    pub name: T,
    pub typ: Type,
    pub tag: usize,
    pub arity: usize,
}

/// A data type definition.
#[derive(Debug, PartialEq, Eq)]
pub struct DataDefinition<T> {
    pub constructors: Vec<Constructor<T>>,
    pub typ: Type,
    pub parameters: Vec<Symbol>,
}

/// A class instance with the bindings of its methods.
#[derive(Debug, PartialEq, Eq)]
pub struct Instance<T> {
    pub bindings: Vec<Binding<T>>,
    pub constraints: Vec<Constraint>,
    pub typ: Type,
    pub classname: Symbol,
}

/// A module.
#[derive(Debug, PartialEq, Eq)]
pub struct Module<T> {
    pub name: T,
    pub imports: Vec<Import>,
    pub classes: Vec<Class>,
    pub data_definitions: Vec<DataDefinition<T>>,
    pub type_declarations: Vec<TypeDeclaration>,
    pub bindings: Vec<Binding<T>>,
    pub instances: Vec<Instance<T>>,
}

/// The twin of [`Pattern`].
pub enum PatternView<T> {
    NumberPattern(i64),
    IdentifierPattern(T),
    ConstructorPattern(T, Seq<PatternView<T>>),
    WildCardPattern,
}

/// The twin of [`TypedExpr`].
pub struct TypedExprView<T> {
    pub expr: ExprView<T>,
    pub typ: Type,
    pub location: Location,
}

/// The twin of [`Expr`].
pub enum ExprView<T> {
    Literal(Literal),
    Identifier(T),
    Apply(Box<TypedExprView<T>>, Box<TypedExprView<T>>),
    Lambda(PatternView<T>, Box<TypedExprView<T>>),
    Let(Seq<BindingView<T>>, Box<TypedExprView<T>>),
    Case(Box<TypedExprView<T>>, Seq<AlternativeView<T>>),
    Do(Seq<DoBindingView<T>>, Box<TypedExprView<T>>),
}

/// The twin of [`Binding`].
pub struct BindingView<T> {
    pub name: T,
    pub arguments: Seq<PatternView<T>>,
    pub expression: TypedExprView<T>,
    pub type_decl: TypeDeclaration,
    pub arity: usize,
}

/// The twin of [`Alternative`].
pub struct AlternativeView<T> {
    pub pattern: Located<PatternView<T>>,
    pub expression: TypedExprView<T>,
}

/// The twin of [`DoBinding`].
pub enum DoBindingView<T> {
    DoLet(Seq<BindingView<T>>),
    DoBind(Located<PatternView<T>>, TypedExprView<T>),
    DoExpr(TypedExprView<T>),
}

/// The twin of [`Constructor`].
pub struct ConstructorView<T> {
    pub name: T,
    pub typ: Type,
    pub tag: usize,
    pub arity: usize,
}

/// The twin of [`DataDefinition`].
pub struct DataDefinitionView<T> {
    pub constructors: Seq<ConstructorView<T>>,
    pub typ: Type,
    pub parameters: Vec<Symbol>,
}

/// The twin of [`Instance`].
pub struct InstanceView<T> {
    pub bindings: Seq<BindingView<T>>,
    pub constraints: Vec<Constraint>,
    pub typ: Type,
    pub classname: Symbol,
}

/// The twin of [`Module`].
pub struct ModuleView<T> {
    pub name: T,
    pub imports: Vec<Import>,
    pub classes: Vec<Class>,
    pub data_definitions: Seq<DataDefinitionView<T>>,
    pub type_declarations: Vec<TypeDeclaration>,
    pub bindings: Seq<BindingView<T>>,
    pub instances: Seq<InstanceView<T>>,
}

/// The twin of a pattern.
pub open spec fn pattern_view<T>(pattern: Pattern<T>) -> PatternView<T>
    decreases pattern,
{
    match pattern {
        Pattern::NumberPattern(n) => PatternView::NumberPattern(n),
        Pattern::IdentifierPattern(name) => PatternView::IdentifierPattern(name),
        Pattern::ConstructorPattern(name, patterns) => PatternView::ConstructorPattern(
            name,
            patterns_view(patterns@),
        ),
        Pattern::WildCardPattern => PatternView::WildCardPattern,
    }
}

/// The twins of a sequence of patterns.
pub open spec fn patterns_view<T>(patterns: Seq<Pattern<T>>) -> Seq<PatternView<T>>
    decreases patterns,
{
    Seq::new(
        patterns.len(),
        |i: int|
            if 0 <= i < patterns.len() {
                pattern_view(patterns[i])
            } else {
                arbitrary()
            },
    )
}

/// The twin of an expression with its annotations.
pub open spec fn typed_expr_view<T>(expr: TypedExpr<T>) -> TypedExprView<T>
    decreases expr,
{
    TypedExprView { expr: expr_view(expr.expr), typ: expr.typ, location: expr.location }
}

/// The twin of an expression.
pub open spec fn expr_view<T>(expr: Expr<T>) -> ExprView<T>
    decreases expr,
{
    match expr {
        Expr::Literal(literal) => ExprView::Literal(literal),
        Expr::Identifier(name) => ExprView::Identifier(name),
        Expr::Apply(function, argument) => ExprView::Apply(
            Box::new(typed_expr_view(*function)),
            Box::new(typed_expr_view(*argument)),
        ),
        Expr::Lambda(pattern, body) => ExprView::Lambda(
            pattern_view(pattern),
            Box::new(typed_expr_view(*body)),
        ),
        Expr::Let(bindings, body) => ExprView::Let(
            bindings_view(bindings@),
            Box::new(typed_expr_view(*body)),
        ),
        Expr::Case(scrutinee, alternatives) => ExprView::Case(
            Box::new(typed_expr_view(*scrutinee)),
            alternatives_view(alternatives@),
        ),
        Expr::Do(statements, result) => ExprView::Do(
            statements_view(statements@),
            Box::new(typed_expr_view(*result)),
        ),
    }
}

/// The twin of a binding.
pub open spec fn binding_view<T>(binding: Binding<T>) -> BindingView<T>
    decreases binding,
{
    BindingView {
        name: binding.name,
        arguments: patterns_view(binding.arguments@),
        expression: typed_expr_view(binding.expression),
        type_decl: binding.type_decl,
        arity: binding.arity,
    }
}

/// The twins of a sequence of bindings.
pub open spec fn bindings_view<T>(bindings: Seq<Binding<T>>) -> Seq<BindingView<T>>
    decreases bindings,
{
    Seq::new(
        bindings.len(),
        |i: int|
            if 0 <= i < bindings.len() {
                binding_view(bindings[i])
            } else {
                arbitrary()
            },
    )
}

/// The twin of a case alternative.
pub open spec fn alternative_view<T>(alternative: Alternative<T>) -> AlternativeView<T>
    decreases alternative,
{
    AlternativeView {
        pattern: Located {
            location: alternative.pattern.location,
            node: pattern_view(alternative.pattern.node),
        },
        expression: typed_expr_view(alternative.expression),
    }
}

/// The twins of a sequence of case alternatives.
pub open spec fn alternatives_view<T>(alternatives: Seq<Alternative<T>>) -> Seq<
    AlternativeView<T>,
>
    decreases alternatives,
{
    Seq::new(
        alternatives.len(),
        |i: int|
            if 0 <= i < alternatives.len() {
                alternative_view(alternatives[i])
            } else {
                arbitrary()
            },
    )
}

/// The twin of a statement of a `do` block.
pub open spec fn statement_view<T>(statement: DoBinding<T>) -> DoBindingView<T>
    decreases statement,
{
    match statement {
        DoBinding::DoLet(bindings) => DoBindingView::DoLet(
            bindings_view(bindings@),
        ),
        DoBinding::DoBind(pattern, expr) => DoBindingView::DoBind(
            Located { location: pattern.location, node: pattern_view(pattern.node) },
            typed_expr_view(expr),
        ),
        DoBinding::DoExpr(expr) => DoBindingView::DoExpr(typed_expr_view(expr)),
    }
}

/// The twins of a sequence of statements.
pub open spec fn statements_view<T>(statements: Seq<DoBinding<T>>) -> Seq<DoBindingView<T>>
    decreases statements,
{
    Seq::new(
        statements.len(),
        |i: int|
            if 0 <= i < statements.len() {
                statement_view(statements[i])
            } else {
                arbitrary()
            },
    )
}

/// The twin of a data constructor.
pub open spec fn constructor_view<T>(constructor: Constructor<T>) -> ConstructorView<T> {
    ConstructorView {
        name: constructor.name,
        typ: constructor.typ,
        tag: constructor.tag,
        arity: constructor.arity,
    }
}

/// The twins of a sequence of data constructors.
pub open spec fn constructors_view<T>(constructors: Seq<Constructor<T>>) -> Seq<
    ConstructorView<T>,
> {
    Seq::new(constructors.len(), |i: int| constructor_view(constructors[i]))
}

/// The twin of a data type definition.
pub open spec fn data_definition_view<T>(definition: DataDefinition<T>) -> DataDefinitionView<T> {
    DataDefinitionView {
        constructors: constructors_view(definition.constructors@),
        typ: definition.typ,
        parameters: definition.parameters,
    }
}

/// The twins of a sequence of data type definitions.
pub open spec fn data_definitions_view<T>(definitions: Seq<DataDefinition<T>>) -> Seq<
    DataDefinitionView<T>,
> {
    Seq::new(definitions.len(), |i: int| data_definition_view(definitions[i]))
}

/// The twin of a class instance.
pub open spec fn instance_view<T>(instance: Instance<T>) -> InstanceView<T> {
    InstanceView {
        bindings: bindings_view(instance.bindings@),
        constraints: instance.constraints,
        typ: instance.typ,
        classname: instance.classname,
    }
}

/// The twins of a sequence of class instances.
pub open spec fn instances_view<T>(instances: Seq<Instance<T>>) -> Seq<InstanceView<T>> {
    Seq::new(instances.len(), |i: int| instance_view(instances[i]))
}

/// The twin of a module.
pub open spec fn module_view<T>(module: Module<T>) -> ModuleView<T> {
    ModuleView {
        name: module.name,
        imports: module.imports,
        classes: module.classes,
        data_definitions: data_definitions_view(module.data_definitions@),
        type_declarations: module.type_declarations,
        bindings: bindings_view(module.bindings@),
        instances: instances_view(module.instances@),
    }
}

/// The twins of a sequence of modules.
pub open spec fn modules_view<T>(modules: Seq<Module<T>>) -> Seq<ModuleView<T>> {
    Seq::new(modules.len(), |i: int| module_view(modules[i]))
}

impl<T> View for Pattern<T> {
    type V = PatternView<T>;

    open spec fn view(&self) -> PatternView<T> {
        pattern_view(*self)
    }
}

impl<T> View for TypedExpr<T> {
    type V = TypedExprView<T>;

    open spec fn view(&self) -> TypedExprView<T> {
        typed_expr_view(*self)
    }
}

impl<T> View for Expr<T> {
    type V = ExprView<T>;

    open spec fn view(&self) -> ExprView<T> {
        expr_view(*self)
    }
}

impl<T> View for Binding<T> {
    type V = BindingView<T>;

    open spec fn view(&self) -> BindingView<T> {
        binding_view(*self)
    }
}

impl<T> View for Alternative<T> {
    type V = AlternativeView<T>;

    open spec fn view(&self) -> AlternativeView<T> {
        alternative_view(*self)
    }
}

impl<T> View for DoBinding<T> {
    type V = DoBindingView<T>;

    open spec fn view(&self) -> DoBindingView<T> {
        statement_view(*self)
    }
}

impl<T> View for Constructor<T> {
    type V = ConstructorView<T>;

    open spec fn view(&self) -> ConstructorView<T> {
        constructor_view(*self)
    }
}

impl<T> View for DataDefinition<T> {
    type V = DataDefinitionView<T>;

    open spec fn view(&self) -> DataDefinitionView<T> {
        data_definition_view(*self)
    }
}

impl<T> View for Instance<T> {
    type V = InstanceView<T>;

    open spec fn view(&self) -> InstanceView<T> {
        instance_view(*self)
    }
}

impl<T> View for Module<T> {
    type V = ModuleView<T>;

    open spec fn view(&self) -> ModuleView<T> {
        module_view(*self)
    }
}

} // verus!
