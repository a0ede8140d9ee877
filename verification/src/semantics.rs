//! What the renaming pass computes, as mathematics.
//!
//! The pass threads a state through a depth-first traversal of the tree:
//! the scope frames, the counter from which identities are minted, and the
//! reports made so far. Each function here takes that state before a tree
//! is visited and gives the state after it together with the renamed tree.
//! A sequence of trees is folded from the left; the functions for
//! sequences take the number of leading elements to visit.

use vstd::prelude::*;
use crate::errors::Diagnostic;
use crate::name::{Name, Symbol};
use crate::scoped_map::{bind, lookup, rebind};
use crate::syntax::{
    AlternativeView, BindingView, ConstructorView, DataDefinitionView, DoBindingView, ExprView,
    InstanceView, Located, ModuleView, PatternView, TypedExprView,
};

verus! {

/// The state of a renamer.
pub struct Env {
    /// The scope frames, outermost first.
    pub scopes: Seq<Map<Symbol, Name>>,
    /// The last number that was minted.
    pub counter: nat,
    /// The reports made so far, oldest first.
    pub errors: Seq<Diagnostic>,
}

/// The state after a step, and what the step produced.
pub struct Renamed<A> {
    pub env: Env,
    pub out: A,
}

impl Env {
    /// The state of a new renamer: one empty frame, nothing reported, and
    /// the counter at 1, so that the first identity minted is 2.
    pub open spec fn initial() -> Env {
        Env { scopes: seq![Map::empty()], counter: 1, errors: Seq::empty() }
    }

    /// Whether every frame binds each of its symbols to a name of that
    /// symbol whose number the counter has reached.
    pub open spec fn well_formed(self) -> bool {
        forall|i: int, symbol: Symbol|
            0 <= i < self.scopes.len() && (#[trigger] self.scopes[i].contains_key(symbol))
                ==> self.scopes[i][symbol].name == symbol && self.scopes[i][symbol].uid
                <= self.counter
    }

    /// The state after a scope is entered.
    pub open spec fn enter(self) -> Env {
        Env { scopes: self.scopes.push(Map::empty()), ..self }
    }

    /// The state after the innermost scope is left.
    pub open spec fn exit(self) -> Env {
        Env { scopes: self.scopes.drop_last(), ..self }
    }

    /// The state after every frame above the first `depth` is left.
    pub open spec fn leave_to(self, depth: nat) -> Env {
        Env { scopes: self.scopes.take(depth as int), ..self }
    }

    /// The name that an occurrence of `symbol` refers to: the identity of
    /// its innermost binding, or the global name if nothing binds it.
    pub open spec fn resolve(self, symbol: Symbol) -> Name {
        match lookup(self.scopes, symbol) {
            Some(bound) => Name { name: symbol, uid: bound.uid },
            None => Name::global(symbol),
        }
    }

    /// Declares `symbol` in the innermost frame. If the frame binds it
    /// already, that is reported and the name it has is kept; otherwise the
    /// counter is advanced and the symbol is bound to the new number.
    pub open spec fn make_unique(self, symbol: Symbol) -> Renamed<Name> {
        if self.scopes.last().contains_key(symbol) {
            Renamed {
                env: Env {
                    errors: self.errors.push(Diagnostic::DuplicateDefinition { symbol }),
                    ..self
                },
                out: self.scopes.last()[symbol],
            }
        } else {
            let name = Name { name: symbol, uid: (self.counter + 1) as usize };
            Renamed {
                env: Env {
                    scopes: bind(self.scopes, symbol, name),
                    counter: self.counter + 1,
                    errors: self.errors,
                },
                out: name,
            }
        }
    }

    /// The state after the innermost binding of `symbol` is made global.
    pub open spec fn demote(self, symbol: Symbol) -> Env {
        match lookup(self.scopes, symbol) {
            Some(bound) => Env {
                scopes: rebind(self.scopes, symbol, Name { name: bound.name, uid: 0 }),
                ..self
            },
            None => self,
        }
    }

    /// The state after one definition is declared: `make_unique`, and for a
    /// global definition `demote`.
    pub open spec fn declare(self, symbol: Symbol, is_global: bool) -> Env {
        let declared = self.make_unique(symbol).env;
        if is_global {
            declared.demote(symbol)
        } else {
            declared
        }
    }
}

/// Whether the binding at `i` opens a definition: it is the first binding,
/// or the binding before it has another name.
pub open spec fn starts_group(bindings: Seq<BindingView<Symbol>>, i: int) -> bool {
    i == 0 || bindings[i - 1].name != bindings[i].name
}

/// The state after the definitions among the first `n` bindings are
/// declared, one declaration for each run of equally named bindings.
pub open spec fn declared(
    env: Env,
    bindings: Seq<BindingView<Symbol>>,
    n: nat,
    is_global: bool,
) -> Env
    decreases n,
{
    if n == 0 || n > bindings.len() {
        env
    } else {
        let before = declared(env, bindings, (n - 1) as nat, is_global);
        if starts_group(bindings, n - 1) {
            before.declare(bindings[n - 1].name, is_global)
        } else {
            before
        }
    }
}

/// A pattern: an identifier is declared in the innermost frame; a
/// constructor becomes a global name and its subpatterns follow in order.
pub open spec fn pattern_renaming(env: Env, pattern: PatternView<Symbol>) -> Renamed<
    PatternView<Name>,
>
    decreases pattern, 0nat,
{
    match pattern {
        PatternView::NumberPattern(n) => Renamed { env, out: PatternView::NumberPattern(n) },
        PatternView::WildCardPattern => Renamed { env, out: PatternView::WildCardPattern },
        PatternView::IdentifierPattern(symbol) => {
            let made = env.make_unique(symbol);
            Renamed { env: made.env, out: PatternView::IdentifierPattern(made.out) }
        },
        PatternView::ConstructorPattern(symbol, patterns) => {
            let inner = patterns_renaming(env, patterns, patterns.len());
            Renamed {
                env: inner.env,
                out: PatternView::ConstructorPattern(Name::global(symbol), inner.out),
            }
        },
    }
}

/// The first `n` patterns of a sequence, in order.
pub open spec fn patterns_renaming(env: Env, patterns: Seq<PatternView<Symbol>>, n: nat) -> Renamed<
    Seq<PatternView<Name>>,
>
    decreases patterns, n,
{
    if n == 0 || n > patterns.len() {
        Renamed { env, out: Seq::empty() }
    } else {
        let before = patterns_renaming(env, patterns, (n - 1) as nat);
        let last = pattern_renaming(before.env, patterns[n - 1]);
        Renamed { env: last.env, out: before.out.push(last.out) }
    }
}

/// An expression with its annotations, which are kept as they are.
pub open spec fn expr_renaming(env: Env, expr: TypedExprView<Symbol>) -> Renamed<
    TypedExprView<Name>,
>
    decreases expr, 0nat,
{
    let node = node_renaming(env, expr.expr);
    Renamed {
        env: node.env,
        out: TypedExprView { expr: node.out, typ: expr.typ, location: expr.location },
    }
}

/// An expression, by variant.
///
/// An identifier is resolved. An application renames the function, then the
/// argument. A lambda and a `let` open a frame for their bindings and their
/// body. A case expression renames its scrutinee where it stands, then
/// each alternative in a frame of its own. A `do` block renames its
/// statements and then its result, and leaves the frames that its `let`
/// statements opened.
pub open spec fn node_renaming(env: Env, expr: ExprView<Symbol>) -> Renamed<ExprView<Name>>
    decreases expr, 0nat,
{
    match expr {
        ExprView::Literal(literal) => Renamed { env, out: ExprView::Literal(literal) },
        ExprView::Identifier(symbol) => Renamed {
            env,
            out: ExprView::Identifier(env.resolve(symbol)),
        },
        ExprView::Apply(function, argument) => {
            let f = expr_renaming(env, *function);
            let a = expr_renaming(f.env, *argument);
            Renamed { env: a.env, out: ExprView::Apply(Box::new(f.out), Box::new(a.out)) }
        },
        ExprView::Lambda(pattern, body) => {
            let p = pattern_renaming(env.enter(), pattern);
            let b = expr_renaming(p.env, *body);
            Renamed { env: b.env.exit(), out: ExprView::Lambda(p.out, Box::new(b.out)) }
        },
        ExprView::Let(bindings, body) => {
            let bs = bindings_renaming(env.enter(), bindings, false);
            let b = expr_renaming(bs.env, *body);
            Renamed { env: b.env.exit(), out: ExprView::Let(bs.out, Box::new(b.out)) }
        },
        ExprView::Case(scrutinee, alternatives) => {
            let s = expr_renaming(env, *scrutinee);
            let alts = alternatives_renaming(s.env, alternatives, alternatives.len());
            Renamed { env: alts.env, out: ExprView::Case(Box::new(s.out), alts.out) }
        },
        ExprView::Do(statements, result) => {
            let stmts = statements_renaming(env, statements, statements.len());
            let r = expr_renaming(stmts.env, *result);
            Renamed {
                env: r.env.leave_to(env.scopes.len()),
                out: ExprView::Do(stmts.out, Box::new(r.out)),
            }
        },
    }
}

/// A list of bindings: all definitions are declared first, so that each is
/// in scope in every equation, then the equations are renamed in order.
pub open spec fn bindings_renaming(
    env: Env,
    bindings: Seq<BindingView<Symbol>>,
    is_global: bool,
) -> Renamed<Seq<BindingView<Name>>>
    decreases bindings, bindings.len() + 1,
{
    clauses_renaming(
        declared(env, bindings, bindings.len(), is_global),
        bindings,
        bindings.len(),
    )
}

/// The first `n` equations of a list whose definitions are declared.
pub open spec fn clauses_renaming(env: Env, bindings: Seq<BindingView<Symbol>>, n: nat) -> Renamed<
    Seq<BindingView<Name>>,
>
    decreases bindings, n,
{
    if n == 0 || n > bindings.len() {
        Renamed { env, out: Seq::empty() }
    } else {
        let before = clauses_renaming(env, bindings, (n - 1) as nat);
        let last = clause_renaming(before.env, bindings[n - 1]);
        Renamed { env: last.env, out: before.out.push(last.out) }
    }
}

/// One equation: it takes the name under which its definition was
/// declared, and renames its arguments and then its body in a frame of its
/// own.
pub open spec fn clause_renaming(env: Env, binding: BindingView<Symbol>) -> Renamed<
    BindingView<Name>,
>
    decreases binding, 0nat,
{
    let arguments = patterns_renaming(env.enter(), binding.arguments, binding.arguments.len());
    let body = expr_renaming(arguments.env, binding.expression);
    Renamed {
        env: body.env.exit(),
        out: BindingView {
            name: lookup(env.scopes, binding.name).unwrap(),
            arguments: arguments.out,
            expression: body.out,
            type_decl: binding.type_decl,
            arity: binding.arity,
        },
    }
}

/// One equation that is a global definition by itself: the definition is
/// declared and made global, then the equation is renamed like any other.
pub open spec fn binding_renaming(env: Env, binding: BindingView<Symbol>) -> Renamed<
    BindingView<Name>,
> {
    let clause = clause_renaming(env.declare(binding.name, true), binding);
    Renamed {
        env: clause.env,
        out: BindingView {
            name: Name::global(binding.name),
            arguments: clause.out.arguments,
            expression: clause.out.expression,
            type_decl: binding.type_decl,
            arity: binding.arity,
        },
    }
}

/// Whether `result` is what renaming a program gives: the renamed modules
/// if nothing was reported, and otherwise the reports, all of them, in the
/// order in which they were made.
pub open spec fn is_batch_result(
    modules: Seq<ModuleView<Symbol>>,
    result: Result<Seq<ModuleView<Name>>, Seq<Diagnostic>>,
) -> bool {
    let renamed = modules_renaming(Env::initial(), modules, modules.len());
    match result {
        Ok(out) => renamed.env.errors.len() == 0 && out == renamed.out,
        Err(reports) => reports.len() > 0 && reports == renamed.env.errors,
    }
}

/// The first `n` alternatives of a case expression, in order.
pub open spec fn alternatives_renaming(
    env: Env,
    alternatives: Seq<AlternativeView<Symbol>>,
    n: nat,
) -> Renamed<Seq<AlternativeView<Name>>>
    decreases alternatives, n,
{
    if n == 0 || n > alternatives.len() {
        Renamed { env, out: Seq::empty() }
    } else {
        let before = alternatives_renaming(env, alternatives, (n - 1) as nat);
        let last = alternative_renaming(before.env, alternatives[n - 1]);
        Renamed { env: last.env, out: before.out.push(last.out) }
    }
}

/// One alternative: its pattern, then its expression, in a frame of its
/// own.
pub open spec fn alternative_renaming(env: Env, alternative: AlternativeView<Symbol>) -> Renamed<
    AlternativeView<Name>,
>
    decreases alternative, 0nat,
{
    let p = pattern_renaming(env.enter(), alternative.pattern.node);
    let e = expr_renaming(p.env, alternative.expression);
    Renamed {
        env: e.env.exit(),
        out: AlternativeView {
            pattern: Located { location: alternative.pattern.location, node: p.out },
            expression: e.out,
        },
    }
}

/// The number of `let` statements among the first `n` statements of a
/// `do` block, which is the number of frames that they open.
pub open spec fn opened_frames(statements: Seq<DoBindingView<Symbol>>, n: nat) -> nat
    decreases n,
{
    if n == 0 || n > statements.len() {
        0
    } else if statements[n - 1] is DoLet {
        opened_frames(statements, (n - 1) as nat) + 1
    } else {
        opened_frames(statements, (n - 1) as nat)
    }
}

/// The first `n` statements of a `do` block, in order.
pub open spec fn statements_renaming(
    env: Env,
    statements: Seq<DoBindingView<Symbol>>,
    n: nat,
) -> Renamed<Seq<DoBindingView<Name>>>
    decreases statements, n,
{
    if n == 0 || n > statements.len() {
        Renamed { env, out: Seq::empty() }
    } else {
        let before = statements_renaming(env, statements, (n - 1) as nat);
        let last = statement_renaming(before.env, statements[n - 1]);
        Renamed { env: last.env, out: before.out.push(last.out) }
    }
}

/// One statement of a `do` block. A `let` opens a frame for its bindings,
/// which stays open for the rest of the block, so that the bindings are
/// seen by the statements after it and may shadow what came before. A bind
/// declares the variables of its pattern in the innermost frame, for the
/// statements after it; it renames its expression before its pattern, so
/// the variables are not in scope in the expression.
pub open spec fn statement_renaming(env: Env, statement: DoBindingView<Symbol>) -> Renamed<
    DoBindingView<Name>,
>
    decreases statement, 0nat,
{
    match statement {
        DoBindingView::DoExpr(expr) => {
            let e = expr_renaming(env, expr);
            Renamed { env: e.env, out: DoBindingView::DoExpr(e.out) }
        },
        DoBindingView::DoLet(bindings) => {
            let bs = bindings_renaming(env.enter(), bindings, false);
            Renamed { env: bs.env, out: DoBindingView::DoLet(bs.out) }
        },
        DoBindingView::DoBind(pattern, expr) => {
            let e = expr_renaming(env, expr);
            let p = pattern_renaming(e.env, pattern.node);
            Renamed {
                env: p.env,
                out: DoBindingView::DoBind(
                    Located { location: pattern.location, node: p.out },
                    e.out,
                ),
            }
        },
    }
}

/// A data constructor: its name becomes global.
pub open spec fn constructor_renaming(constructor: ConstructorView<Symbol>) -> ConstructorView<
    Name,
> {
    ConstructorView {
        name: Name::global(constructor.name),
        typ: constructor.typ,
        tag: constructor.tag,
        arity: constructor.arity,
    }
}

/// The constructors of a data type.
pub open spec fn constructors_renaming(constructors: Seq<ConstructorView<Symbol>>) -> Seq<
    ConstructorView<Name>,
> {
    Seq::new(constructors.len(), |i: int| constructor_renaming(constructors[i]))
}

/// A data type definition: each constructor is renamed; no state is read
/// or changed.
pub open spec fn data_definition_renaming(
    definition: DataDefinitionView<Symbol>,
) -> DataDefinitionView<Name> {
    DataDefinitionView {
        constructors: constructors_renaming(definition.constructors),
        typ: definition.typ,
        parameters: definition.parameters,
    }
}

/// The data type definitions of a module.
pub open spec fn data_definitions_renaming(definitions: Seq<DataDefinitionView<Symbol>>) -> Seq<
    DataDefinitionView<Name>,
> {
    Seq::new(definitions.len(), |i: int| data_definition_renaming(definitions[i]))
}

/// A class instance: its methods are a list of global bindings.
pub open spec fn instance_renaming(env: Env, instance: InstanceView<Symbol>) -> Renamed<
    InstanceView<Name>,
> {
    let bs = bindings_renaming(env, instance.bindings, true);
    Renamed {
        env: bs.env,
        out: InstanceView {
            bindings: bs.out,
            constraints: instance.constraints,
            typ: instance.typ,
            classname: instance.classname,
        },
    }
}

/// The first `n` instances of a module, in order.
pub open spec fn instances_renaming(
    env: Env,
    instances: Seq<InstanceView<Symbol>>,
    n: nat,
) -> Renamed<Seq<InstanceView<Name>>>
    decreases n,
{
    if n == 0 || n > instances.len() {
        Renamed { env, out: Seq::empty() }
    } else {
        let before = instances_renaming(env, instances, (n - 1) as nat);
        let last = instance_renaming(before.env, instances[n - 1]);
        Renamed { env: last.env, out: before.out.push(last.out) }
    }
}

/// A module: the instances, then the top-level bindings as a list of
/// global bindings, then the module's own name, which is declared like a
/// local one and keeps the number it is given. Nothing opens a frame, so
/// what a module declares at its top level stays declared for the modules
/// renamed after it.
pub open spec fn module_renaming(env: Env, module: ModuleView<Symbol>) -> Renamed<
    ModuleView<Name>,
> {
    let instances = instances_renaming(env, module.instances, module.instances.len());
    let bindings = bindings_renaming(instances.env, module.bindings, true);
    let name = bindings.env.make_unique(module.name);
    Renamed {
        env: name.env,
        out: ModuleView {
            name: name.out,
            imports: module.imports,
            classes: module.classes,
            data_definitions: data_definitions_renaming(module.data_definitions),
            type_declarations: module.type_declarations,
            bindings: bindings.out,
            instances: instances.out,
        },
    }
}

/// The first `n` modules of a program, in order, through one state.
pub open spec fn modules_renaming(env: Env, modules: Seq<ModuleView<Symbol>>, n: nat) -> Renamed<
    Seq<ModuleView<Name>>,
>
    decreases n,
{
    if n == 0 || n > modules.len() {
        Renamed { env, out: Seq::empty() }
    } else {
        let before = modules_renaming(env, modules, (n - 1) as nat);
        let last = module_renaming(before.env, modules[n - 1]);
        Renamed { env: last.env, out: before.out.push(last.out) }
    }
}

} // verus!
