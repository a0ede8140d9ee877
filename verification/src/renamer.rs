//! The renaming pass.
//!
//! A [`Renamer`] holds the scope frames, the allocator of identities and
//! the reports. Its methods walk a tree once, depth first, and do to their
//! state exactly what the functions of the same shape in `semantics` say;
//! every contract here is an equation with one of them.

use vstd::prelude::*;
use vstd::pervasive::unreached;
use crate::allocator::IdentityAllocator;
use crate::capacity::{
    count_expr, count_module, count_modules, expr_sites, lemma_expr_sites, lemma_module_sites,
    lemma_modules_sites, module_sites, modules_sites,
};
use crate::errors::{Diagnostic, Errors};
use crate::grouping::{binding_groups, is_grouping, lemma_declared_run};
use crate::invariants::{
    lemma_alternatives, lemma_bindings, lemma_clauses, lemma_declare, lemma_declared, lemma_expr,
    lemma_instances, lemma_make_unique, lemma_modules, lemma_pattern, lemma_patterns,
    lemma_statements,
};
use crate::name::{Name, Symbol};
use crate::scoped_map::{lookup, ScopedMap};
use crate::semantics::{
    alternative_renaming, alternatives_renaming, binding_renaming, bindings_renaming,
    clause_renaming, clauses_renaming, constructor_renaming, constructors_renaming,
    data_definition_renaming, data_definitions_renaming, declared, expr_renaming,
    instances_renaming, is_batch_result, module_renaming, modules_renaming, opened_frames,
    pattern_renaming, patterns_renaming, statement_renaming, statements_renaming, Env,
};
use crate::syntax::{
    alternatives_view, bindings_view, constructors_view, data_definitions_view, instances_view,
    modules_view, patterns_view, statement_view, statements_view, Alternative, Binding,
    Constructor, DataDefinition, DoBinding, Expr, Instance, Located, Module, Pattern, TypedExpr,
};

verus! {

/// The elements of `v` in the opposite order.
fn reversed<T>(v: Vec<T>) -> (r: Vec<T>)
    ensures
        r@.len() == v@.len(),
        forall|k: int| 0 <= k < r@.len() ==> r@[k] == v@[v@.len() - 1 - k],
{
    let ghost given = v@;
    let mut v = v;
    let mut r: Vec<T> = Vec::new();
    while v.len() > 0
        invariant
            r@.len() + v@.len() == given.len(),
            forall|k: int| 0 <= k < v@.len() ==> v@[k] == given[k],
            forall|k: int| 0 <= k < r@.len() ==> r@[k] == given[given.len() - 1 - k],
        decreases v@.len(),
    {
        let x = v.pop().unwrap();
        r.push(x);
    }
    r
}

/// The state of the pass: the scope frames, the counter from which
/// identities are minted, and the reports made so far.
pub struct Renamer {
    uniques: ScopedMap<Name>,
    ids: IdentityAllocator,
    errors: Errors<Diagnostic>,
}

impl View for Renamer {
    type V = Env;

    closed spec fn view(&self) -> Env {
        Env { scopes: self.uniques@, counter: self.ids@, errors: self.errors@ }
    }
}

impl Renamer {
    /// A renamer that has seen nothing.
    pub fn new() -> (r: Renamer)
        ensures
            r@ == Env::initial(),
    {
        Renamer { uniques: ScopedMap::new(), ids: IdentityAllocator::new(), errors: Errors::new() }
    }

    /// There is always a frame to bind in.
    pub proof fn lemma_depth(&self)
        ensures
            self@.scopes.len() >= 1,
    {
        self.uniques.lemma_depth();
    }

    /// Declares `name` in the innermost frame and returns the name that
    /// stands for it from now on.
    pub fn make_unique(&mut self, name: Symbol) -> (r: Name)
        requires
            old(self)@.make_unique(name).env.counter <= usize::MAX,
        ensures
            r == old(self)@.make_unique(name).out,
            final(self)@ == old(self)@.make_unique(name).env,
    {
        proof {
            self.lemma_depth();
        }
        if self.uniques.in_current_scope(&name) {
            self.errors.insert(Diagnostic::DuplicateDefinition { symbol: name });
            match self.uniques.find(&name) {
                Some(found) => *found,
                None => unreached(),
            }
        } else {
            let u = self.ids.mint(name);
            self.uniques.insert(name, u);
            u
        }
    }

    /// The name that an occurrence of `s` refers to.
    pub fn get_name(&self, s: Symbol) -> (r: Name)
        ensures
            r == self@.resolve(s),
    {
        match self.uniques.find(&s) {
            Some(found) => Name { name: s, uid: found.uid },
            None => Name { name: s, uid: 0 },
        }
    }

    /// Renames a pattern and declares the variables that it binds.
    pub fn rename_pattern(&mut self, pattern: Pattern<Symbol>) -> (r: Pattern<Name>)
        requires
            pattern_renaming(old(self)@, pattern@).env.counter <= usize::MAX,
        ensures
            r@ == pattern_renaming(old(self)@, pattern@).out,
            final(self)@ == pattern_renaming(old(self)@, pattern@).env,
        decreases pattern@, 0nat,
    {
        match pattern {
            Pattern::NumberPattern(i) => Pattern::NumberPattern(i),
            Pattern::ConstructorPattern(s, ps) => {
                let ps2 = self.rename_arguments(ps);
                Pattern::ConstructorPattern(Name { name: s, uid: 0 }, ps2)
            },
            Pattern::IdentifierPattern(s) => Pattern::IdentifierPattern(self.make_unique(s)),
            Pattern::WildCardPattern => Pattern::WildCardPattern,
        }
    }

    /// Renames the patterns of a list in order.
    pub fn rename_arguments(&mut self, arguments: Vec<Pattern<Symbol>>) -> (r: Vec<Pattern<Name>>)
        requires
            patterns_renaming(
                old(self)@,
                patterns_view(arguments@),
                arguments@.len(),
            ).env.counter <= usize::MAX,
        ensures
            patterns_view(r@) == patterns_renaming(
                old(self)@,
                patterns_view(arguments@),
                arguments@.len(),
            ).out,
            final(self)@ == patterns_renaming(
                old(self)@,
                patterns_view(arguments@),
                arguments@.len(),
            ).env,
        decreases patterns_view(arguments@), arguments@.len(),
    {
        let ghost env0 = self@;
        let ghost items = patterns_view(arguments@);
        let n: usize = arguments.len();
        let mut rest = reversed(arguments);
        let mut out: Vec<Pattern<Name>> = Vec::new();
        let mut i: usize = 0;
        proof {
            self.lemma_depth();
        }
        while i < n
            invariant
                i <= n,
                n == items.len(),
                items == patterns_view(arguments@),
                rest@.len() == n - i,
                forall|k: int| 0 <= k < n - i ==> (#[trigger] rest@[k])@ == items[n - 1 - k],
                self@ == patterns_renaming(env0, items, i as nat).env,
                patterns_view(out@) == patterns_renaming(env0, items, i as nat).out,
                patterns_renaming(env0, items, n as nat).env.counter <= usize::MAX,
                env0.scopes.len() >= 1,
            decreases n - i,
        {
            let p = rest.pop().unwrap();
            proof {
                lemma_patterns(env0, items, (i + 1) as nat, n as nat);
            }
            let q = self.rename_pattern(p);
            out.push(q);
            i += 1;
        }
        out
    }

    /// Renames an expression.
    pub fn rename(&mut self, input_expr: TypedExpr<Symbol>) -> (r: TypedExpr<Name>)
        requires
            expr_renaming(old(self)@, input_expr@).env.counter <= usize::MAX,
        ensures
            r@ == expr_renaming(old(self)@, input_expr@).out,
            final(self)@ == expr_renaming(old(self)@, input_expr@).env,
        decreases input_expr@, 0nat,
    {
        let ghost env0 = self@;
        proof {
            self.lemma_depth();
        }
        let TypedExpr { expr, typ, location } = input_expr;
        let e = match expr {
            Expr::Literal(l) => Expr::Literal(l),
            Expr::Identifier(i) => Expr::Identifier(self.get_name(i)),
            Expr::Apply(func, arg) => {
                proof {
                    lemma_expr(env0, func@);
                    lemma_expr(expr_renaming(env0, func@).env, arg@);
                }
                let f = self.rename(*func);
                let a = self.rename(*arg);
                Expr::Apply(Box::new(f), Box::new(a))
            },
            Expr::Lambda(arg, body) => {
                proof {
                    lemma_pattern(env0.enter(), arg@);
                    lemma_expr(pattern_renaming(env0.enter(), arg@).env, body@);
                }
                self.uniques.enter_scope();
                let p = self.rename_pattern(arg);
                let b = self.rename(*body);
                self.uniques.exit_scope();
                Expr::Lambda(p, Box::new(b))
            },
            Expr::Let(bindings, body) => {
                proof {
                    let items = bindings_view(bindings@);
                    lemma_bindings(env0.enter(), items, false);
                    lemma_expr(bindings_renaming(env0.enter(), items, false).env, body@);
                }
                self.uniques.enter_scope();
                let bs = self.rename_bindings(bindings, false);
                let b = self.rename(*body);
                self.uniques.exit_scope();
                Expr::Let(bs, Box::new(b))
            },
            Expr::Case(scrutinee, alts) => {
                proof {
                    let items = alternatives_view(alts@);
                    lemma_expr(env0, scrutinee@);
                    lemma_alternatives(expr_renaming(env0, scrutinee@).env, items, 0, items.len());
                }
                let s = self.rename(*scrutinee);
                let a = self.rename_alternatives(alts);
                Expr::Case(Box::new(s), a)
            },
            Expr::Do(statements, result) => {
                proof {
                    let items = statements_view(statements@);
                    lemma_statements(env0, items, 0, items.len());
                    lemma_expr(statements_renaming(env0, items, items.len()).env, result@);
                }
                let opened = count_lets(&statements);
                let s = self.rename_statements(statements);
                let r = self.rename(*result);
                self.leave_scopes(opened);
                Expr::Do(s, Box::new(r))
            },
        };
        TypedExpr { expr: e, typ: typ, location: location }
    }

    /// Renames a list of bindings. With `is_global` the definitions become
    /// global names; without it each gets an identity of its own.
    pub fn rename_bindings(&mut self, bindings: Vec<Binding<Symbol>>, is_global: bool) -> (r: Vec<
        Binding<Name>,
    >)
        requires
            bindings_renaming(old(self)@, bindings_view(bindings@), is_global).env.counter
                <= usize::MAX,
        ensures
            bindings_view(r@) == bindings_renaming(
                old(self)@,
                bindings_view(bindings@),
                is_global,
            ).out,
            final(self)@ == bindings_renaming(old(self)@, bindings_view(bindings@), is_global).env,
        decreases bindings_view(bindings@), bindings@.len() + 1,
    {
        let ghost env0 = self@;
        let ghost items = bindings_view(bindings@);
        let n: usize = bindings.len();
        let ghost env1 = declared(env0, items, n as nat, is_global);
        proof {
            self.lemma_depth();
            lemma_declared(env0, items, 0, n as nat, is_global);
            lemma_clauses(env1, items, 0, n as nat);
        }
        let groups = binding_groups(&bindings);
        let mut g: usize = 0;
        while g < groups.len()
            invariant
                g <= groups@.len(),
                n == items.len(),
                n == bindings@.len(),
                items == bindings_view(bindings@),
                is_grouping(items, groups@),
                env0.scopes.len() >= 1,
                env1 == declared(env0, items, n as nat, is_global),
                env1.counter <= usize::MAX,
                g < groups@.len() ==> self@ == declared(
                    env0,
                    items,
                    groups@[g as int].0 as nat,
                    is_global,
                ),
                g == groups@.len() ==> self@ == env1,
            decreases groups@.len() - g,
        {
            let first: usize = groups[g].0;
            let ghost last = groups@[g as int].1;
            let name = bindings[first].name;
            let ghost before = self@;
            proof {
                lemma_declared(env0, items, 0, first as nat, is_global);
                lemma_declared(env0, items, (first + 1) as nat, n as nat, is_global);
                lemma_declare(before, name, is_global);
                lemma_make_unique(before, name);
                assert(declared(env0, items, (first + 1) as nat, is_global) == before.declare(
                    name,
                    is_global,
                ));
                lemma_declared_run(env0, items, (first + 1) as nat, last as nat, is_global);
            }
            self.make_unique(name);
            if is_global {
                match self.uniques.find_mut(&name) {
                    Some(bound) => {
                        bound.uid = 0;
                    },
                    None => {},
                }
            }
            g += 1;
        }
        let mut rest = reversed(bindings);
        let mut out: Vec<Binding<Name>> = Vec::new();
        let mut i: usize = 0;
        while i < n
            invariant
                i <= n,
                n == items.len(),
                items == bindings_view(bindings@),
                rest@.len() == n - i,
                forall|k: int| 0 <= k < n - i ==> (#[trigger] rest@[k])@ == items[n - 1 - k],
                self@ == clauses_renaming(env1, items, i as nat).env,
                bindings_view(out@) == clauses_renaming(env1, items, i as nat).out,
                clauses_renaming(env1, items, n as nat).env.counter <= usize::MAX,
                env1.scopes.len() >= 1,
                forall|j: int|
                    0 <= j < n ==> env1.scopes.last().contains_key(#[trigger] items[j].name),
            decreases n - i,
        {
            let b = rest.pop().unwrap();
            proof {
                lemma_clauses(env1, items, (i + 1) as nat, n as nat);
                lemma_clauses(env1, items, 0, i as nat);
                assert(env1.scopes.last().contains_key(items[i as int].name));
            }
            let c = self.rename_clause(b);
            out.push(c);
            i += 1;
        }
        out
    }

    /// Renames one equation of a definition that is declared.
    fn rename_clause(&mut self, binding: Binding<Symbol>) -> (r: Binding<Name>)
        requires
            lookup(old(self)@.scopes, binding@.name) is Some,
            clause_renaming(old(self)@, binding@).env.counter <= usize::MAX,
        ensures
            r@ == clause_renaming(old(self)@, binding@).out,
            final(self)@ == clause_renaming(old(self)@, binding@).env,
        decreases binding@, 0nat,
    {
        let ghost env0 = self@;
        let Binding { name, arguments, expression, type_decl, arity } = binding;
        proof {
            self.lemma_depth();
            let items = patterns_view(arguments@);
            lemma_patterns(env0.enter(), items, 0, items.len());
            lemma_expr(patterns_renaming(env0.enter(), items, items.len()).env, expression@);
        }
        let n = match self.uniques.find(&name) {
            Some(found) => *found,
            None => unreached(),
        };
        self.uniques.enter_scope();
        let arguments2 = self.rename_arguments(arguments);
        let expression2 = self.rename(expression);
        self.uniques.exit_scope();
        Binding {
            name: n,
            arguments: arguments2,
            expression: expression2,
            type_decl: type_decl,
            arity: arity,
        }
    }

    /// Renames the alternatives of a case expression in order.
    fn rename_alternatives(&mut self, alternatives: Vec<Alternative<Symbol>>) -> (r: Vec<
        Alternative<Name>,
    >)
        requires
            alternatives_renaming(
                old(self)@,
                alternatives_view(alternatives@),
                alternatives@.len(),
            ).env.counter <= usize::MAX,
        ensures
            alternatives_view(r@) == alternatives_renaming(
                old(self)@,
                alternatives_view(alternatives@),
                alternatives@.len(),
            ).out,
            final(self)@ == alternatives_renaming(
                old(self)@,
                alternatives_view(alternatives@),
                alternatives@.len(),
            ).env,
        decreases alternatives_view(alternatives@), alternatives@.len(),
    {
        let ghost env0 = self@;
        let ghost items = alternatives_view(alternatives@);
        let n: usize = alternatives.len();
        let mut rest = reversed(alternatives);
        let mut out: Vec<Alternative<Name>> = Vec::new();
        let mut i: usize = 0;
        proof {
            self.lemma_depth();
        }
        while i < n
            invariant
                i <= n,
                n == items.len(),
                items == alternatives_view(alternatives@),
                rest@.len() == n - i,
                forall|k: int| 0 <= k < n - i ==> (#[trigger] rest@[k])@ == items[n - 1 - k],
                self@ == alternatives_renaming(env0, items, i as nat).env,
                alternatives_view(out@) == alternatives_renaming(env0, items, i as nat).out,
                alternatives_renaming(env0, items, n as nat).env.counter <= usize::MAX,
                env0.scopes.len() >= 1,
            decreases n - i,
        {
            let a = rest.pop().unwrap();
            proof {
                lemma_alternatives(env0, items, (i + 1) as nat, n as nat);
            }
            let b = self.rename_alternative(a);
            out.push(b);
            i += 1;
        }
        out
    }

    /// Renames one alternative of a case expression.
    fn rename_alternative(&mut self, alternative: Alternative<Symbol>) -> (r: Alternative<Name>)
        requires
            alternative_renaming(old(self)@, alternative@).env.counter <= usize::MAX,
        ensures
            r@ == alternative_renaming(old(self)@, alternative@).out,
            final(self)@ == alternative_renaming(old(self)@, alternative@).env,
        decreases alternative@, 0nat,
    {
        let ghost env0 = self@;
        let Alternative { pattern, expression } = alternative;
        let Located { location, node } = pattern;
        proof {
            self.lemma_depth();
            lemma_pattern(env0.enter(), node@);
            lemma_expr(pattern_renaming(env0.enter(), node@).env, expression@);
        }
        self.uniques.enter_scope();
        let p = self.rename_pattern(node);
        let e = self.rename(expression);
        self.uniques.exit_scope();
        Alternative { pattern: Located { location: location, node: p }, expression: e }
    }

    /// Leaves the `count` innermost scopes.
    fn leave_scopes(&mut self, count: usize)
        requires
            count < old(self)@.scopes.len(),
        ensures
            final(self)@ == old(self)@.leave_to((old(self)@.scopes.len() - count) as nat),
    {
        let ghost before = self@;
        let mut left: usize = 0;
        assert(before.scopes.take(before.scopes.len() as int) =~= before.scopes);
        while left < count
            invariant
                left <= count < before.scopes.len(),
                self@ == before.leave_to((before.scopes.len() - left) as nat),
            decreases count - left,
        {
            assert(before.scopes.take(before.scopes.len() - left).drop_last()
                =~= before.scopes.take(before.scopes.len() - left - 1));
            self.uniques.exit_scope();
            left += 1;
        }
    }

    /// Renames the statements of a `do` block in order.
    fn rename_statements(&mut self, statements: Vec<DoBinding<Symbol>>) -> (r: Vec<
        DoBinding<Name>,
    >)
        requires
            statements_renaming(
                old(self)@,
                statements_view(statements@),
                statements@.len(),
            ).env.counter <= usize::MAX,
        ensures
            statements_view(r@) == statements_renaming(
                old(self)@,
                statements_view(statements@),
                statements@.len(),
            ).out,
            final(self)@ == statements_renaming(
                old(self)@,
                statements_view(statements@),
                statements@.len(),
            ).env,
        decreases statements_view(statements@), statements@.len(),
    {
        let ghost env0 = self@;
        let ghost items = statements_view(statements@);
        let n: usize = statements.len();
        let mut rest = reversed(statements);
        let mut out: Vec<DoBinding<Name>> = Vec::new();
        let mut i: usize = 0;
        proof {
            self.lemma_depth();
        }
        while i < n
            invariant
                i <= n,
                n == items.len(),
                items == statements_view(statements@),
                rest@.len() == n - i,
                forall|k: int| 0 <= k < n - i ==> (#[trigger] rest@[k])@ == items[n - 1 - k],
                self@ == statements_renaming(env0, items, i as nat).env,
                statements_view(out@) == statements_renaming(env0, items, i as nat).out,
                statements_renaming(env0, items, n as nat).env.counter <= usize::MAX,
                env0.scopes.len() >= 1,
            decreases n - i,
        {
            let s = rest.pop().unwrap();
            proof {
                lemma_statements(env0, items, (i + 1) as nat, n as nat);
            }
            let t = self.rename_statement(s);
            out.push(t);
            i += 1;
        }
        out
    }

    /// Renames one statement of a `do` block.
    fn rename_statement(&mut self, statement: DoBinding<Symbol>) -> (r: DoBinding<Name>)
        requires
            statement_renaming(old(self)@, statement@).env.counter <= usize::MAX,
        ensures
            r@ == statement_renaming(old(self)@, statement@).out,
            final(self)@ == statement_renaming(old(self)@, statement@).env,
        decreases statement@, 0nat,
    {
        let ghost env0 = self@;
        proof {
            self.lemma_depth();
        }
        match statement {
            DoBinding::DoExpr(expr) => DoBinding::DoExpr(self.rename(expr)),
            DoBinding::DoLet(bs) => {
                self.uniques.enter_scope();
                DoBinding::DoLet(self.rename_bindings(bs, false))
            },
            DoBinding::DoBind(pattern, expr) => {
                let Located { location, node } = pattern;
                proof {
                    lemma_expr(env0, expr@);
                    lemma_pattern(expr_renaming(env0, expr@).env, node@);
                }
                let e = self.rename(expr);
                let p = self.rename_pattern(node);
                DoBinding::DoBind(Located { location: location, node: p }, e)
            },
        }
    }

    /// Renames the instances of a module in order.
    fn rename_instances(&mut self, instances: Vec<Instance<Symbol>>) -> (r: Vec<Instance<Name>>)
        requires
            instances_renaming(old(self)@, instances_view(instances@), instances@.len()).env.counter
                <= usize::MAX,
        ensures
            instances_view(r@) == instances_renaming(
                old(self)@,
                instances_view(instances@),
                instances@.len(),
            ).out,
            final(self)@ == instances_renaming(
                old(self)@,
                instances_view(instances@),
                instances@.len(),
            ).env,
    {
        let ghost env0 = self@;
        let ghost items = instances_view(instances@);
        let n: usize = instances.len();
        let mut rest = reversed(instances);
        let mut out: Vec<Instance<Name>> = Vec::new();
        let mut i: usize = 0;
        proof {
            self.lemma_depth();
        }
        while i < n
            invariant
                i <= n,
                n == items.len(),
                rest@.len() == n - i,
                forall|k: int| 0 <= k < n - i ==> (#[trigger] rest@[k])@ == items[n - 1 - k],
                self@ == instances_renaming(env0, items, i as nat).env,
                instances_view(out@) == instances_renaming(env0, items, i as nat).out,
                instances_renaming(env0, items, n as nat).env.counter <= usize::MAX,
                env0.scopes.len() >= 1,
            decreases n - i,
        {
            let instance = rest.pop().unwrap();
            proof {
                lemma_instances(env0, items, (i + 1) as nat, n as nat);
            }
            let Instance { bindings, constraints, typ, classname } = instance;
            let renamed = Instance {
                bindings: self.rename_bindings(bindings, true),
                constraints: constraints,
                typ: typ,
                classname: classname,
            };
            out.push(renamed);
            i += 1;
        }
        out
    }

    /// Renames one equation that is a global definition by itself.
    pub fn rename_binding(&mut self, binding: Binding<Symbol>) -> (r: Binding<Name>)
        requires
            binding_renaming(old(self)@, binding@).env.counter <= usize::MAX,
        ensures
            r@ == binding_renaming(old(self)@, binding@).out,
            final(self)@ == binding_renaming(old(self)@, binding@).env,
    {
        let ghost env0 = self@;
        let Binding { name, arguments, expression, type_decl, arity } = binding;
        proof {
            self.lemma_depth();
            lemma_declare(env0, name, true);
            lemma_make_unique(env0, name);
            let env1 = env0.declare(name, true);
            let items = patterns_view(arguments@);
            lemma_patterns(env1.enter(), items, 0, items.len());
            lemma_expr(patterns_renaming(env1.enter(), items, items.len()).env, expression@);
        }
        self.make_unique(name);
        match self.uniques.find_mut(&name) {
            Some(bound) => {
                bound.uid = 0;
            },
            None => {},
        }
        self.uniques.enter_scope();
        let arguments2 = self.rename_arguments(arguments);
        let expression2 = self.rename(expression);
        self.uniques.exit_scope();
        Binding {
            name: Name { name: name, uid: 0 },
            arguments: arguments2,
            expression: expression2,
            type_decl: type_decl,
            arity: arity,
        }
    }

    /// Whether the counter leaves room for `n` more declarations.
    pub fn has_room(&self, n: usize) -> (r: bool)
        ensures
            r == (self@.counter + n <= usize::MAX),
    {
        self.ids.has_room(n)
    }

    /// Whether the counter leaves room for every name that `expr` may
    /// declare. If it does, `expr` can be renamed.
    pub fn fits_expr(&self, expr: &TypedExpr<Symbol>) -> (r: bool)
        ensures
            r == (self@.counter + expr_sites(expr@) <= usize::MAX),
            r ==> expr_renaming(self@, expr@).env.counter <= usize::MAX,
    {
        proof {
            lemma_expr_sites(self@, expr@);
        }
        match count_expr(expr) {
            Some(n) => self.ids.has_room(n),
            None => false,
        }
    }

    /// Whether the counter leaves room for every name that `module` may
    /// declare. If it does, `module` can be renamed.
    pub fn fits_module(&self, module: &Module<Symbol>) -> (r: bool)
        ensures
            r == (self@.counter + module_sites(module@) <= usize::MAX),
            r ==> module_renaming(self@, module@).env.counter <= usize::MAX,
    {
        proof {
            lemma_module_sites(self@, module@);
        }
        match count_module(module) {
            Some(n) => self.ids.has_room(n),
            None => false,
        }
    }

    /// Whether anything was reported since the reports were last taken.
    pub fn has_errors(&self) -> (r: bool)
        ensures
            r == (self@.errors.len() != 0),
    {
        self.errors.has_errors()
    }

    /// Hands out the reports made so far, oldest first, and starts anew
    /// with none.
    pub fn take_errors(&mut self) -> (r: Vec<Diagnostic>)
        ensures
            r@ == old(self)@.errors,
            final(self)@ == (Env { errors: Seq::empty(), ..old(self)@ }),
    {
        self.errors.drain()
    }
}

/// The number of `let` statements in a `do` block.
fn count_lets(statements: &Vec<DoBinding<Symbol>>) -> (r: usize)
    ensures
        r == opened_frames(statements_view(statements@), statements@.len()),
{
    let ghost items = statements_view(statements@);
    let mut lets: usize = 0;
    let mut i: usize = 0;
    while i < statements.len()
        invariant
            i <= statements@.len(),
            lets <= i,
            items == statements_view(statements@),
            lets == opened_frames(items, i as nat),
        decreases statements@.len() - i,
    {
        assert(items[i as int] == statement_view(statements@[i as int]));
        match &statements[i] {
            DoBinding::DoLet(_) => {
                lets += 1;
            },
            _ => {},
        }
        i += 1;
    }
    lets
}

/// Makes the constructors of a data type global names.
fn rename_constructors(constructors: Vec<Constructor<Symbol>>) -> (r: Vec<Constructor<Name>>)
    ensures
        constructors_view(r@) == constructors_renaming(constructors_view(constructors@)),
{
    let ghost items = constructors_view(constructors@);
    let n: usize = constructors.len();
    let mut rest = reversed(constructors);
    let mut out: Vec<Constructor<Name>> = Vec::new();
    let mut i: usize = 0;
    while i < n
        invariant
            i <= n,
            n == items.len(),
            rest@.len() == n - i,
            forall|k: int| 0 <= k < n - i ==> (#[trigger] rest@[k])@ == items[n - 1 - k],
            out@.len() == i,
            forall|k: int| 0 <= k < i ==> (#[trigger] out@[k])@ == constructor_renaming(items[k]),
        decreases n - i,
    {
        let Constructor { name, typ, tag, arity } = rest.pop().unwrap();
        out.push(
            Constructor { name: Name { name: name, uid: 0 }, typ: typ, tag: tag, arity: arity },
        );
        i += 1;
    }
    out
}

/// Renames the data type definitions of a module.
fn rename_data_definitions(definitions: Vec<DataDefinition<Symbol>>) -> (r: Vec<
    DataDefinition<Name>,
>)
    ensures
        data_definitions_view(r@) == data_definitions_renaming(data_definitions_view(definitions@)),
{
    let ghost items = data_definitions_view(definitions@);
    let n: usize = definitions.len();
    let mut rest = reversed(definitions);
    let mut out: Vec<DataDefinition<Name>> = Vec::new();
    let mut i: usize = 0;
    while i < n
        invariant
            i <= n,
            n == items.len(),
            rest@.len() == n - i,
            forall|k: int| 0 <= k < n - i ==> (#[trigger] rest@[k])@ == items[n - 1 - k],
            out@.len() == i,
            forall|k: int|
                0 <= k < i ==> (#[trigger] out@[k])@ == data_definition_renaming(items[k]),
        decreases n - i,
    {
        let DataDefinition { constructors, typ, parameters } = rest.pop().unwrap();
        out.push(
            DataDefinition {
                constructors: rename_constructors(constructors),
                typ: typ,
                parameters: parameters,
            },
        );
        i += 1;
    }
    out
}

/// Renames an expression that stands alone, with a renamer of its own.
pub fn rename_expr(expr: TypedExpr<Symbol>) -> (r: TypedExpr<Name>)
    requires
        expr_renaming(Env::initial(), expr@).env.counter <= usize::MAX,
    ensures
        r@ == expr_renaming(Env::initial(), expr@).out,
{
    let mut renamer = Renamer::new();
    renamer.rename(expr)
}

/// Renames a module with a renamer of its own.
pub fn rename_module(module: Module<Symbol>) -> (r: Module<Name>)
    requires
        module_renaming(Env::initial(), module@).env.counter <= usize::MAX,
    ensures
        r@ == module_renaming(Env::initial(), module@).out,
{
    let mut renamer = Renamer::new();
    rename_module_(&mut renamer, module)
}

/// Renames a module with the renamer of the caller, which goes on from
/// the scopes, the counter and the reports that it holds.
pub fn rename_module_(renamer: &mut Renamer, module: Module<Symbol>) -> (r: Module<Name>)
    requires
        module_renaming(old(renamer)@, module@).env.counter <= usize::MAX,
    ensures
        r@ == module_renaming(old(renamer)@, module@).out,
        final(renamer)@ == module_renaming(old(renamer)@, module@).env,
{
    let ghost env0 = renamer@;
    let Module {
        name,
        imports,
        classes,
        data_definitions,
        type_declarations,
        bindings,
        instances,
    } = module;
    proof {
        renamer.lemma_depth();
        let is = instances_view(instances@);
        let bs = bindings_view(bindings@);
        lemma_instances(env0, is, 0, is.len());
        let e1 = instances_renaming(env0, is, is.len()).env;
        lemma_bindings(e1, bs, true);
        let e2 = bindings_renaming(e1, bs, true).env;
        lemma_make_unique(e2, name);
    }
    let data_definitions2 = rename_data_definitions(data_definitions);
    let instances2 = renamer.rename_instances(instances);
    let bindings2 = renamer.rename_bindings(bindings, true);
    Module {
        name: renamer.make_unique(name),
        imports: imports,
        classes: classes,
        data_definitions: data_definitions2,
        type_declarations: type_declarations,
        bindings: bindings2,
        instances: instances2,
    }
}

/// Renames the modules of a program in order, through one renamer, so
/// that no identity is minted twice in the program. If anything was
/// reported the reports are returned, and no tree.
pub fn rename_modules(modules: Vec<Module<Symbol>>) -> (r: Result<
    Vec<Module<Name>>,
    Vec<Diagnostic>,
>)
    requires
        modules_renaming(Env::initial(), modules_view(modules@), modules@.len()).env.counter
            <= usize::MAX,
    ensures
        is_batch_result(
            modules_view(modules@),
            match r {
                Ok(renamed) => Ok(modules_view(renamed@)),
                Err(reports) => Err(reports@),
            },
        ),
{
    let mut renamer = Renamer::new();
    let ghost env0 = renamer@;
    let ghost items = modules_view(modules@);
    let n: usize = modules.len();
    let mut rest = reversed(modules);
    let mut out: Vec<Module<Name>> = Vec::new();
    let mut i: usize = 0;
    while i < n
        invariant
            i <= n,
            n == items.len(),
            env0 == Env::initial(),
            rest@.len() == n - i,
            forall|k: int| 0 <= k < n - i ==> (#[trigger] rest@[k])@ == items[n - 1 - k],
            renamer@ == modules_renaming(env0, items, i as nat).env,
            modules_view(out@) == modules_renaming(env0, items, i as nat).out,
            modules_renaming(env0, items, n as nat).env.counter <= usize::MAX,
        decreases n - i,
    {
        let module = rest.pop().unwrap();
        proof {
            lemma_modules(env0, items, (i + 1) as nat, n as nat);
        }
        let renamed = rename_module_(&mut renamer, module);
        out.push(renamed);
        i += 1;
    }
    if renamer.has_errors() {
        Err(renamer.take_errors())
    } else {
        Ok(out)
    }
}

/// Renames the modules of a program as `rename_modules` does, after
/// making sure that a new renamer can mint a number for every name that
/// the program may declare. If it cannot, nothing is renamed and the
/// result is `None`.
pub fn checked_rename_modules(modules: Vec<Module<Symbol>>) -> (r: Option<
    Result<Vec<Module<Name>>, Vec<Diagnostic>>,
>)
    ensures
        r is Some <==> Env::initial().counter + modules_sites(modules_view(modules@))
            <= usize::MAX,
        r matches Some(result) ==> is_batch_result(
            modules_view(modules@),
            match result {
                Ok(renamed) => Ok(modules_view(renamed@)),
                Err(reports) => Err(reports@),
            },
        ),
{
    proof {
        let items = modules_view(modules@);
        lemma_modules_sites(Env::initial(), items, items.len());
        assert(items.take(items.len() as int) =~= items);
    }
    match count_modules(&modules) {
        Some(n) => {
            if n <= usize::MAX - 1 {
                Some(rename_modules(modules))
            } else {
                None
            }
        },
        None => None,
    }
}

} // verus!
