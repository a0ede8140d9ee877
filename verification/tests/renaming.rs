use renamer::syntax::{
    Alternative, Binding, Class, Constraint, Constructor, DataDefinition, DoBinding, Expr, Import,
    Instance, Literal, Located, Location, Module, Pattern, Type, TypeDeclaration, TypedExpr,
};
use renamer::{
    checked_rename_modules, count_bindings, count_expr, count_module, count_modules,
    count_pattern, count_patterns, rename_expr, rename_module, rename_module_, rename_modules,
    Diagnostic, Name, Renamer, Symbol,
};

const F: Symbol = Symbol(0);
const G: Symbol = Symbol(1);
const X: Symbol = Symbol(2);
const Y: Symbol = Symbol(3);
const N: Symbol = Symbol(4);
const CONS: Symbol = Symbol(5);
const NIL: Symbol = Symbol(6);
const MAIN: Symbol = Symbol(7);
const TEST: Symbol = Symbol(8);
const M1: Symbol = Symbol(9);
const M2: Symbol = Symbol(10);
const SHOW: Symbol = Symbol(11);
const INT: Symbol = Symbol(12);

fn here() -> Location {
    Location { column: 0, row: 0, absolute: 0 }
}

fn untyped() -> Type {
    Type::Variable(0)
}

fn typed<T>(expr: Expr<T>) -> TypedExpr<T> {
    TypedExpr { expr, typ: untyped(), location: here() }
}

fn num<T>(n: i64) -> TypedExpr<T> {
    typed(Expr::Literal(Literal::Integral(n)))
}

fn var<T>(name: T) -> TypedExpr<T> {
    typed(Expr::Identifier(name))
}

fn apply<T>(function: TypedExpr<T>, argument: TypedExpr<T>) -> TypedExpr<T> {
    typed(Expr::Apply(Box::new(function), Box::new(argument)))
}

fn lambda<T>(pattern: Pattern<T>, body: TypedExpr<T>) -> TypedExpr<T> {
    typed(Expr::Lambda(pattern, Box::new(body)))
}

fn let_in<T>(bindings: Vec<Binding<T>>, body: TypedExpr<T>) -> TypedExpr<T> {
    typed(Expr::Let(bindings, Box::new(body)))
}

fn case<T>(scrutinee: TypedExpr<T>, alternatives: Vec<Alternative<T>>) -> TypedExpr<T> {
    typed(Expr::Case(Box::new(scrutinee), alternatives))
}

fn do_block<T>(statements: Vec<DoBinding<T>>, result: TypedExpr<T>) -> TypedExpr<T> {
    typed(Expr::Do(statements, Box::new(result)))
}

fn arm<T>(pattern: Pattern<T>, expression: TypedExpr<T>) -> Alternative<T> {
    Alternative { pattern: Located { location: here(), node: pattern }, expression }
}

fn bind<T>(pattern: Pattern<T>, expression: TypedExpr<T>) -> DoBinding<T> {
    DoBinding::DoBind(Located { location: here(), node: pattern }, expression)
}

fn declaration(name: Symbol) -> TypeDeclaration {
    TypeDeclaration { context: Vec::new(), typ: untyped(), name }
}

fn equation(
    name: Symbol,
    arguments: Vec<Pattern<Symbol>>,
    body: TypedExpr<Symbol>,
) -> Binding<Symbol> {
    let arity = arguments.len();
    Binding { name, arguments, expression: body, type_decl: declaration(name), arity }
}

fn renamed_equation(
    name: Name,
    arguments: Vec<Pattern<Name>>,
    body: TypedExpr<Name>,
) -> Binding<Name> {
    let arity = arguments.len();
    Binding { name, arguments, expression: body, type_decl: declaration(name.name), arity }
}

fn module(name: Symbol, bindings: Vec<Binding<Symbol>>) -> Module<Symbol> {
    Module {
        name,
        imports: Vec::new(),
        classes: Vec::new(),
        data_definitions: Vec::new(),
        type_declarations: Vec::new(),
        bindings,
        instances: Vec::new(),
    }
}

fn name(symbol: Symbol, uid: usize) -> Name {
    Name { name: symbol, uid }
}

fn duplicate(symbol: Symbol) -> Diagnostic {
    Diagnostic::DuplicateDefinition { symbol }
}

#[test]
fn first_minted_number_is_two() {
    let mut renamer = Renamer::new();
    assert_eq!(renamer.make_unique(X), name(X, 2));
    assert_eq!(renamer.make_unique(Y), name(Y, 3));
    assert!(!renamer.has_errors());
}

#[test]
fn first_binder_of_an_expression_gets_two() {
    let renamed = rename_expr(lambda(Pattern::IdentifierPattern(X), var(X)));
    assert_eq!(renamed, lambda(Pattern::IdentifierPattern(name(X, 2)), var(name(X, 2))));
}

#[test]
fn make_unique_reports_a_second_declaration_and_keeps_the_first_name() {
    let mut renamer = Renamer::new();
    let first = renamer.make_unique(X);
    let second = renamer.make_unique(X);
    assert_eq!(first, name(X, 2));
    assert_eq!(second, name(X, 2));
    assert!(renamer.has_errors());
    assert_eq!(renamer.take_errors(), vec![duplicate(X)]);
    assert!(!renamer.has_errors());
    assert_eq!(renamer.make_unique(Y), name(Y, 3));
}

#[test]
fn get_name_of_an_unbound_symbol_is_global() {
    let renamer = Renamer::new();
    assert_eq!(renamer.get_name(X), name(X, 0));
}

#[test]
fn get_name_of_a_bound_symbol_has_its_number() {
    let mut renamer = Renamer::new();
    renamer.make_unique(Y);
    renamer.make_unique(X);
    assert_eq!(renamer.get_name(X), name(X, 3));
    assert_eq!(renamer.get_name(Y), name(Y, 2));
}

#[test]
fn free_variable_falls_back_to_the_global_name() {
    assert_eq!(rename_expr(var(Y)), var(name(Y, 0)));
    let renamed = rename_expr(lambda(Pattern::IdentifierPattern(X), apply(var(X), var(Y))));
    assert_eq!(
        renamed,
        lambda(Pattern::IdentifierPattern(name(X, 2)), apply(var(name(X, 2)), var(name(Y, 0))))
    );
}

#[test]
fn literal_is_unchanged() {
    assert_eq!(rename_expr(num::<Symbol>(42)), num::<Name>(42));
    let text: TypedExpr<Symbol> = typed(Expr::Literal(Literal::String(X)));
    assert_eq!(rename_expr(text), typed(Expr::Literal(Literal::String(X))));
}

#[test]
fn annotations_are_carried_through() {
    let arrow = Type::Application(
        Box::new(Type::Constructor(INT)),
        Box::new(Type::Variable(3)),
    );
    let place = Location { column: 4, row: 5, absolute: 60 };
    let input = TypedExpr {
        expr: Expr::Apply(
            Box::new(TypedExpr {
                expr: Expr::Identifier(F),
                typ: Type::Constructor(INT),
                location: Location { column: 1, row: 2, absolute: 3 },
            }),
            Box::new(num(1)),
        ),
        typ: arrow,
        location: place,
    };
    let renamed = rename_expr(input);
    assert_eq!(
        renamed.typ,
        Type::Application(Box::new(Type::Constructor(INT)), Box::new(Type::Variable(3)))
    );
    assert_eq!(renamed.location, place);
    match renamed.expr {
        Expr::Apply(function, _) => {
            assert_eq!(function.typ, Type::Constructor(INT));
            assert_eq!(function.location, Location { column: 1, row: 2, absolute: 3 });
            assert_eq!(function.expr, Expr::Identifier(name(F, 0)));
        }
        _ => panic!("an application stays an application"),
    }
}

#[test]
fn lambda_scope_ends_with_the_lambda() {
    let input = apply(lambda(Pattern::IdentifierPattern(X), var(X)), var(X));
    let expected = apply(
        lambda(Pattern::IdentifierPattern(name(X, 2)), var(name(X, 2))),
        var(name(X, 0)),
    );
    assert_eq!(rename_expr(input), expected);
}

#[test]
fn inner_lambda_shadows_outer_lambda() {
    let input = lambda(
        Pattern::IdentifierPattern(X),
        apply(lambda(Pattern::IdentifierPattern(X), var(X)), var(X)),
    );
    let expected = lambda(
        Pattern::IdentifierPattern(name(X, 2)),
        apply(lambda(Pattern::IdentifierPattern(name(X, 3)), var(name(X, 3))), var(name(X, 2))),
    );
    assert_eq!(rename_expr(input), expected);
}

#[test]
fn application_renames_the_function_before_the_argument() {
    let input = apply(
        lambda(Pattern::IdentifierPattern(X), var(X)),
        lambda(Pattern::IdentifierPattern(Y), var(Y)),
    );
    let expected = apply(
        lambda(Pattern::IdentifierPattern(name(X, 2)), var(name(X, 2))),
        lambda(Pattern::IdentifierPattern(name(Y, 3)), var(name(Y, 3))),
    );
    assert_eq!(rename_expr(input), expected);
}

#[test]
fn constructor_pattern_is_global_and_not_declared() {
    let pattern = Pattern::ConstructorPattern(
        CONS,
        vec![Pattern::IdentifierPattern(X), Pattern::WildCardPattern, Pattern::NumberPattern(3)],
    );
    let mut renamer = Renamer::new();
    let renamed = renamer.rename_pattern(pattern);
    assert_eq!(
        renamed,
        Pattern::ConstructorPattern(
            name(CONS, 0),
            vec![
                Pattern::IdentifierPattern(name(X, 2)),
                Pattern::WildCardPattern,
                Pattern::NumberPattern(3),
            ],
        )
    );
    assert_eq!(renamer.get_name(CONS), name(CONS, 0));
    assert_eq!(renamer.get_name(X), name(X, 2));
    assert_eq!(renamer.make_unique(CONS), name(CONS, 3));
    assert!(!renamer.has_errors());
}

#[test]
fn repeated_variable_in_one_pattern_is_reported() {
    let pattern = Pattern::ConstructorPattern(
        CONS,
        vec![Pattern::IdentifierPattern(X), Pattern::IdentifierPattern(X)],
    );
    let mut renamer = Renamer::new();
    let renamed = renamer.rename_pattern(pattern);
    assert_eq!(
        renamed,
        Pattern::ConstructorPattern(
            name(CONS, 0),
            vec![Pattern::IdentifierPattern(name(X, 2)), Pattern::IdentifierPattern(name(X, 2))],
        )
    );
    assert_eq!(renamer.take_errors(), vec![duplicate(X)]);
}

#[test]
fn rename_arguments_goes_from_left_to_right() {
    let mut renamer = Renamer::new();
    let renamed = renamer.rename_arguments(vec![
        Pattern::IdentifierPattern(Y),
        Pattern::ConstructorPattern(NIL, Vec::new()),
        Pattern::IdentifierPattern(X),
    ]);
    assert_eq!(
        renamed,
        vec![
            Pattern::IdentifierPattern(name(Y, 2)),
            Pattern::ConstructorPattern(name(NIL, 0), Vec::new()),
            Pattern::IdentifierPattern(name(X, 3)),
        ]
    );
    assert!(renamer.rename_arguments(Vec::new()).is_empty());
}

#[test]
fn shadowing_is_legal() {
    // f x = let x = 1 in x
    let f = equation(
        F,
        vec![Pattern::IdentifierPattern(X)],
        let_in(vec![equation(X, Vec::new(), num(1))], var(X)),
    );
    let renamed = rename_modules(vec![module(M1, vec![f])]).unwrap();
    let expected = renamed_equation(
        name(F, 0),
        vec![Pattern::IdentifierPattern(name(X, 3))],
        let_in(vec![renamed_equation(name(X, 4), Vec::new(), num(1))], var(name(X, 4))),
    );
    assert_eq!(renamed.len(), 1);
    assert_eq!(renamed[0].bindings, vec![expected]);
    assert_eq!(renamed[0].name, name(M1, 5));
}

#[test]
fn duplicate_definition_does_not_stop_the_pass() {
    // main = 1; test = []; main = 2
    let bindings = vec![
        equation(MAIN, Vec::new(), num(1)),
        equation(TEST, Vec::new(), var(NIL)),
        equation(MAIN, Vec::new(), num(2)),
    ];
    let mut renamer = Renamer::new();
    let renamed = rename_module_(&mut renamer, module(M1, bindings));
    assert_eq!(
        renamed.bindings,
        vec![
            renamed_equation(name(MAIN, 0), Vec::new(), num(1)),
            renamed_equation(name(TEST, 0), Vec::new(), var(name(NIL, 0))),
            renamed_equation(name(MAIN, 0), Vec::new(), num(2)),
        ]
    );
    assert_eq!(renamer.take_errors(), vec![duplicate(MAIN)]);
}

#[test]
fn duplicate_definition_fails_the_batch() {
    let bindings = vec![
        equation(MAIN, Vec::new(), num(1)),
        equation(TEST, Vec::new(), var(NIL)),
        equation(MAIN, Vec::new(), num(2)),
    ];
    assert_eq!(rename_modules(vec![module(M1, bindings)]), Err(vec![duplicate(MAIN)]));
}

#[test]
fn every_duplicate_is_reported_in_order() {
    let bindings = vec![
        equation(F, Vec::new(), num(1)),
        equation(G, Vec::new(), num(2)),
        equation(F, Vec::new(), num(3)),
        equation(G, Vec::new(), num(4)),
        equation(F, Vec::new(), num(5)),
    ];
    assert_eq!(
        rename_modules(vec![module(M1, bindings)]),
        Err(vec![duplicate(F), duplicate(G), duplicate(F)])
    );
}

#[test]
fn empty_program_is_renamed_to_itself() {
    assert_eq!(rename_modules(Vec::new()), Ok(Vec::new()));
}

#[test]
fn equations_of_one_definition_share_one_name() {
    // let f 0 = 1; f n = n in f
    let input = let_in(
        vec![
            equation(F, vec![Pattern::NumberPattern(0)], num(1)),
            equation(F, vec![Pattern::IdentifierPattern(N)], var(N)),
        ],
        var(F),
    );
    let expected = let_in(
        vec![
            renamed_equation(name(F, 2), vec![Pattern::NumberPattern(0)], num(1)),
            renamed_equation(
                name(F, 2),
                vec![Pattern::IdentifierPattern(name(N, 3))],
                var(name(N, 3)),
            ),
        ],
        var(name(F, 2)),
    );
    assert_eq!(rename_expr(input), expected);
}

#[test]
fn equations_have_argument_scopes_of_their_own() {
    // let f n = n; f m = n in n: the second equation and the body do not see the first `n`
    let input = let_in(
        vec![
            equation(F, vec![Pattern::IdentifierPattern(N)], var(N)),
            equation(F, vec![Pattern::IdentifierPattern(X)], var(N)),
        ],
        var(N),
    );
    let expected = let_in(
        vec![
            renamed_equation(
                name(F, 2),
                vec![Pattern::IdentifierPattern(name(N, 3))],
                var(name(N, 3)),
            ),
            renamed_equation(
                name(F, 2),
                vec![Pattern::IdentifierPattern(name(X, 4))],
                var(name(N, 0)),
            ),
        ],
        var(name(N, 0)),
    );
    assert_eq!(rename_expr(input), expected);
}

#[test]
fn same_names_in_two_equations_are_no_duplicates() {
    // f x = x; f x = x at top level
    let bindings = vec![
        equation(F, vec![Pattern::IdentifierPattern(X)], var(X)),
        equation(F, vec![Pattern::IdentifierPattern(X)], var(X)),
    ];
    let renamed = rename_modules(vec![module(M1, bindings)]).unwrap();
    assert_eq!(
        renamed[0].bindings,
        vec![
            renamed_equation(
                name(F, 0),
                vec![Pattern::IdentifierPattern(name(X, 3))],
                var(name(X, 3)),
            ),
            renamed_equation(
                name(F, 0),
                vec![Pattern::IdentifierPattern(name(X, 4))],
                var(name(X, 4)),
            ),
        ]
    );
}

#[test]
fn repeated_argument_is_reported() {
    // f x x = x
    let bindings =
        vec![equation(
            F,
            vec![Pattern::IdentifierPattern(X), Pattern::IdentifierPattern(X)],
            var(X),
        )];
    assert_eq!(rename_modules(vec![module(M1, bindings)]), Err(vec![duplicate(X)]));
}

#[test]
fn let_bindings_see_each_other() {
    // let f = g; g = f in f
    let input = let_in(
        vec![equation(F, Vec::new(), var(G)), equation(G, Vec::new(), var(F))],
        var(F),
    );
    let expected = let_in(
        vec![
            renamed_equation(name(F, 2), Vec::new(), var(name(G, 3))),
            renamed_equation(name(G, 3), Vec::new(), var(name(F, 2))),
        ],
        var(name(F, 2)),
    );
    assert_eq!(rename_expr(input), expected);
}

#[test]
fn separated_equations_of_one_name_in_a_let_are_reported() {
    // let f = 1; g = 2; f = 3 in f
    let mut renamer = Renamer::new();
    let renamed = renamer.rename(let_in(
        vec![
            equation(F, Vec::new(), num(1)),
            equation(G, Vec::new(), num(2)),
            equation(F, Vec::new(), num(3)),
        ],
        var(F),
    ));
    let expected = let_in(
        vec![
            renamed_equation(name(F, 2), Vec::new(), num(1)),
            renamed_equation(name(G, 3), Vec::new(), num(2)),
            renamed_equation(name(F, 2), Vec::new(), num(3)),
        ],
        var(name(F, 2)),
    );
    assert_eq!(renamed, expected);
    assert_eq!(renamer.take_errors(), vec![duplicate(F)]);
}

#[test]
fn rename_bindings_global_gives_number_zero() {
    let mut renamer = Renamer::new();
    let renamed = renamer.rename_bindings(
        vec![
            equation(F, vec![Pattern::IdentifierPattern(X)], apply(var(G), var(X))),
            equation(G, Vec::new(), var(F)),
        ],
        true,
    );
    assert_eq!(
        renamed,
        vec![
            renamed_equation(
                name(F, 0),
                vec![Pattern::IdentifierPattern(name(X, 4))],
                apply(var(name(G, 0)), var(name(X, 4))),
            ),
            renamed_equation(name(G, 0), Vec::new(), var(name(F, 0))),
        ]
    );
    assert_eq!(renamer.get_name(F), name(F, 0));
    assert_eq!(renamer.make_unique(X), name(X, 5));
}

#[test]
fn rename_bindings_local_gives_fresh_numbers() {
    let mut renamer = Renamer::new();
    let renamed = renamer.rename_bindings(
        vec![equation(F, Vec::new(), var(G)), equation(G, Vec::new(), num(1))],
        false,
    );
    assert_eq!(
        renamed,
        vec![
            renamed_equation(name(F, 2), Vec::new(), var(name(G, 3))),
            renamed_equation(name(G, 3), Vec::new(), num(1)),
        ]
    );
    assert!(renamer.rename_bindings(Vec::new(), false).is_empty());
}

#[test]
fn case_alternatives_do_not_see_each_other() {
    // case y of { Cons x n -> x; Nil -> x }
    let input = case(
        var(Y),
        vec![
            arm(
                Pattern::ConstructorPattern(
                    CONS,
                    vec![Pattern::IdentifierPattern(X), Pattern::IdentifierPattern(N)],
                ),
                var(X),
            ),
            arm(Pattern::ConstructorPattern(NIL, Vec::new()), var(X)),
        ],
    );
    let expected = case(
        var(name(Y, 0)),
        vec![
            arm(
                Pattern::ConstructorPattern(
                    name(CONS, 0),
                    vec![
                        Pattern::IdentifierPattern(name(X, 2)),
                        Pattern::IdentifierPattern(name(N, 3)),
                    ],
                ),
                var(name(X, 2)),
            ),
            arm(Pattern::ConstructorPattern(name(NIL, 0), Vec::new()), var(name(X, 0))),
        ],
    );
    assert_eq!(rename_expr(input), expected);
}

#[test]
fn case_scrutinee_is_outside_the_alternatives() {
    // \x -> case x of { x -> x; y -> x }
    let input = lambda(
        Pattern::IdentifierPattern(X),
        case(
            var(X),
            vec![
                arm(Pattern::IdentifierPattern(X), var(X)),
                arm(Pattern::IdentifierPattern(Y), var(X)),
            ],
        ),
    );
    let expected = lambda(
        Pattern::IdentifierPattern(name(X, 2)),
        case(
            var(name(X, 2)),
            vec![
                arm(Pattern::IdentifierPattern(name(X, 3)), var(name(X, 3))),
                arm(Pattern::IdentifierPattern(name(Y, 4)), var(name(X, 2))),
            ],
        ),
    );
    assert_eq!(rename_expr(input), expected);
}

#[test]
fn case_scrutinee_is_numbered_before_the_alternatives() {
    // case (\y -> y) of { x -> x }
    let input = case(
        lambda(Pattern::IdentifierPattern(Y), var(Y)),
        vec![arm(Pattern::IdentifierPattern(X), var(X))],
    );
    let expected = case(
        lambda(Pattern::IdentifierPattern(name(Y, 2)), var(name(Y, 2))),
        vec![arm(Pattern::IdentifierPattern(name(X, 3)), var(name(X, 3)))],
    );
    assert_eq!(rename_expr(input), expected);
}

#[test]
fn do_bind_renames_its_expression_before_its_pattern() {
    // do { x <- x; x }
    let input = do_block(vec![bind(Pattern::IdentifierPattern(X), var(X))], var(X));
    let expected = do_block(
        vec![bind(Pattern::IdentifierPattern(name(X, 2)), var(name(X, 0)))],
        var(name(X, 2)),
    );
    assert_eq!(rename_expr(input), expected);
}

#[test]
fn do_statements_see_what_earlier_statements_introduce() {
    // do { x <- f; let y = x; g y; y }
    let input = do_block(
        vec![
            bind(Pattern::IdentifierPattern(X), var(F)),
            DoBinding::DoLet(vec![equation(Y, Vec::new(), var(X))]),
            DoBinding::DoExpr(apply(var(G), var(Y))),
        ],
        var(Y),
    );
    let expected = do_block(
        vec![
            bind(Pattern::IdentifierPattern(name(X, 2)), var(name(F, 0))),
            DoBinding::DoLet(vec![renamed_equation(name(Y, 3), Vec::new(), var(name(X, 2)))]),
            DoBinding::DoExpr(apply(var(name(G, 0)), var(name(Y, 3)))),
        ],
        var(name(Y, 3)),
    );
    assert_eq!(rename_expr(input), expected);
}

#[test]
fn do_let_opens_a_frame_for_the_rest_of_the_block() {
    // \y -> do { x <- y; let x = 1; x }: the `let` shadows the variable of the bind
    let mut renamer = Renamer::new();
    let renamed = renamer.rename(lambda(
        Pattern::IdentifierPattern(Y),
        do_block(
            vec![
                bind(Pattern::IdentifierPattern(X), var(Y)),
                DoBinding::DoLet(vec![equation(X, Vec::new(), num(1))]),
            ],
            var(X),
        ),
    ));
    let expected = lambda(
        Pattern::IdentifierPattern(name(Y, 2)),
        do_block(
            vec![
                bind(Pattern::IdentifierPattern(name(X, 3)), var(name(Y, 2))),
                DoBinding::DoLet(vec![renamed_equation(name(X, 4), Vec::new(), num(1))]),
            ],
            var(name(X, 4)),
        ),
    );
    assert_eq!(renamed, expected);
    assert!(!renamer.has_errors());
    assert_eq!(renamer.get_name(X), name(X, 0));
}

#[test]
fn do_let_after_do_let_shadows() {
    // do { let x = 1; let x = x; x }
    let input = do_block(
        vec![
            DoBinding::DoLet(vec![equation(X, Vec::new(), num(1))]),
            DoBinding::DoLet(vec![equation(X, Vec::new(), var(X))]),
        ],
        var(X),
    );
    let expected = do_block(
        vec![
            DoBinding::DoLet(vec![renamed_equation(name(X, 2), Vec::new(), num(1))]),
            DoBinding::DoLet(vec![renamed_equation(name(X, 3), Vec::new(), var(name(X, 3)))]),
        ],
        var(name(X, 3)),
    );
    let mut renamer = Renamer::new();
    assert_eq!(renamer.rename(input), expected);
    assert!(!renamer.has_errors());
}

#[test]
fn frames_of_do_lets_are_left_at_the_end_of_the_block() {
    // (do { let x = 1; let y = x; y }) x y
    let block = do_block(
        vec![
            DoBinding::DoLet(vec![equation(X, Vec::new(), num(1))]),
            DoBinding::DoLet(vec![equation(Y, Vec::new(), var(X))]),
        ],
        var(Y),
    );
    let renamed_block = do_block(
        vec![
            DoBinding::DoLet(vec![renamed_equation(name(X, 2), Vec::new(), num(1))]),
            DoBinding::DoLet(vec![renamed_equation(name(Y, 3), Vec::new(), var(name(X, 2)))]),
        ],
        var(name(Y, 3)),
    );
    let mut renamer = Renamer::new();
    let renamed = renamer.rename(apply(apply(block, var(X)), var(Y)));
    assert_eq!(renamed, apply(apply(renamed_block, var(name(X, 0))), var(name(Y, 0))));
    assert_eq!(renamer.make_unique(X), name(X, 4));
    assert!(!renamer.has_errors());
}

#[test]
fn two_binds_of_one_variable_in_one_frame_are_reported() {
    // do { x <- f; x <- g; x }
    let mut renamer = Renamer::new();
    let renamed = renamer.rename(do_block(
        vec![
            bind(Pattern::IdentifierPattern(X), var(F)),
            bind(Pattern::IdentifierPattern(X), var(G)),
        ],
        var(X),
    ));
    let expected = do_block(
        vec![
            bind(Pattern::IdentifierPattern(name(X, 2)), var(name(F, 0))),
            bind(Pattern::IdentifierPattern(name(X, 2)), var(name(G, 0))),
        ],
        var(name(X, 2)),
    );
    assert_eq!(renamed, expected);
    assert_eq!(renamer.take_errors(), vec![duplicate(X)]);
}

#[test]
fn do_bind_declares_in_the_frame_in_which_the_block_stands() {
    // \y -> (do { x <- y; x }) x: the variable of the bind stays in the frame of the lambda
    let input = lambda(
        Pattern::IdentifierPattern(Y),
        apply(do_block(vec![bind(Pattern::IdentifierPattern(X), var(Y))], var(X)), var(X)),
    );
    let expected = lambda(
        Pattern::IdentifierPattern(name(Y, 2)),
        apply(
            do_block(
                vec![bind(Pattern::IdentifierPattern(name(X, 3)), var(name(Y, 2)))],
                var(name(X, 3)),
            ),
            var(name(X, 3)),
        ),
    );
    assert_eq!(rename_expr(input), expected);
}

#[test]
fn separated_equations_of_one_name_in_a_do_let_are_reported() {
    // do { let { f = 1; g = 2; f = 3 }; f }
    let mut renamer = Renamer::new();
    let renamed = renamer.rename(do_block(
        vec![DoBinding::DoLet(vec![
            equation(F, Vec::new(), num(1)),
            equation(G, Vec::new(), num(2)),
            equation(F, Vec::new(), num(3)),
        ])],
        var(F),
    ));
    let expected = do_block(
        vec![DoBinding::DoLet(vec![
            renamed_equation(name(F, 2), Vec::new(), num(1)),
            renamed_equation(name(G, 3), Vec::new(), num(2)),
            renamed_equation(name(F, 2), Vec::new(), num(3)),
        ])],
        var(name(F, 2)),
    );
    assert_eq!(renamed, expected);
    assert_eq!(renamer.take_errors(), vec![duplicate(F)]);
}

#[test]
fn local_numbers_are_pairwise_distinct() {
    // \x -> let f y = case y of { Cons x n -> do { y <- n; f y } } in f x
    let input = lambda(
        Pattern::IdentifierPattern(X),
        let_in(
            vec![equation(
                F,
                vec![Pattern::IdentifierPattern(Y)],
                case(
                    var(Y),
                    vec![arm(
                        Pattern::ConstructorPattern(
                            CONS,
                            vec![Pattern::IdentifierPattern(X), Pattern::IdentifierPattern(N)],
                        ),
                        do_block(
                            vec![bind(Pattern::IdentifierPattern(Y), var(N))],
                            apply(var(F), var(Y)),
                        ),
                    )],
                ),
            )],
            apply(var(F), var(X)),
        ),
    );
    let expected = lambda(
        Pattern::IdentifierPattern(name(X, 2)),
        let_in(
            vec![renamed_equation(
                name(F, 3),
                vec![Pattern::IdentifierPattern(name(Y, 4))],
                case(
                    var(name(Y, 4)),
                    vec![arm(
                        Pattern::ConstructorPattern(
                            name(CONS, 0),
                            vec![
                                Pattern::IdentifierPattern(name(X, 5)),
                                Pattern::IdentifierPattern(name(N, 6)),
                            ],
                        ),
                        do_block(
                            vec![bind(Pattern::IdentifierPattern(name(Y, 7)), var(name(N, 6)))],
                            apply(var(name(F, 3)), var(name(Y, 7))),
                        ),
                    )],
                ),
            )],
            apply(var(name(F, 3)), var(name(X, 2))),
        ),
    );
    assert_eq!(rename_expr(input), expected);
}

#[test]
fn module_gives_global_names_to_bindings_instances_and_constructors() {
    let input = Module {
        name: M1,
        imports: vec![Import { module: M2 }],
        classes: vec![Class {
            constraints: Vec::new(),
            name: SHOW,
            variable: 0,
            declarations: vec![declaration(F)],
        }],
        data_definitions: vec![DataDefinition {
            constructors: vec![
                Constructor { name: CONS, typ: untyped(), tag: 0, arity: 2 },
                Constructor { name: NIL, typ: untyped(), tag: 1, arity: 0 },
            ],
            typ: Type::Constructor(INT),
            parameters: vec![X],
        }],
        type_declarations: vec![declaration(MAIN)],
        bindings: vec![equation(MAIN, Vec::new(), apply(var(F), var(NIL)))],
        instances: vec![Instance {
            bindings: vec![equation(F, vec![Pattern::IdentifierPattern(X)], var(X))],
            constraints: vec![Constraint { class: SHOW, variables: vec![0] }],
            typ: Type::Constructor(INT),
            classname: SHOW,
        }],
    };
    let expected = Module {
        name: name(M1, 5),
        imports: vec![Import { module: M2 }],
        classes: vec![Class {
            constraints: Vec::new(),
            name: SHOW,
            variable: 0,
            declarations: vec![declaration(F)],
        }],
        data_definitions: vec![DataDefinition {
            constructors: vec![
                Constructor { name: name(CONS, 0), typ: untyped(), tag: 0, arity: 2 },
                Constructor { name: name(NIL, 0), typ: untyped(), tag: 1, arity: 0 },
            ],
            typ: Type::Constructor(INT),
            parameters: vec![X],
        }],
        type_declarations: vec![declaration(MAIN)],
        bindings: vec![renamed_equation(
            name(MAIN, 0),
            Vec::new(),
            apply(var(name(F, 0)), var(name(NIL, 0))),
        )],
        instances: vec![Instance {
            bindings: vec![renamed_equation(
                name(F, 0),
                vec![Pattern::IdentifierPattern(name(X, 3))],
                var(name(X, 3)),
            )],
            constraints: vec![Constraint { class: SHOW, variables: vec![0] }],
            typ: Type::Constructor(INT),
            classname: SHOW,
        }],
    };
    assert_eq!(rename_module(input), expected);
}

#[test]
fn data_constructors_are_not_checked_for_duplicates() {
    let mut input = module(M1, Vec::new());
    input.data_definitions = vec![DataDefinition {
        constructors: vec![
            Constructor { name: NIL, typ: untyped(), tag: 0, arity: 0 },
            Constructor { name: NIL, typ: untyped(), tag: 1, arity: 0 },
        ],
        typ: untyped(),
        parameters: Vec::new(),
    }];
    let renamed = rename_modules(vec![input]).unwrap();
    assert_eq!(renamed[0].data_definitions[0].constructors[0].name, name(NIL, 0));
    assert_eq!(renamed[0].data_definitions[0].constructors[1].name, name(NIL, 0));
    assert_eq!(renamed[0].data_definitions[0].constructors[1].tag, 1);
}

#[test]
fn module_name_keeps_the_number_it_is_given() {
    let renamed = rename_module(module(M1, Vec::new()));
    assert_eq!(renamed.name, name(M1, 2));
}

#[test]
fn one_renamer_numbers_across_modules() {
    let first = module(M1, vec![equation(F, vec![Pattern::IdentifierPattern(X)], var(X))]);
    let second = module(
        M2,
        vec![equation(G, vec![Pattern::IdentifierPattern(X)], apply(var(F), var(X)))],
    );
    let renamed = rename_modules(vec![first, second]).unwrap();
    assert_eq!(renamed.len(), 2);
    assert_eq!(renamed[0].name, name(M1, 4));
    assert_eq!(
        renamed[0].bindings,
        vec![renamed_equation(
            name(F, 0),
            vec![Pattern::IdentifierPattern(name(X, 3))],
            var(name(X, 3)),
        )]
    );
    assert_eq!(renamed[1].name, name(M2, 7));
    assert_eq!(
        renamed[1].bindings,
        vec![renamed_equation(
            name(G, 0),
            vec![Pattern::IdentifierPattern(name(X, 6))],
            apply(var(name(F, 0)), var(name(X, 6))),
        )]
    );
}

#[test]
fn top_level_names_stay_declared_for_later_modules() {
    let first = module(M1, vec![equation(MAIN, Vec::new(), num(1))]);
    let second = module(M2, vec![equation(MAIN, Vec::new(), num(2))]);
    assert_eq!(rename_modules(vec![first, second]), Err(vec![duplicate(MAIN)]));
}

#[test]
fn rename_module_with_a_renamer_goes_on_from_its_state() {
    let mut renamer = Renamer::new();
    let first = rename_module_(&mut renamer, module(M1, Vec::new()));
    let second = rename_module_(&mut renamer, module(M2, Vec::new()));
    let third = rename_module_(&mut renamer, module(M1, Vec::new()));
    assert_eq!(first.name, name(M1, 2));
    assert_eq!(second.name, name(M2, 3));
    assert_eq!(third.name, name(M1, 2));
    assert_eq!(renamer.take_errors(), vec![duplicate(M1)]);
}

#[test]
fn instance_methods_share_the_scope_of_top_level_bindings() {
    let mut input = module(M1, vec![equation(F, Vec::new(), num(1))]);
    input.instances = vec![Instance {
        bindings: vec![equation(F, Vec::new(), num(2))],
        constraints: Vec::new(),
        typ: untyped(),
        classname: SHOW,
    }];
    assert_eq!(rename_modules(vec![input]), Err(vec![duplicate(F)]));
}

#[test]
fn rename_binding_declares_a_global_definition() {
    // f x = g x
    let mut renamer = Renamer::new();
    let renamed = renamer.rename_binding(equation(
        F,
        vec![Pattern::IdentifierPattern(X)],
        apply(var(G), var(X)),
    ));
    assert_eq!(
        renamed,
        renamed_equation(
            name(F, 0),
            vec![Pattern::IdentifierPattern(name(X, 3))],
            apply(var(name(G, 0)), var(name(X, 3))),
        )
    );
    assert_eq!(renamer.get_name(F), name(F, 0));
    assert_eq!(renamer.get_name(X), name(X, 0));
    assert_eq!(renamer.make_unique(Y), name(Y, 4));
    assert!(!renamer.has_errors());
}

#[test]
fn rename_binding_reports_a_second_definition() {
    let mut renamer = Renamer::new();
    renamer.rename_binding(equation(F, Vec::new(), num(1)));
    let second = renamer.rename_binding(equation(F, Vec::new(), num(2)));
    assert_eq!(second, renamed_equation(name(F, 0), Vec::new(), num(2)));
    assert_eq!(renamer.take_errors(), vec![duplicate(F)]);
}

#[test]
fn declaring_places_are_counted() {
    let pattern = Pattern::ConstructorPattern(
        CONS,
        vec![Pattern::IdentifierPattern(X), Pattern::WildCardPattern, Pattern::NumberPattern(3)],
    );
    assert_eq!(count_pattern(&pattern), Some(1));
    assert_eq!(count_pattern(&Pattern::WildCardPattern::<Symbol>), Some(0));
    assert_eq!(
        count_patterns(&vec![
            Pattern::IdentifierPattern(X),
            Pattern::ConstructorPattern(CONS, vec![Pattern::IdentifierPattern(Y)]),
        ]),
        Some(2)
    );
    assert_eq!(count_patterns(&Vec::new()), Some(0));
    assert_eq!(count_expr(&var(X)), Some(0));
    // \x -> let f y = y; f n = n in case x of { Cons x n -> do { y <- n; f y } }
    let expr = lambda(
        Pattern::IdentifierPattern(X),
        let_in(
            vec![
                equation(F, vec![Pattern::IdentifierPattern(Y)], var(Y)),
                equation(F, vec![Pattern::IdentifierPattern(N)], var(N)),
            ],
            case(
                var(X),
                vec![arm(
                    Pattern::ConstructorPattern(
                        CONS,
                        vec![Pattern::IdentifierPattern(X), Pattern::IdentifierPattern(N)],
                    ),
                    do_block(
                        vec![bind(Pattern::IdentifierPattern(Y), var(N))],
                        apply(var(F), var(Y)),
                    ),
                )],
            ),
        ),
    );
    assert_eq!(count_expr(&expr), Some(8));
    assert_eq!(
        count_bindings(&vec![
            equation(F, vec![Pattern::IdentifierPattern(Y)], var(Y)),
            equation(G, Vec::new(), num(1)),
        ]),
        Some(3)
    );
}

#[test]
fn declaring_places_of_modules_are_counted() {
    let mut first = module(M1, vec![equation(F, vec![Pattern::IdentifierPattern(X)], var(X))]);
    first.instances = vec![Instance {
        bindings: vec![equation(G, Vec::new(), num(2))],
        constraints: Vec::new(),
        typ: untyped(),
        classname: SHOW,
    }];
    assert_eq!(count_module(&first), Some(4));
    assert_eq!(count_module(&module(M2, Vec::new())), Some(1));
    assert_eq!(count_modules(&vec![first, module(M2, Vec::new())]), Some(5));
    assert_eq!(count_modules(&Vec::new()), Some(0));
}

#[test]
fn a_new_renamer_has_room_for_a_small_tree() {
    let renamer = Renamer::new();
    assert!(renamer.has_room(3));
    assert!(renamer.has_room(usize::MAX - 1));
    assert!(!renamer.has_room(usize::MAX));
    assert!(renamer.fits_expr(&lambda(Pattern::IdentifierPattern(X), var(X))));
    assert!(renamer.fits_module(&module(M1, vec![equation(F, Vec::new(), num(1))])));
}

#[test]
fn checked_batch_is_the_batch() {
    let program = || {
        vec![
            module(M1, vec![equation(F, vec![Pattern::IdentifierPattern(X)], var(X))]),
            module(M2, vec![equation(G, Vec::new(), var(F))]),
        ]
    };
    assert_eq!(checked_rename_modules(program()), Some(rename_modules(program())));
    let faulty = || {
        vec![module(
            M1,
            vec![
                equation(MAIN, Vec::new(), num(1)),
                equation(TEST, Vec::new(), var(NIL)),
                equation(MAIN, Vec::new(), num(2)),
            ],
        )]
    };
    assert_eq!(checked_rename_modules(faulty()), Some(Err(vec![duplicate(MAIN)])));
}
