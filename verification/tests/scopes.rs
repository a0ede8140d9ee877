use renamer::syntax::{Binding, Expr, Literal, Location, Type, TypeDeclaration, TypedExpr};
use renamer::{binding_groups, Diagnostic, Errors, Name, ScopedMap, Symbol};

fn equation(name: usize) -> Binding<Symbol> {
    Binding {
        name: Symbol(name),
        arguments: Vec::new(),
        expression: TypedExpr {
            expr: Expr::Literal(Literal::Integral(0)),
            typ: Type::Variable(0),
            location: Location { column: 0, row: 0, absolute: 0 },
        },
        type_decl: TypeDeclaration {
            context: Vec::new(),
            typ: Type::Variable(0),
            name: Symbol(name),
        },
        arity: 0,
    }
}

#[test]
fn new_map_binds_nothing() {
    let map: ScopedMap<u32> = ScopedMap::new();
    assert_eq!(map.find(&Symbol(0)), None);
    assert!(!map.in_current_scope(&Symbol(0)));
}

#[test]
fn insert_binds_in_the_outermost_frame_of_a_new_map() {
    let mut map: ScopedMap<u32> = ScopedMap::new();
    map.insert(Symbol(7), 70);
    assert_eq!(map.find(&Symbol(7)), Some(&70));
    assert!(map.in_current_scope(&Symbol(7)));
    assert_eq!(map.find(&Symbol(8)), None);
}

#[test]
fn inner_binding_shadows_and_outer_binding_survives() {
    let mut map: ScopedMap<u32> = ScopedMap::new();
    map.insert(Symbol(1), 10);
    map.enter_scope();
    assert_eq!(map.find(&Symbol(1)), Some(&10));
    assert!(!map.in_current_scope(&Symbol(1)));
    map.insert(Symbol(1), 11);
    assert_eq!(map.find(&Symbol(1)), Some(&11));
    assert!(map.in_current_scope(&Symbol(1)));
    map.exit_scope();
    assert_eq!(map.find(&Symbol(1)), Some(&10));
    assert!(map.in_current_scope(&Symbol(1)));
}

#[test]
fn exit_scope_drops_every_binding_of_the_frame() {
    let mut map: ScopedMap<u32> = ScopedMap::new();
    map.enter_scope();
    map.insert(Symbol(1), 1);
    map.insert(Symbol(2), 2);
    map.enter_scope();
    map.insert(Symbol(3), 3);
    map.exit_scope();
    assert_eq!(map.find(&Symbol(3)), None);
    assert_eq!(map.find(&Symbol(2)), Some(&2));
    map.exit_scope();
    assert_eq!(map.find(&Symbol(1)), None);
    assert_eq!(map.find(&Symbol(2)), None);
}

#[test]
fn in_current_scope_looks_at_the_innermost_frame_only() {
    let mut map: ScopedMap<u32> = ScopedMap::new();
    map.insert(Symbol(1), 1);
    map.enter_scope();
    map.insert(Symbol(2), 2);
    map.enter_scope();
    assert!(!map.in_current_scope(&Symbol(1)));
    assert!(!map.in_current_scope(&Symbol(2)));
    assert_eq!(map.find(&Symbol(1)), Some(&1));
    assert_eq!(map.find(&Symbol(2)), Some(&2));
}

#[test]
fn find_mut_changes_the_innermost_binding_in_place() {
    let mut map: ScopedMap<Name> = ScopedMap::new();
    map.insert(Symbol(1), Name { name: Symbol(1), uid: 5 });
    map.enter_scope();
    map.insert(Symbol(1), Name { name: Symbol(1), uid: 6 });
    match map.find_mut(&Symbol(1)) {
        Some(bound) => bound.uid = 0,
        None => panic!("the symbol is bound"),
    }
    assert_eq!(map.find(&Symbol(1)), Some(&Name { name: Symbol(1), uid: 0 }));
    map.exit_scope();
    assert_eq!(map.find(&Symbol(1)), Some(&Name { name: Symbol(1), uid: 5 }));
    assert!(map.find_mut(&Symbol(2)).is_none());
}

#[test]
fn find_mut_reaches_an_outer_frame() {
    let mut map: ScopedMap<u32> = ScopedMap::new();
    map.insert(Symbol(1), 10);
    map.enter_scope();
    map.insert(Symbol(2), 20);
    *map.find_mut(&Symbol(1)).unwrap() = 12;
    assert_eq!(map.find(&Symbol(1)), Some(&12));
    assert_eq!(map.find(&Symbol(2)), Some(&20));
    map.exit_scope();
    assert_eq!(map.find(&Symbol(1)), Some(&12));
}

#[test]
fn a_second_insert_in_one_frame_wins() {
    let mut map: ScopedMap<u32> = ScopedMap::new();
    map.enter_scope();
    map.insert(Symbol(1), 1);
    map.insert(Symbol(1), 2);
    assert_eq!(map.find(&Symbol(1)), Some(&2));
    map.exit_scope();
    assert_eq!(map.find(&Symbol(1)), None);
}

#[test]
fn errors_are_kept_in_the_order_of_their_recording() {
    let mut errors: Errors<Diagnostic> = Errors::new();
    assert!(!errors.has_errors());
    errors.insert(Diagnostic::DuplicateDefinition { symbol: Symbol(2) });
    errors.insert(Diagnostic::DuplicateDefinition { symbol: Symbol(1) });
    assert!(errors.has_errors());
    assert_eq!(
        errors.drain(),
        vec![
            Diagnostic::DuplicateDefinition { symbol: Symbol(2) },
            Diagnostic::DuplicateDefinition { symbol: Symbol(1) },
        ]
    );
    assert!(!errors.has_errors());
    assert_eq!(errors.drain(), Vec::new());
}

#[test]
fn groups_are_maximal_runs_of_one_name() {
    let bindings = vec![equation(1), equation(1), equation(2), equation(1)];
    assert_eq!(binding_groups(&bindings), vec![(0, 2), (2, 3), (3, 4)]);
}

#[test]
fn no_bindings_no_groups() {
    let bindings: Vec<Binding<Symbol>> = Vec::new();
    assert_eq!(binding_groups(&bindings), Vec::new());
}

#[test]
fn one_binding_is_one_group() {
    assert_eq!(binding_groups(&vec![equation(4)]), vec![(0, 1)]);
}

#[test]
fn equal_names_throughout_are_one_group() {
    let bindings = vec![equation(3), equation(3), equation(3)];
    assert_eq!(binding_groups(&bindings), vec![(0, 3)]);
}

#[test]
fn global_names_have_number_zero() {
    assert!(Name { name: Symbol(3), uid: 0 }.is_global());
    assert!(!Name { name: Symbol(3), uid: 2 }.is_global());
}

#[test]
fn allocator_starts_at_two_and_counts_up() {
    let mut ids = renamer::IdentityAllocator::new();
    assert_eq!(ids.mint(Symbol(5)), Name { name: Symbol(5), uid: 2 });
    assert_eq!(ids.mint(Symbol(5)), Name { name: Symbol(5), uid: 3 });
    assert_eq!(ids.mint(Symbol(1)), Name { name: Symbol(1), uid: 4 });
}

#[test]
fn allocator_knows_how_much_room_is_left() {
    let mut ids = renamer::IdentityAllocator::new();
    assert!(ids.has_room(0));
    assert!(ids.has_room(usize::MAX - 1));
    assert!(!ids.has_room(usize::MAX));
    ids.mint(Symbol(0));
    assert!(ids.has_room(usize::MAX - 2));
    assert!(!ids.has_room(usize::MAX - 1));
}
