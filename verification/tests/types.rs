use galec::data::types::{AtomTypeKind, Type};

fn atom(kind: AtomTypeKind) -> Type {
    Type::from_atom(kind)
}

#[test]
fn types_are_equal_by_structure() {
    let a = Type::from_product(vec![atom(AtomTypeKind::UI8), atom(AtomTypeKind::Text)]);
    let b = Type::from_product(vec![atom(AtomTypeKind::UI8), atom(AtomTypeKind::Text)]);
    let shorter = Type::from_product(vec![atom(AtomTypeKind::UI8)]);
    let swapped = Type::from_product(vec![atom(AtomTypeKind::Text), atom(AtomTypeKind::UI8)]);
    assert!(a.equals(&b));
    assert!(!a.equals(&shorter));
    assert!(!a.equals(&swapped));
    assert!(!shorter.equals(&atom(AtomTypeKind::UI8)));
    assert_eq!(a, b);
}

#[test]
fn function_types_compare_both_sides() {
    let f = Type::from_function(atom(AtomTypeKind::UI8), Type::UnitType);
    let g = Type::from_function(atom(AtomTypeKind::UI8), Type::UnitType);
    let h = Type::from_function(atom(AtomTypeKind::UI8), atom(AtomTypeKind::UI8));
    let i = Type::from_function(Type::UnitType, Type::UnitType);
    assert!(f.equals(&g));
    assert!(!f.equals(&h));
    assert!(!f.equals(&i));
}

#[test]
fn array_types_compare_element_and_length() {
    let a = Type::from_array_type(atom(AtomTypeKind::I64), 3);
    assert!(a.equals(&Type::from_array_type(atom(AtomTypeKind::I64), 3)));
    assert!(!a.equals(&Type::from_array_type(atom(AtomTypeKind::I64), 4)));
    assert!(!a.equals(&Type::from_array_type(atom(AtomTypeKind::I8), 3)));
}

#[test]
fn atoms_and_names_tell_types_apart() {
    let kinds = [
        AtomTypeKind::I8,
        AtomTypeKind::I64,
        AtomTypeKind::UI8,
        AtomTypeKind::UI64,
        AtomTypeKind::Boolean,
        AtomTypeKind::Text,
    ];
    for (i, a) in kinds.iter().enumerate() {
        for (j, b) in kinds.iter().enumerate() {
            assert_eq!(a.equals(b), i == j);
            assert_eq!(atom(*a).equals(&atom(*b)), i == j);
        }
    }
    assert!(Type::from_extern_str("a").equals(&Type::from_extern_string("a".to_string())));
    assert!(!Type::from_extern_str("a").equals(&Type::from_extern_str("b")));
    assert!(Type::UnitType.equals(&Type::UnitType));
    assert!(Type::UnknownType.equals(&Type::UnknownType));
    assert!(!Type::UnitType.equals(&Type::UnknownType));
}

#[test]
fn a_clone_is_equal_to_its_original() {
    let t = Type::from_function(
        Type::from_product(vec![
            atom(AtomTypeKind::UI8),
            Type::from_array_type(Type::from_extern_str("x"), 2),
        ]),
        Type::UnitType,
    );
    let c = t.clone();
    assert!(t.equals(&c));
    assert_eq!(t, c);
}
