use xscript::typing::{ToType, Type, TypeKind};

#[test]
fn annotation_names_map_to_types() {
    assert_eq!("int".to_type(), Some(Type::new_int()));
    assert_eq!("float".to_type(), Some(Type::new_float()));
    assert_eq!("string".to_type(), Some(Type::new_string()));
}

#[test]
fn other_names_have_no_type() {
    assert_eq!("quux".to_type(), None);
    assert_eq!("".to_type(), None);
    assert_eq!("Int".to_type(), None);
    assert_eq!("integer".to_type(), None);
}

#[test]
fn type_kinds_are_distinct() {
    assert_eq!(Type::new_int().kind, TypeKind::Int);
    assert_eq!(Type::new_float().kind, TypeKind::Float);
    assert_eq!(Type::new_string().kind, TypeKind::Str);
    assert_ne!(Type::new_int(), Type::new_float());
}
