use event_script::symbol_table::{SymbolTable, SymbolType};
use event_script::type_system::{Key, Type, TypeChecker, TypeErrors};

#[test]
fn types_compare_structurally() {
    assert_eq!(Type::new("i32", 32), Type::new("i32", 32));
    assert_ne!(Type::new("i32", 32), Type::new("i64", 64));
}

#[test]
fn keys_compare_and_order() {
    assert_eq!(Key::new("a", 1), Key::new("a", 1));
    assert_ne!(Key::new("a", 1), Key::new("a", 2));
    assert_ne!(Key::new("a", 1), Key::new("b", 1));
    assert!(Key::new("a", 1) < Key::new("b", 0));
}

#[test]
fn symbol_table_accepts_and_shadows() {
    let mut table = SymbolTable::new();
    table.insert_symbol(SymbolType::Type(Type::new("a", 8)), 2);
    table.insert_symbol(SymbolType::Type(Type::new("a", 8)), 1);
    table.insert_symbol(SymbolType::Type(Type::new("a", 8)), 3);
    let _ = format!("{table:?}");
}

#[test]
fn symbol_table_default_is_empty() {
    let table = SymbolTable::default();
    let _ = format!("{table:?}");
}

#[test]
fn checker_preloads_numeric_types() {
    let mut checker = TypeChecker::new();
    assert!(matches!(
        checker.add_type("i8", 8, 0),
        Err(TypeErrors::TypeAlreadyExists())
    ));
    assert!(matches!(
        checker.add_type("u64", 64, 0),
        Err(TypeErrors::TypeAlreadyExists())
    ));
    assert!(matches!(
        checker.add_type("f64", 64, 0),
        Err(TypeErrors::TypeAlreadyExists())
    ));
}

#[test]
fn checker_files_new_types_by_name_and_depth() {
    let mut checker = TypeChecker::new();
    assert!(checker.add_type("point", 64, 0).is_ok());
    assert!(matches!(
        checker.add_type("point", 64, 0),
        Err(TypeErrors::TypeAlreadyExists())
    ));
    // the same name at another depth is a different key
    assert!(checker.add_type("point", 64, 1).is_ok());
    // a name the built-ins use is free at a deeper level too
    assert!(checker.add_type("i8", 8, 2).is_ok());
}

#[test]
fn checker_files_variables_at_depth_zero() {
    let mut checker = TypeChecker::new();
    assert!(checker
        .add_variable("x", false, true, Some(Type::new("i32", 32)))
        .is_ok());
    assert!(matches!(
        checker.add_variable("x", true, false, None),
        Err(TypeErrors::VariableAlreadyExists())
    ));
    // a type filed under the same key also blocks a variable
    assert!(matches!(
        checker.add_variable("i8", false, true, None),
        Err(TypeErrors::VariableAlreadyExists())
    ));
}
