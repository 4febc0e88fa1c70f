//! Unit tests for the object model, the decimal rendering, the registry and
//! the host-function library taken on their own.

use phpvm::error::RuntimeError;
use phpvm::globals::{Function, Globals};
use phpvm::object::Object;
use phpvm::text::{i64_to_dec, u64_to_dec};
use phpvm::code::Code;

#[test]
fn decimal_rendering_of_naturals() {
    assert_eq!(u64_to_dec(0), "0");
    assert_eq!(u64_to_dec(7), "7");
    assert_eq!(u64_to_dec(10), "10");
    assert_eq!(u64_to_dec(90210), "90210");
    assert_eq!(u64_to_dec(u64::MAX), u64::MAX.to_string());
}

#[test]
fn decimal_rendering_of_integers() {
    assert_eq!(i64_to_dec(0), "0");
    assert_eq!(i64_to_dec(42), "42");
    assert_eq!(i64_to_dec(-1), "-1");
    assert_eq!(i64_to_dec(-90210), "-90210");
    assert_eq!(i64_to_dec(i64::MIN), i64::MIN.to_string());
    assert_eq!(i64_to_dec(i64::MAX), i64::MAX.to_string());
}

#[test]
fn object_shape_checks() {
    assert!(Object::String("x".to_string()).is_string());
    assert!(!Object::Integer(1).is_string());
    assert!(Object::Array(0).is_array());
    assert!(!Object::Null.is_array());
}

#[test]
fn object_from_and_to_bool() {
    assert!(matches!(Object::from_bool(true), Object::True));
    assert!(matches!(Object::from_bool(false), Object::False));
    assert_eq!(Object::True.to_bool(), Ok(true));
    assert_eq!(Object::False.to_bool(), Ok(false));
    assert_eq!(Object::Null.to_bool(), Ok(false));
    assert_eq!(Object::Integer(3).to_bool(), Ok(true));
    assert_eq!(Object::Integer(0).to_bool(), Ok(false));
    assert_eq!(Object::Integer(-3).to_bool(), Ok(false));
    assert_eq!(Object::String(String::new()).to_bool(), Ok(false));
    assert_eq!(Object::String("a".to_string()).to_bool(), Ok(true));
    assert_eq!(Object::Float(2.5f64.to_bits()).to_bool(), Ok(true));
    assert_eq!(Object::Float((-2.5f64).to_bits()).to_bool(), Ok(false));
    assert_eq!(Object::Float(0.0f64.to_bits()).to_bool(), Ok(false));
    assert_eq!(Object::Array(0).to_bool(), Err(RuntimeError::TypeMismatch));
}

#[test]
fn object_display_forms() {
    assert_eq!(Object::String("abc".to_string()).render().unwrap(), "abc");
    assert_eq!(Object::Integer(-5).render().unwrap(), "-5");
    assert_eq!(Object::True.render().unwrap(), "1");
    assert_eq!(Object::False.render().unwrap(), "");
    assert_eq!(Object::Null.render().unwrap(), "");
    assert_eq!(Object::Float(2.5f64.to_bits()).render().unwrap(), "2.5");
    assert_eq!(Object::Array(0).render(), Err(RuntimeError::TypeMismatch));
}

#[test]
fn to_hash_returns_the_handle() {
    assert_eq!(Object::Array(3).to_hash(), 3);
}

#[test]
fn registry_constants_are_last_write_wins() {
    let mut g = Globals::new();
    assert!(g.get_constant("X".to_string()).is_none());
    g.create_constant("X".to_string(), Object::Integer(1));
    g.create_constant("X".to_string(), Object::Integer(2));
    assert!(matches!(g.get_constant("X".to_string()), Some(Object::Integer(2))));
}

#[test]
fn registry_distinguishes_user_and_internal_functions() {
    let mut g = Globals::new();
    // The six host functions are pre-registered and are not user functions.
    assert!(!g.is_user_function(&"count".to_string()));
    assert!(g.get_internal_function(&"count".to_string()).is_some());
    assert!(g.get_internal_function(&"nothing".to_string()).is_none());

    g.create_user_function("f".to_string(), vec![Code::Return]);
    assert!(g.is_user_function(&"f".to_string()));
    assert!(g.get_internal_function(&"f".to_string()).is_none());
    let body = g.get_user_function("f".to_string());
    assert_eq!(body.len(), 1);
    assert!(matches!(body[0], Code::Return));
}

#[test]
fn registry_redeclaration_replaces_entry() {
    let mut g = Globals::new();
    // A user function may shadow a host function: one name, one entry.
    g.create_user_function("count".to_string(), vec![]);
    assert!(g.is_user_function(&"count".to_string()));
    assert!(g.get_internal_function(&"count".to_string()).is_none());
}

#[test]
fn function_entries_carry_their_bodies() {
    let f = Function::User(vec![Code::True, Code::Return]);
    match f {
        Function::User(code) => assert_eq!(code.len(), 2),
        Function::Internal(_) => unreachable!(),
    }
}

#[test]
fn scope_starts_empty() {
    // The compiler's per-function scope opens with no instructions.
    let _s = phpvm::compiler::Scope::new();
}

#[test]
fn table_lookup_is_last_write_wins() {
    let mut t: phpvm::table::Table<Object> = phpvm::table::Table::new();
    assert!(!t.contains(&"k".to_string()));
    assert!(t.get(&"k".to_string()).is_none());
    t.insert("k".to_string(), Object::Integer(1));
    t.insert("k".to_string(), Object::Integer(2));
    t.insert("other".to_string(), Object::True);
    assert!(t.contains(&"k".to_string()));
    assert!(matches!(t.get(&"k".to_string()), Some(Object::Integer(2))));
    assert!(matches!(t.get(&"other".to_string()), Some(Object::True)));
}

#[test]
fn internal_function_entries_keep_their_names() {
    let g = Globals::new();
    let f = g.get_internal_function(&"basename".to_string()).unwrap();
    assert_eq!(f.name, "basename");
}
