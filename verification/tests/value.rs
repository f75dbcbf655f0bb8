use std::sync::Arc;

use lona::chunk::Chunk;
use lona::value::{Function, Kind};

#[test]
fn function_keeps_its_parts() {
    let chunk: Arc<Chunk<i64>> = Arc::new(Chunk::with_name(String::from("square")));
    let f = Function::new(Arc::clone(&chunk), 1, Some(String::from("square")));
    assert_eq!(f.arity(), 1);
    assert_eq!(f.name(), Some("square"));
    assert_eq!(f.chunk().name(), "square");
    assert!(Arc::ptr_eq(f.chunk_arc(), &chunk));
}

#[test]
fn function_without_name() {
    let f: Function<i64> = Function::new(Arc::new(Chunk::new()), 0, None);
    assert_eq!(f.name(), None);
    assert_eq!(f.to_string(), "#<function>");
}

#[test]
fn function_display_with_name() {
    let f: Function<i64> = Function::new(Arc::new(Chunk::new()), 2, Some(String::from("add")));
    assert_eq!(f.to_string(), "#<function add>");
}

#[test]
fn function_equality_is_by_shared_code() {
    let chunk: Arc<Chunk<i64>> = Arc::new(Chunk::new());
    let f = Function::new(Arc::clone(&chunk), 0, None);
    let g = Function::new(Arc::clone(&chunk), 3, Some(String::from("other")));
    let h: Function<i64> = Function::new(Arc::new(Chunk::new()), 0, None);
    assert!(f == g);
    assert!(f == f.clone());
    assert!(f != h);
}

#[test]
fn kind_names() {
    assert_eq!(Kind::Function.name(), "function");
    assert!(Kind::Function.is_callable());
    assert!(!Kind::Integer.is_callable());
}
