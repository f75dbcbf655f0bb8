use lona::string::HeapStr;
use std::collections::BTreeSet;

#[test]
fn new_creates_string() {
    let string = HeapStr::new("hello");
    assert_eq!(string.as_str(), "hello");
}

#[test]
fn len_returns_byte_count() {
    let string = HeapStr::new("hello");
    assert_eq!(string.len(), 5);

    let unicode = HeapStr::new("héllo");
    assert_eq!(unicode.len(), 6); // é is 2 bytes in UTF-8
}

#[test]
fn is_empty_for_empty_string() {
    let empty = HeapStr::new("");
    assert!(empty.is_empty());

    let non_empty = HeapStr::new("x");
    assert!(!non_empty.is_empty());
}

#[test]
fn clone_is_cheap() {
    let s1 = HeapStr::new("test");
    let s2 = s1.clone();
    // Both point to the same data (Rc)
    assert_eq!(s1.as_str(), s2.as_str());
    assert!(HeapStr::ptr_eq(&s1, &s2));
}

#[test]
fn display_shows_content() {
    let string = HeapStr::new("hello world");
    assert_eq!(string.to_string(), "hello world");
}

#[test]
fn debug_shows_quoted() {
    let string = HeapStr::new("hello");
    let debug_output = string.debug_text();
    assert_eq!(debug_output, "\"hello\"");
}

#[test]
fn equality_by_content() {
    let s1 = HeapStr::new("test");
    let s2 = HeapStr::new("test");
    let s3 = HeapStr::new("other");

    assert_eq!(s1, s2);
    assert_ne!(s1, s3);
}

#[test]
fn ordering_lexicographic() {
    let apple = HeapStr::new("apple");
    let banana = HeapStr::new("banana");
    let cherry = HeapStr::new("cherry");

    assert!(apple < banana);
    assert!(banana < cherry);
    assert!(apple < cherry);
}

#[test]
fn hash_consistent() {
    let s1 = HeapStr::new("test");
    let s2 = HeapStr::new("test");

    // Can be used in hash-based collections
    let mut set = BTreeSet::new();
    set.insert(s1.clone());
    assert!(set.contains(&s2));
}

#[test]
fn string_from_str_slice() {
    let string: HeapStr = "hello".into();
    assert_eq!(string.as_str(), "hello");
}

#[test]
fn from_string() {
    let owned = String::from("hello");
    let string: HeapStr = owned.into();
    assert_eq!(string.as_str(), "hello");
}

#[test]
fn as_ref_str() {
    let string = HeapStr::new("test");
    let slice: &str = string.as_ref();
    assert_eq!(slice, "test");
}

#[test]
fn empty_string() {
    let empty = HeapStr::new("");
    assert_eq!(empty.as_str(), "");
    assert_eq!(empty.len(), 0);
    assert!(empty.is_empty());
}

#[test]
fn unicode_content() {
    let unicode = HeapStr::new("日本語");
    assert_eq!(unicode.as_str(), "日本語");
    assert_eq!(unicode.len(), 9); // 3 characters × 3 bytes each
}

#[test]
fn special_characters() {
    let special = HeapStr::new("hello\nworld\ttab");
    assert_eq!(special.as_str(), "hello\nworld\ttab");
}
