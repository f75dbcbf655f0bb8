use lona::source::{Entry, Id, Location, Registry};
use lona::span::Span;

#[test]
fn id_new_and_index() {
    let id = Id::new(42_u32);
    assert_eq!(id.index(), 42_u32);
}

#[test]
fn id_equality() {
    let id1 = Id::new(5_u32);
    let id2 = Id::new(5_u32);
    let id3 = Id::new(10_u32);
    assert_eq!(id1, id2);
    assert_ne!(id1, id3);
}

#[test]
fn location_new() {
    let source_id = Id::new(1_u32);
    let span = Span::new(10_usize, 20_usize);
    let location = Location::new(source_id, span);
    assert_eq!(location.source, source_id);
    assert_eq!(location.span, span);
}

#[test]
fn entry_new() {
    let source = Entry::new("<repl>".to_string(), "(+ 1 2)".to_string());
    assert_eq!(source.name, "<repl>");
    assert_eq!(source.content, "(+ 1 2)");
}

#[test]
fn registry_add_and_get() {
    let mut registry = Registry::new();
    let id1 = registry
        .add("<repl>".to_string(), "(+ 1 2)".to_string())
        .expect("should succeed");
    let id2 = registry
        .add("main.lona".to_string(), "(defn main [] nil)".to_string())
        .expect("should succeed");

    assert_ne!(id1, id2);

    let source1 = registry.get(id1).expect("source1 should exist");
    assert_eq!(source1.name, "<repl>");
    assert_eq!(source1.content, "(+ 1 2)");

    let source2 = registry.get(id2).expect("source2 should exist");
    assert_eq!(source2.name, "main.lona");
    assert_eq!(source2.content, "(defn main [] nil)");
}

#[test]
fn registry_get_invalid_id() {
    let registry = Registry::new();
    let invalid_id = Id::new(999_u32);
    assert!(registry.get(invalid_id).is_none());
}

#[test]
fn registry_len_and_is_empty() {
    let mut registry = Registry::new();
    assert!(registry.is_empty());
    assert_eq!(registry.len(), 0_usize);

    registry
        .add("<repl>".to_string(), "(+ 1 2)".to_string())
        .expect("should succeed");
    assert!(!registry.is_empty());
    assert_eq!(registry.len(), 1_usize);

    registry
        .add("<repl:2>".to_string(), "(* 3 4)".to_string())
        .expect("should succeed");
    assert_eq!(registry.len(), 2_usize);
}

#[test]
fn registry_default() {
    let registry = Registry::default();
    assert!(registry.is_empty());
}

#[test]
fn line_col_first_character() {
    let entry = Entry::new("test".to_string(), "abc\ndef".to_string());
    assert_eq!(entry.line_col(0_usize), (1_u32, 1_u32));
}

#[test]
fn line_col_same_line() {
    let entry = Entry::new("test".to_string(), "abc\ndef".to_string());
    assert_eq!(entry.line_col(1_usize), (1_u32, 2_u32)); // 'b'
    assert_eq!(entry.line_col(2_usize), (1_u32, 3_u32)); // 'c'
}

#[test]
fn line_col_newline_char() {
    let entry = Entry::new("test".to_string(), "abc\ndef".to_string());
    // The newline at index 3 is at line 1, column 4
    assert_eq!(entry.line_col(3_usize), (1_u32, 4_u32));
}

#[test]
fn line_col_second_line() {
    let entry = Entry::new("test".to_string(), "abc\ndef".to_string());
    assert_eq!(entry.line_col(4_usize), (2_u32, 1_u32)); // 'd'
    assert_eq!(entry.line_col(5_usize), (2_u32, 2_u32)); // 'e'
    assert_eq!(entry.line_col(6_usize), (2_u32, 3_u32)); // 'f'
}

#[test]
fn line_col_multiple_lines() {
    let entry = Entry::new("test".to_string(), "a\nb\nc".to_string());
    assert_eq!(entry.line_col(0_usize), (1_u32, 1_u32)); // 'a'
    assert_eq!(entry.line_col(2_usize), (2_u32, 1_u32)); // 'b'
    assert_eq!(entry.line_col(4_usize), (3_u32, 1_u32)); // 'c'
}

#[test]
fn line_col_empty_content() {
    let entry = Entry::new("test".to_string(), String::new());
    // Beyond end of content, returns initial position
    assert_eq!(entry.line_col(0_usize), (1_u32, 1_u32));
}

#[test]
fn line_col_beyond_content() {
    let entry = Entry::new("test".to_string(), "abc".to_string());
    // At end of content
    assert_eq!(entry.line_col(3_usize), (1_u32, 4_u32));
    // Beyond end - still reports position at end
    assert_eq!(entry.line_col(100_usize), (1_u32, 4_u32));
}
