use lona::span::Span;

#[test]
fn span_new_and_accessors() {
    let span = Span::new(10_usize, 20_usize);
    assert_eq!(span.start, 10_usize);
    assert_eq!(span.end, 20_usize);
    assert_eq!(span.len(), 10_usize);
    assert!(!span.is_empty());
}

#[test]
fn span_empty() {
    let span = Span::new(5_usize, 5_usize);
    assert!(span.is_empty());
    assert_eq!(span.len(), 0_usize);
}

#[test]
fn span_display() {
    let span = Span::new(10_usize, 20_usize);
    assert_eq!(span.to_string(), "10..20");
}

#[test]
fn span_default() {
    let span = Span::default();
    assert_eq!(span.start, 0);
    assert_eq!(span.end, 0);
    assert!(span.is_empty());
}
