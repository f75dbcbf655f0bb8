use lona::error_context::{ArityExpectation, TypeExpectation};
use lona::value;

#[test]
fn type_expectation_single_matches() {
    let exp = TypeExpectation::Single(value::Kind::Integer);
    assert!(exp.matches(value::Kind::Integer));
    assert!(!exp.matches(value::Kind::Float));
    assert!(!exp.matches(value::Kind::Bool));
}

#[test]
fn type_expectation_numeric_matches() {
    let exp = TypeExpectation::Numeric;
    assert!(exp.matches(value::Kind::Integer));
    assert!(exp.matches(value::Kind::Float));
    assert!(exp.matches(value::Kind::Ratio));
    assert!(!exp.matches(value::Kind::Bool));
    assert!(!exp.matches(value::Kind::Nil));
}

#[test]
fn type_expectation_sequence_matches() {
    let exp = TypeExpectation::Sequence;
    assert!(exp.matches(value::Kind::List));
    assert!(exp.matches(value::Kind::Vector));
    assert!(exp.matches(value::Kind::String));
    // Maps are sequences of [key value] pairs (Clojure semantics)
    assert!(exp.matches(value::Kind::HashMap));
    assert!(!exp.matches(value::Kind::Integer));
}

#[test]
fn type_expectation_callable_matches() {
    let exp = TypeExpectation::Callable;
    assert!(exp.matches(value::Kind::Function));
    assert!(!exp.matches(value::Kind::Integer));
}

#[test]
fn type_expectation_comparable_matches() {
    let exp = TypeExpectation::Comparable;
    // Numeric types are comparable
    assert!(exp.matches(value::Kind::Integer));
    assert!(exp.matches(value::Kind::Float));
    assert!(exp.matches(value::Kind::Ratio));
    // String is comparable
    assert!(exp.matches(value::Kind::String));
    // Other types are not comparable
    assert!(!exp.matches(value::Kind::Bool));
    assert!(!exp.matches(value::Kind::Nil));
    assert!(!exp.matches(value::Kind::List));
    assert!(!exp.matches(value::Kind::Vector));
}

#[test]
fn type_expectation_description() {
    assert_eq!(
        TypeExpectation::Single(value::Kind::Integer).description(),
        "integer"
    );
    assert_eq!(TypeExpectation::Numeric.description(), "numeric type");
    assert_eq!(TypeExpectation::Sequence.description(), "sequence type");
    assert_eq!(TypeExpectation::Callable.description(), "callable");
    assert_eq!(
        TypeExpectation::Comparable.description(),
        "comparable type (number or string)"
    );
}

#[test]
fn arity_expectation_exact_matches() {
    let exp = ArityExpectation::Exact(2_u8);
    assert!(!exp.matches(1_u8));
    assert!(exp.matches(2_u8));
    assert!(!exp.matches(3_u8));
}

#[test]
fn arity_expectation_at_least_matches() {
    let exp = ArityExpectation::AtLeast(2_u8);
    assert!(!exp.matches(1_u8));
    assert!(exp.matches(2_u8));
    assert!(exp.matches(3_u8));
    assert!(exp.matches(100_u8));
}

#[test]
fn arity_expectation_range_matches() {
    let exp = ArityExpectation::Range {
        min: 2_u8,
        max: 4_u8,
    };
    assert!(!exp.matches(1_u8));
    assert!(exp.matches(2_u8));
    assert!(exp.matches(3_u8));
    assert!(exp.matches(4_u8));
    assert!(!exp.matches(5_u8));
}

#[test]
fn arity_expectation_description() {
    assert_eq!(ArityExpectation::Exact(2_u8).description(), "2");
    assert_eq!(ArityExpectation::AtLeast(1_u8).description(), "at least 1");
    assert_eq!(
        ArityExpectation::Range {
            min: 2_u8,
            max: 4_u8
        }
        .description(),
        "2 to 4"
    );
}
