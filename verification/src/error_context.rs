//! What an operation expected when it rejected its arguments: the kinds of
//! value it takes and how many arguments.

use vstd::prelude::*;
use crate::text::{decimal_text, push_decimal, push_str_chars};
use crate::value::Kind;

verus! {

/// The kinds of value an operation takes.
#[derive(Debug, Clone, PartialEq, Eq, Structural)]
#[non_exhaustive]
pub enum TypeExpectation {
    /// Exactly this kind.
    Single(Kind),
    /// One of two kinds.
    Either(Kind, Kind),
    /// Integer, float or ratio.
    Numeric,
    /// Integer or float.
    IntegerOrFloat,
    /// List, vector, string or map.
    Sequence,
    /// A function.
    Callable,
    /// A boolean.
    Boolean,
    /// A symbol.
    Symbol,
    /// A number or a string.
    Comparable,
    /// List, vector, set or nil.
    Collection,
    /// A kind that carries metadata: symbol, list, vector, map or set.
    MetaSupporting,
}

impl TypeExpectation {
    /// The description of an expectation in error messages.
    pub open spec fn description_text(self) -> Seq<char> {
        match self {
            TypeExpectation::Single(kind) => kind.name_text(),
            TypeExpectation::Either(_, _) => "one of two types"@,
            TypeExpectation::Numeric => "numeric type"@,
            TypeExpectation::IntegerOrFloat => "integer or float"@,
            TypeExpectation::Sequence => "sequence type"@,
            TypeExpectation::Callable => "callable"@,
            TypeExpectation::Boolean => "boolean"@,
            TypeExpectation::Symbol => "symbol"@,
            TypeExpectation::Comparable => "comparable type (number or string)"@,
            TypeExpectation::Collection => "collection (list, vector, set, or nil)"@,
            TypeExpectation::MetaSupporting => "metadata-supporting type (symbol, list, vector, map, or set)"@,
        }
    }

    /// Whether a value of kind `kind` meets the expectation.
    pub open spec fn accepts(self, kind: Kind) -> bool {
        match self {
            TypeExpectation::Single(expected) => kind == expected,
            TypeExpectation::Either(first, second) => kind == first || kind == second,
            TypeExpectation::Numeric => kind == Kind::Integer || kind == Kind::Float || kind == Kind::Ratio,
            TypeExpectation::IntegerOrFloat => kind == Kind::Integer || kind == Kind::Float,
            TypeExpectation::Sequence => kind == Kind::List || kind == Kind::Vector || kind == Kind::String
                || kind == Kind::HashMap,
            TypeExpectation::Callable => kind == Kind::Function,
            TypeExpectation::Boolean => kind == Kind::Bool,
            TypeExpectation::Symbol => kind == Kind::Symbol,
            TypeExpectation::Comparable => kind == Kind::Integer || kind == Kind::Float || kind == Kind::Ratio
                || kind == Kind::String,
            TypeExpectation::Collection => kind == Kind::List || kind == Kind::Vector || kind == Kind::HashSet
                || kind == Kind::Nil,
            TypeExpectation::MetaSupporting => kind == Kind::Symbol || kind == Kind::List || kind == Kind::Vector
                || kind == Kind::HashMap || kind == Kind::HashSet,
        }
    }

    /// A description of the expectation for error messages.
    pub fn description(&self) -> (r: &'static str)
        ensures
            r@ == self.description_text(),
    {
        match self {
            TypeExpectation::Single(kind) => kind.name(),
            TypeExpectation::Either(_, _) => "one of two types",
            TypeExpectation::Numeric => "numeric type",
            TypeExpectation::IntegerOrFloat => "integer or float",
            TypeExpectation::Sequence => "sequence type",
            TypeExpectation::Callable => "callable",
            TypeExpectation::Boolean => "boolean",
            TypeExpectation::Symbol => "symbol",
            TypeExpectation::Comparable => "comparable type (number or string)",
            TypeExpectation::Collection => "collection (list, vector, set, or nil)",
            TypeExpectation::MetaSupporting => "metadata-supporting type (symbol, list, vector, map, or set)",
        }
    }

    /// Whether a value of kind `kind` meets the expectation.
    pub fn matches(&self, kind: Kind) -> (r: bool)
        ensures
            r == self.accepts(kind),
    {
        match self {
            TypeExpectation::Single(expected) => *expected == kind,
            TypeExpectation::Either(first, second) => *first == kind || *second == kind,
            TypeExpectation::Numeric => kind.is_numeric(),
            TypeExpectation::IntegerOrFloat => kind.is_integer_or_float(),
            TypeExpectation::Sequence => kind.is_sequence(),
            TypeExpectation::Callable => kind.is_callable(),
            TypeExpectation::Boolean => kind == Kind::Bool,
            TypeExpectation::Symbol => kind == Kind::Symbol,
            TypeExpectation::Comparable => kind.is_numeric() || kind == Kind::String,
            TypeExpectation::Collection => matches!(kind, Kind::List | Kind::Vector | Kind::HashSet | Kind::Nil),
            TypeExpectation::MetaSupporting => matches!(
                kind,
                Kind::Symbol | Kind::List | Kind::Vector | Kind::HashMap | Kind::HashSet
            ),
        }
    }
}

/// How many arguments an operation takes.
#[derive(Debug, Clone, Copy, PartialEq, Eq, Structural)]
#[non_exhaustive]
pub enum ArityExpectation {
    /// Exactly this many.
    Exact(u8),
    /// At least this many.
    AtLeast(u8),
    /// Between `min` and `max`, both included.
    Range {
        /// The fewest.
        min: u8,
        /// The most.
        max: u8,
    },
}

impl ArityExpectation {
    /// The description of an arity in error messages.
    pub open spec fn description_text(self) -> Seq<char> {
        match self {
            ArityExpectation::Exact(n) => decimal_text(n as nat),
            ArityExpectation::AtLeast(min) => "at least "@ + decimal_text(min as nat),
            ArityExpectation::Range { min, max } => decimal_text(min as nat) + " to "@ + decimal_text(max as nat),
        }
    }

    /// Whether `count` arguments meet the expectation.
    pub fn matches(&self, count: u8) -> (r: bool)
        ensures
            r == match *self {
                ArityExpectation::Exact(expected) => count == expected,
                ArityExpectation::AtLeast(min) => count >= min,
                ArityExpectation::Range { min, max } => min <= count <= max,
            },
    {
        match *self {
            ArityExpectation::Exact(expected) => count == expected,
            ArityExpectation::AtLeast(min) => count >= min,
            ArityExpectation::Range { min, max } => count >= min && count <= max,
        }
    }

    /// A description of the arity: `2`, `at least 1`, `2 to 4`.
    pub fn description(&self) -> (r: String)
        ensures
            r@ == self.description_text(),
    {
        let mut s = String::new();
        match *self {
            ArityExpectation::Exact(n) => {
                push_decimal(&mut s, n as u64);
            },
            ArityExpectation::AtLeast(min) => {
                push_str_chars(&mut s, "at least ");
                push_decimal(&mut s, min as u64);
            },
            ArityExpectation::Range { min, max } => {
                push_decimal(&mut s, min as u64);
                push_str_chars(&mut s, " to ");
                push_decimal(&mut s, max as u64);
            },
        }
        assert(s@ =~= self.description_text());
        s
    }
}

} // verus!
