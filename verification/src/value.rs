//! The kinds of runtime values.

use std::sync::Arc;

use vstd::prelude::*;

use crate::chunk::Chunk;
use crate::text::push_str_chars;

verus! {

/// The kind of a runtime value, without its contents.
#[derive(Debug, Clone, Copy, PartialEq, Eq, Structural, Hash)]
#[non_exhaustive]
pub enum Kind {
    /// The nil value.
    Nil,
    /// A boolean.
    Bool,
    /// An arbitrary-precision integer.
    Integer,
    /// A floating-point number.
    Float,
    /// An exact fraction.
    Ratio,
    /// A symbol.
    Symbol,
    /// A string.
    String,
    /// A persistent list.
    List,
    /// A persistent vector.
    Vector,
    /// A persistent map.
    HashMap,
    /// A persistent set.
    HashSet,
    /// A function.
    Function,
}

impl Kind {
    /// The name of a kind, as error messages show it.
    pub open spec fn name_text(self) -> Seq<char> {
        match self {
            Kind::Nil => "nil"@,
            Kind::Bool => "boolean"@,
            Kind::Integer => "integer"@,
            Kind::Float => "float"@,
            Kind::Ratio => "ratio"@,
            Kind::Symbol => "symbol"@,
            Kind::String => "string"@,
            Kind::List => "list"@,
            Kind::Vector => "vector"@,
            Kind::HashMap => "map"@,
            Kind::HashSet => "set"@,
            Kind::Function => "function"@,
        }
    }

    /// The name of this kind.
    pub fn name(self) -> (r: &'static str)
        ensures
            r@ == self.name_text(),
    {
        match self {
            Kind::Nil => "nil",
            Kind::Bool => "boolean",
            Kind::Integer => "integer",
            Kind::Float => "float",
            Kind::Ratio => "ratio",
            Kind::Symbol => "symbol",
            Kind::String => "string",
            Kind::List => "list",
            Kind::Vector => "vector",
            Kind::HashMap => "map",
            Kind::HashSet => "set",
            Kind::Function => "function",
        }
    }

    /// Whether values of this kind are numbers.
    pub fn is_numeric(self) -> (r: bool)
        ensures
            r == (self == Kind::Integer || self == Kind::Float || self == Kind::Ratio),
    {
        matches!(self, Kind::Integer | Kind::Float | Kind::Ratio)
    }

    /// Whether values of this kind are integers or floats.
    pub fn is_integer_or_float(self) -> (r: bool)
        ensures
            r == (self == Kind::Integer || self == Kind::Float),
    {
        matches!(self, Kind::Integer | Kind::Float)
    }

    /// Whether values of this kind can be walked as sequences.
    pub fn is_sequence(self) -> (r: bool)
        ensures
            r == (self == Kind::List || self == Kind::Vector || self == Kind::String || self == Kind::HashMap),
    {
        matches!(self, Kind::List | Kind::Vector | Kind::String | Kind::HashMap)
    }

    /// Whether values of this kind can be called.
    pub fn is_callable(self) -> (r: bool)
        ensures
            r == (self == Kind::Function),
    {
        matches!(self, Kind::Function)
    }
}

/// A compiled function: its code, shared between copies of the value, the
/// number of parameters it expects, and an optional name.
#[derive(Debug, Clone)]
#[non_exhaustive]
pub struct Function<K> {
    chunk: Arc<Chunk<K>>,
    arity: u8,
    name: Option<String>,
}

impl<K> Function<K> {
    /// The function's code.
    pub closed spec fn code(&self) -> Chunk<K> {
        *self.chunk
    }

    /// The number of parameters the function expects.
    pub closed spec fn param_count(&self) -> u8 {
        self.arity
    }

    /// The function's name, if it has one.
    pub closed spec fn label(&self) -> Option<Seq<char>> {
        match self.name {
            Some(n) => Some(n@),
            None => None,
        }
    }

    /// How the function prints: `#<function NAME>`, or `#<function>`
    /// without a name.
    pub open spec fn text(&self) -> Seq<char> {
        match self.label() {
            Some(n) => "#<function "@ + n + ">"@,
            None => "#<function>"@,
        }
    }

    /// A function of the given code, parameter count and name.
    pub fn new(chunk: Arc<Chunk<K>>, arity: u8, name: Option<String>) -> (r: Self)
        ensures
            r.code() == *chunk,
            r.param_count() == arity,
            r.label() == (match name {
                Some(n) => Some(n@),
                None => None::<Seq<char>>,
            }),
    {
        Function { chunk, arity, name }
    }

    /// The function's code.
    pub fn chunk(&self) -> (r: &Chunk<K>)
        ensures
            *r == self.code(),
    {
        &*self.chunk
    }

    /// The shared handle on the function's code.
    pub fn chunk_arc(&self) -> (r: &Arc<Chunk<K>>)
        ensures
            **r == self.code(),
    {
        &self.chunk
    }

    /// The number of parameters the function expects.
    pub fn arity(&self) -> (r: u8)
        ensures
            r == self.param_count(),
    {
        self.arity
    }

    /// The function's name, if it has one.
    pub fn name(&self) -> (r: Option<&str>)
        ensures
            match r {
                Some(s) => self.label() == Some(s@),
                None => self.label() is None,
            },
    {
        match &self.name {
            Some(n) => Some(n.as_str()),
            None => None,
        }
    }

    /// How the function prints.
    pub fn to_string(&self) -> (r: String)
        ensures
            r@ == self.text(),
    {
        let mut s = String::new();
        push_str_chars(&mut s, "#<function");
        match &self.name {
            Some(n) => {
                push_str_chars(&mut s, " ");
                push_str_chars(&mut s, n.as_str());
                push_str_chars(&mut s, ">");
            },
            None => {
                push_str_chars(&mut s, ">");
            },
        }
        proof {
            reveal_strlit("#<function");
            reveal_strlit(" ");
            reveal_strlit(">");
            reveal_strlit("#<function ");
            reveal_strlit("#<function>");
        }
        s
    }
}

/// `Arc::ptr_eq`: whether two handles point to one allocation. Handles on
/// one allocation hold one value; nothing more of the result is stated,
/// since allocation identity is not modelled.
#[verifier::external_body]
fn same_code<K>(a: &Arc<Chunk<K>>, b: &Arc<Chunk<K>>) -> (r: bool)
    ensures
        r ==> **a == **b,
{
    Arc::ptr_eq(a, b)
}

impl<K> PartialEq for Function<K> {
    /// Two functions are equal when they share one allocation of code.
    fn eq(&self, other: &Self) -> (r: bool)
        ensures
            r ==> self.code() == other.code(),
    {
        same_code(&self.chunk, &other.chunk)
    }
}

impl<K> vstd::std_specs::cmp::PartialEqSpecImpl for Function<K> {
    open spec fn obeys_eq_spec() -> bool {
        false
    }

    open spec fn eq_spec(&self, other: &Self) -> bool {
        self.code() == other.code()
    }
}

impl<K> Eq for Function<K> {}

} // verus!
