//! Core data structures and binary interface of the Lona runtime.

use vstd::prelude::*;

pub mod abi;
pub mod allocator;
pub mod binary;
pub mod chunk;
pub mod error_context;
pub mod fnv;
pub mod hamt;
pub mod integer;
pub mod list;
pub mod opcode;
pub mod persistent_map;
pub mod persistent_set;
pub mod pvec;
pub mod ratio;
pub mod source;
pub mod span;
pub mod string;
pub mod symbol;
pub mod text;
pub mod value;

verus! {
}
