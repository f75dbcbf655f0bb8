//! Mutable byte buffers shared between an owner and read-only views.
//!
//! A buffer is created owned. Views and slices share its bytes: a write
//! through the owner (or an owned slice) is seen through every view. Views
//! cannot write.
//!
//! The bytes live in cells that any handle may write through a shared
//! reference, so the verified contracts state the shape of each result
//! (success, failure, sizes, access modes) but not the byte values read,
//! which depend on writes made through other handles.

use std::rc::Rc;
use vstd::prelude::*;
use vstd::cell::invcell::InvCell;
use vstd::predicate::Predicate;
use crate::text::{decimal_text, push_decimal, push_str_chars};

verus! {

/// Why a buffer operation failed.
#[derive(Debug, Clone, Copy, PartialEq, Eq, Structural)]
#[non_exhaustive]
pub enum Error {
    /// Writing through a read-only view.
    ReadOnly,
    /// The buffer's bytes have been handed over elsewhere.
    Zombie,
    /// An index past the end.
    OutOfBounds,
}

impl Error {
    /// The error message.
    pub open spec fn message_text(self) -> Seq<char> {
        match self {
            Error::ReadOnly => "binary buffer is read-only"@,
            Error::Zombie => "binary buffer has been transferred"@,
            Error::OutOfBounds => "index out of bounds"@,
        }
    }

    /// The error message.
    pub fn message(&self) -> (r: &'static str)
        ensures
            r@ == self.message_text(),
    {
        match self {
            Error::ReadOnly => "binary buffer is read-only",
            Error::Zombie => "binary buffer has been transferred",
            Error::OutOfBounds => "index out of bounds",
        }
    }
}

/// Whether a handle may write.
#[derive(Debug, Clone, Copy, PartialEq, Eq, Structural)]
#[non_exhaustive]
pub enum Access {
    /// May read and write.
    Owned,
    /// May only read.
    View,
}

/// Any byte may be stored.
pub struct AnyByte;

impl Predicate<u8> for AnyByte {
    open spec fn predicate(&self, v: u8) -> bool {
        true
    }
}

/// Any physical address (or none) may be recorded.
pub struct AnyAddr;

impl Predicate<Option<u64>> for AnyAddr {
    open spec fn predicate(&self, v: Option<u64>) -> bool {
        true
    }
}

struct Buffer {
    data: Vec<InvCell<u8, AnyByte>>,
    phys_addr: InvCell<Option<u64>, AnyAddr>,
}

/// A handle on a byte buffer: bytes `offset..offset + len` of a shared
/// buffer, owned or viewed.
pub struct Binary {
    buffer: Rc<Buffer>,
    access: Access,
    offset: usize,
    len: usize,
}

/// A copy of the bytes a handle covers.
pub struct Ref {
    bytes: Vec<u8>,
}

impl Ref {
    /// The number of bytes copied.
    pub closed spec fn size(self) -> nat {
        self.bytes@.len()
    }

    /// The bytes.
    pub fn as_slice(&self) -> (r: &[u8])
        ensures
            r@.len() == self.size(),
    {
        self.bytes.as_slice()
    }
}

/// A cell holding `b`.
fn byte_cell(b: u8) -> (r: InvCell<u8, AnyByte>)
    ensures
        r.predicate() == AnyByte,
{
    InvCell::new(b, Ghost(AnyByte))
}

impl Binary {
    #[verifier::type_invariant]
    spec fn inv(self) -> bool {
        &&& self.offset + self.len <= self.buffer.data@.len()
        &&& self.buffer.data@.len() <= usize::MAX
    }

    /// The number of bytes the handle covers.
    pub closed spec fn size(self) -> nat {
        self.len as nat
    }

    /// Whether the handle may write.
    pub closed spec fn mode(self) -> Access {
        self.access
    }

    /// Where the handle's bytes start in the shared buffer.
    pub closed spec fn start(self) -> nat {
        self.offset as nat
    }

    /// An owned buffer of `size` zero bytes.
    pub fn new(size: usize) -> (r: Self)
        ensures
            r.size() == size,
            r.mode() == Access::Owned,
            r.start() == 0,
    {
        let mut data: Vec<InvCell<u8, AnyByte>> = Vec::new();
        let mut i: usize = 0;
        while i < size
            invariant
                i <= size,
                data@.len() == i,
            decreases size - i,
        {
            data.push(byte_cell(0));
            i = i + 1;
        }
        let buffer = Buffer { data, phys_addr: InvCell::new(None, Ghost(AnyAddr)) };
        Binary { buffer: Rc::new(buffer), access: Access::Owned, offset: 0, len: size }
    }

    /// An owned buffer holding the bytes of `data`.
    pub fn from_vec(data: Vec<u8>) -> (r: Self)
        ensures
            r.size() == data@.len(),
            r.mode() == Access::Owned,
            r.start() == 0,
    {
        let mut cells: Vec<InvCell<u8, AnyByte>> = Vec::new();
        let mut i: usize = 0;
        while i < data.len()
            invariant
                i <= data@.len(),
                cells@.len() == i,
            decreases data@.len() - i,
        {
            cells.push(byte_cell(data[i]));
            i = i + 1;
        }
        let n = data.len();
        let buffer = Buffer { data: cells, phys_addr: InvCell::new(None, Ghost(AnyAddr)) };
        Binary { buffer: Rc::new(buffer), access: Access::Owned, offset: 0, len: n }
    }

    /// The number of bytes.
    pub fn len(&self) -> (r: usize)
        ensures
            r == self.size(),
    {
        self.len
    }

    /// Whether the handle covers no byte.
    pub fn is_empty(&self) -> (r: bool)
        ensures
            r == (self.size() == 0),
    {
        self.len == 0
    }

    /// Whether the handle may write.
    pub fn is_owner(&self) -> (r: bool)
        ensures
            r == (self.mode() == Access::Owned),
    {
        match self.access {
            Access::Owned => true,
            Access::View => false,
        }
    }

    /// Whether the buffer's bytes have been handed over elsewhere; no
    /// operation of this library does that, so it never happens.
    pub fn is_zombie(&self) -> (r: bool)
        ensures
            !r,
    {
        false
    }

    /// The byte at `index`: `Ok(None)` past the end.
    pub fn get(&self, index: usize) -> (r: Result<Option<u8>, Error>)
        ensures
            r matches Ok(v) && (v is Some <==> index < self.size()),
    {
        proof {
            use_type_invariant(self);
        }
        if index >= self.len {
            return Ok(None);
        }
        let b = self.buffer.data[self.offset + index].get();
        Ok(Some(b))
    }

    /// Writes `value` at `index`: refused through a view, and past the end.
    pub fn set(&self, index: usize, value: u8) -> (r: Result<(), Error>)
        ensures
            self.mode() == Access::View ==> r == Err::<(), Error>(Error::ReadOnly),
            self.mode() == Access::Owned && index >= self.size() ==> r == Err::<(), Error>(Error::OutOfBounds),
            self.mode() == Access::Owned && index < self.size() ==> r is Ok,
    {
        proof {
            use_type_invariant(self);
        }
        if !self.is_owner() {
            return Err(Error::ReadOnly);
        }
        if index >= self.len {
            return Err(Error::OutOfBounds);
        }
        self.buffer.data[self.offset + index].set(value);
        Ok(())
    }

    /// The handle on bytes `start..start + slice_len` of this one, with the
    /// same access; `None` when they run past the end.
    pub fn slice(&self, start: usize, slice_len: usize) -> (r: Option<Self>)
        ensures
            match r {
                Some(s) => {
                    &&& start + slice_len <= self.size()
                    &&& s.size() == slice_len
                    &&& s.mode() == self.mode()
                    &&& s.start() == self.start() + start
                },
                None => start + slice_len > self.size(),
            },
    {
        proof {
            use_type_invariant(self);
        }
        let end = match start.checked_add(slice_len) {
            Some(e) => e,
            None => return None,
        };
        if end > self.len {
            return None;
        }
        Some(Binary { buffer: Rc::clone(&self.buffer), access: self.access, offset: self.offset + start, len: slice_len })
    }

    /// A read-only handle on the same bytes.
    pub fn view(&self) -> (r: Self)
        ensures
            r.size() == self.size(),
            r.mode() == Access::View,
            r.start() == self.start(),
    {
        proof {
            use_type_invariant(self);
        }
        Binary { buffer: Rc::clone(&self.buffer), access: Access::View, offset: self.offset, len: self.len }
    }

    /// A copy of the bytes the handle covers.
    pub fn as_bytes(&self) -> (r: Result<Ref, Error>)
        ensures
            r matches Ok(b) && b.size() == self.size(),
    {
        proof {
            use_type_invariant(self);
        }
        let mut bytes: Vec<u8> = Vec::new();
        let mut i: usize = 0;
        while i < self.len
            invariant
                i <= self.len,
                self.offset + self.len <= self.buffer.data@.len(),
                self.buffer.data@.len() <= usize::MAX,
                bytes@.len() == i,
            decreases self.len - i,
        {
            bytes.push(self.buffer.data[self.offset + i].get());
            i = i + 1;
        }
        Ok(Ref { bytes })
    }

    /// Whether the handle may write.
    pub fn access(&self) -> (r: Access)
        ensures
            r == self.mode(),
    {
        self.access
    }

    /// The physical address recorded for the buffer, if any.
    pub fn phys_addr(&self) -> Option<u64> {
        self.buffer.phys_addr.get()
    }

    /// Records the buffer's physical address; refused through a view.
    pub fn set_phys_addr(&self, addr: u64) -> (r: Result<(), Error>)
        ensures
            self.mode() == Access::View ==> r == Err::<(), Error>(Error::ReadOnly),
            self.mode() == Access::Owned ==> r is Ok,
    {
        if !self.is_owner() {
            return Err(Error::ReadOnly);
        }
        self.buffer.phys_addr.set(Some(addr));
        Ok(())
    }

    /// The handle described: `#<binary:LEN owned>` or `#<binary:LEN view>`.
    pub fn to_string(&self) -> (r: String)
        ensures
            r@ == "#<binary:"@ + decimal_text(self.size()) + (if self.mode() == Access::Owned {
                " owned>"@
            } else {
                " view>"@
            }),
    {
        let mut s = String::new();
        push_str_chars(&mut s, "#<binary:");
        push_decimal(&mut s, self.len as u64);
        match self.access {
            Access::Owned => push_str_chars(&mut s, " owned>"),
            Access::View => push_str_chars(&mut s, " view>"),
        }
        s
    }
}

impl Clone for Binary {
    /// A clone is a read-only view of the same bytes.
    fn clone(&self) -> (r: Self)
        ensures
            r.size() == self.size(),
            r.mode() == Access::View,
            r.start() == self.start(),
    {
        self.view()
    }
}

impl PartialEq for Binary {
    /// Handles are equal when they cover equal byte strings, whatever
    /// their access.
    fn eq(&self, other: &Self) -> (r: bool)
        ensures
            self.size() != other.size() ==> !r,
    {
        proof {
            use_type_invariant(self);
            use_type_invariant(other);
        }
        if self.len != other.len {
            return false;
        }
        let mut i: usize = 0;
        while i < self.len
            invariant
                i <= self.len,
                self.len == other.len,
                self.offset + self.len <= self.buffer.data@.len(),
                other.offset + other.len <= other.buffer.data@.len(),
                self.buffer.data@.len() <= usize::MAX,
                other.buffer.data@.len() <= usize::MAX,
            decreases self.len - i,
        {
            if self.buffer.data[self.offset + i].get() != other.buffer.data[other.offset + i].get() {
                return false;
            }
            i = i + 1;
        }
        true
    }
}

impl vstd::std_specs::cmp::PartialEqSpecImpl for Binary {
    open spec fn obeys_eq_spec() -> bool {
        false
    }

    open spec fn eq_spec(&self, other: &Self) -> bool {
        self.size() == other.size()
    }
}

impl Eq for Binary {}

} // verus!
