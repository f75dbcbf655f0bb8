//! Boot protocol: the arguments a realm's entry point receives.

use vstd::prelude::*;
use crate::abi::types::{RealmId, WorkerId};

verus! {

/// Arguments handed to a realm's entry point, in register order.
#[derive(Clone, Copy, Debug)]
pub struct BootArgs {
    /// This realm's identifier.
    pub realm_id: RealmId,
    /// This worker's index within the realm.
    pub worker_id: WorkerId,
    /// Start of the process pool.
    pub heap_start: u64,
    /// Bytes of heap mapped at start.
    pub heap_size: u64,
    /// Capabilities of the realm.
    pub flags: BootFlags,
}

/// A set of boot flags, one bit each.
#[derive(Clone, Copy, Debug, Default, PartialEq, Eq)]
pub struct BootFlags(u64);

impl View for BootFlags {
    type V = u64;

    closed spec fn view(&self) -> u64 {
        self.0
    }
}

impl BootFlags {
    /// This is the init realm.
    pub const IS_INIT_REALM: u64 = 1;

    /// A UART is mapped at the start of the MMIO region.
    pub const HAS_UART: u64 = 2;

    /// A framebuffer is available.
    pub const HAS_FRAMEBUFFER: u64 = 4;

    /// The empty flag set.
    pub fn none() -> (r: Self)
        ensures
            r@ == 0,
    {
        BootFlags(0)
    }

    /// Flags from their raw bits.
    pub fn new(flags: u64) -> (r: Self)
        ensures
            r@ == flags,
    {
        BootFlags(flags)
    }

    /// The raw bits.
    pub fn as_u64(self) -> (r: u64)
        ensures
            r == self@,
    {
        self.0
    }

    /// Whether any bit of `flag` is set.
    pub fn has(self, flag: u64) -> (b: bool)
        ensures
            b == (self@ & flag != 0),
    {
        (self.0 & flag) != 0
    }

    /// Whether this is the init realm.
    pub fn is_init_realm(self) -> (b: bool)
        ensures
            b == (self@ & 1 != 0),
    {
        self.has(Self::IS_INIT_REALM)
    }

    /// Whether a UART is available.
    pub fn has_uart(self) -> (b: bool)
        ensures
            b == (self@ & 2 != 0),
    {
        self.has(Self::HAS_UART)
    }

    /// Whether a framebuffer is available.
    pub fn has_framebuffer(self) -> (b: bool)
        ensures
            b == (self@ & 4 != 0),
    {
        self.has(Self::HAS_FRAMEBUFFER)
    }

    /// The flags with every bit of `flag` set.
    pub fn with(self, flag: u64) -> (r: Self)
        ensures
            r@ == self@ | flag,
    {
        BootFlags(self.0 | flag)
    }

    /// The flags with every bit of `flag` cleared.
    pub fn without(self, flag: u64) -> (r: Self)
        ensures
            r@ == self@ & !flag,
    {
        BootFlags(self.0 & !flag)
    }
}

/// Setting a flag makes it present, clearing makes it absent, and neither
/// touches the other bits.
pub proof fn law_flags_set_clear(flags: BootFlags, flag: u64, other: u64)
    requires
        flag != 0,
        flag & other == 0,
    ensures
        (flags@ | flag) & flag != 0,
        (flags@ & !flag) & flag == 0,
        (flags@ | flag) & other == flags@ & other,
        (flags@ & !flag) & other == flags@ & other,
{
    let f = flags@;
    assert((f | flag) & flag != 0) by (bit_vector)
        requires flag != 0u64;
    assert((f & !flag) & flag == 0) by (bit_vector);
    assert((f | flag) & other == f & other) by (bit_vector)
        requires flag & other == 0u64;
    assert((f & !flag) & other == f & other) by (bit_vector)
        requires flag & other == 0u64;
}

} // verus!
