//! Identifier and address newtypes.

use vstd::prelude::*;
use vstd::arithmetic::power2::pow2;
use vstd::bits::lemma_u64_shl_is_mul;
use vstd::bits::lemma_u64_pow2_no_overflow;
use vstd::bits::lemma_u64_low_bits_mask_is_mod;
use vstd::bits::low_bits_mask;

verus! {

/// Number of values of a `u64`: arithmetic on addresses wraps modulo this.
pub open spec fn word_modulus() -> int {
    0x1_0000_0000_0000_0000
}

/// `a + b` reduced modulo 2^64.
pub open spec fn wrap_add(a: u64, b: u64) -> u64 {
    ((a + b) % word_modulus()) as u64
}

/// `a - b` reduced modulo 2^64.
pub open spec fn wrap_sub(a: u64, b: u64) -> u64 {
    ((a - b) % word_modulus()) as u64
}

/// `a` is a power of two that fits in a `u64`.
pub open spec fn is_pow2(a: u64) -> bool {
    exists|k: nat| k < 64 && a == pow2(k)
}

/// The largest multiple of `align` that does not exceed `x`.
pub open spec fn round_down(x: u64, align: u64) -> u64 {
    (x - x % align) as u64
}

/// Rounding `x` up to a multiple of `align`, where the intermediate sum
/// `x + align - 1` wraps modulo 2^64 as the hardware does.
pub open spec fn round_up_wrapping(x: u64, align: u64) -> u64 {
    round_down(wrap_add(x, (align - 1) as u64), align)
}

/// Tests whether `a` is a power of two.
pub fn power_of_two(a: u64) -> (b: bool)
    ensures
        b == is_pow2(a),
{
    let mut k: u64 = 0;
    while k < 64
        invariant
            k <= 64,
            forall|j: nat| j < k ==> a != pow2(j),
        decreases 64 - k,
    {
        proof {
            lemma_u64_pow2_no_overflow(k as nat);
            lemma_u64_shl_is_mul(1, k);
        }
        if a == (1u64 << k) {
            return true;
        }
        k = k + 1;
    }
    false
}

proof fn lemma_mask_is_mod(x: u64, a: u64)
    requires
        is_pow2(a),
    ensures
        a > 0,
        x & ((a - 1) as u64) == x % a,
        x & !((a - 1) as u64) == round_down(x, a),
{
    let k = choose|k: nat| k < 64 && a == pow2(k);
    lemma_u64_pow2_no_overflow(k);
    vstd::arithmetic::power2::lemma_pow2_pos(k);
    lemma_u64_low_bits_mask_is_mod(x, k);
    let m = (a - 1) as u64;
    assert(m == low_bits_mask(k) as u64);
    assert(x & !m == x - (x & m)) by (bit_vector);
    assert(x & m <= x) by (bit_vector);
}

/// Wrapping offset arithmetic and alignment shared by both address kinds.
fn addr_align_up(x: u64, alignment: u64) -> (r: Option<u64>)
    ensures
        r == (if is_pow2(alignment) { Some(round_up_wrapping(x, alignment)) } else { None::<u64> }),
{
    if !power_of_two(alignment) {
        return None;
    }
    proof {
        lemma_mask_is_mod(x, alignment);
    }
    let mask = alignment - 1;
    let s = x.wrapping_add(mask);
    proof {
        lemma_mask_is_mod(s, alignment);
        assert(s == wrap_add(x, mask));
    }
    Some(s & !mask)
}

fn addr_align_down(x: u64, alignment: u64) -> (r: Option<u64>)
    ensures
        r == (if is_pow2(alignment) { Some(round_down(x, alignment)) } else { None::<u64> }),
{
    if !power_of_two(alignment) {
        return None;
    }
    proof {
        lemma_mask_is_mod(x, alignment);
    }
    let mask = alignment - 1;
    proof {
        lemma_mask_is_mod(x, alignment);
    }
    Some(x & !mask)
}

fn addr_is_aligned(x: u64, alignment: u64) -> (r: Option<bool>)
    ensures
        r == (if is_pow2(alignment) { Some(x % alignment == 0) } else { None::<bool> }),
{
    if !power_of_two(alignment) {
        return None;
    }
    proof {
        lemma_mask_is_mod(x, alignment);
    }
    Some((x & (alignment - 1)) == 0)
}

/// A physical address.
#[derive(Clone, Copy, PartialEq, Eq, PartialOrd, Ord, Hash, Default, Debug)]
pub struct Paddr(u64);

impl View for Paddr {
    type V = u64;

    closed spec fn view(&self) -> u64 {
        self.0
    }
}

impl Paddr {
    /// Wraps a raw address.
    pub fn new(addr: u64) -> (r: Self)
        ensures
            r@ == addr,
    {
        Paddr(addr)
    }

    /// The null address.
    pub fn null() -> (r: Self)
        ensures
            r@ == 0,
    {
        Paddr(0)
    }

    /// Whether this is the null address.
    pub fn is_null(self) -> (b: bool)
        ensures
            b == (self@ == 0),
    {
        self.0 == 0
    }

    /// The raw address.
    pub fn as_u64(self) -> (r: u64)
        ensures
            r == self@,
    {
        self.0
    }

    /// The address `offset` bytes further on, wrapping at 2^64.
    pub fn add(self, offset: u64) -> (r: Self)
        ensures
            r@ == wrap_add(self@, offset),
    {
        Paddr(self.0.wrapping_add(offset))
    }

    /// The address `offset` bytes before, wrapping at 0.
    pub fn sub(self, offset: u64) -> (r: Self)
        ensures
            r@ == wrap_sub(self@, offset),
    {
        Paddr(self.0.wrapping_sub(offset))
    }

    /// Distance from `other` to `self`, wrapping at 0.
    pub fn diff(self, other: Self) -> (r: u64)
        ensures
            r == wrap_sub(self@, other@),
    {
        self.0.wrapping_sub(other.0)
    }

    /// Rounds up to a multiple of `alignment`; `None` unless `alignment` is
    /// a power of two.
    pub fn align_up(self, alignment: u64) -> (r: Option<Self>)
        ensures
            r matches Some(p) ==> p@ == round_up_wrapping(self@, alignment),
            r is Some <==> is_pow2(alignment),
    {
        match addr_align_up(self.0, alignment) {
            Some(v) => Some(Paddr(v)),
            None => None,
        }
    }

    /// Rounds down to a multiple of `alignment`; `None` unless `alignment`
    /// is a power of two.
    pub fn align_down(self, alignment: u64) -> (r: Option<Self>)
        ensures
            r matches Some(p) ==> p@ == round_down(self@, alignment),
            r is Some <==> is_pow2(alignment),
    {
        match addr_align_down(self.0, alignment) {
            Some(v) => Some(Paddr(v)),
            None => None,
        }
    }

    /// Whether the address is a multiple of `alignment`; `None` unless
    /// `alignment` is a power of two.
    pub fn is_aligned(self, alignment: u64) -> (r: Option<bool>)
        ensures
            r == (if is_pow2(alignment) { Some(self@ % alignment == 0) } else { None::<bool> }),
    {
        addr_is_aligned(self.0, alignment)
    }

    /// The address in the form `Paddr(0x..)`.
    pub fn debug_text(self) -> (s: String)
        ensures
            s@ == seq!['P', 'a', 'd', 'd', 'r', '('] + crate::text::hex_text(self@ as nat) + seq![')'],
    {
        let mut s = String::new();
        crate::text::push_str_chars(&mut s, "Paddr(");
        proof {
            reveal_strlit("Paddr(");
        }
        crate::text::push_hex(&mut s, self.0);
        crate::text::push_char(&mut s, ')');
        assert(s@ =~= seq!['P', 'a', 'd', 'd', 'r', '('] + crate::text::hex_text(self@ as nat) + seq![')']);
        s
    }
}

impl From<u64> for Paddr {
    fn from(addr: u64) -> (r: Self)
        ensures
            r@ == addr,
    {
        Paddr(addr)
    }
}

impl vstd::std_specs::convert::FromSpecImpl<u64> for Paddr {
    open spec fn obeys_from_spec() -> bool {
        true
    }

    closed spec fn from_spec(v: u64) -> Self {
        Paddr(v)
    }
}

impl core::ops::Add<u64> for Paddr {
    type Output = Self;

    fn add(self, rhs: u64) -> (r: Self)
        ensures
            r@ == wrap_add(self@, rhs),
    {
        Paddr(self.0.wrapping_add(rhs))
    }
}

impl vstd::std_specs::ops::AddSpecImpl<u64> for Paddr {
    open spec fn obeys_add_spec() -> bool {
        true
    }

    open spec fn add_req(self, rhs: u64) -> bool {
        true
    }

    closed spec fn add_spec(self, rhs: u64) -> Self {
        Paddr(wrap_add(self.0, rhs))
    }
}

impl core::ops::Sub<u64> for Paddr {
    type Output = Self;

    fn sub(self, rhs: u64) -> (r: Self)
        ensures
            r@ == wrap_sub(self@, rhs),
    {
        Paddr(self.0.wrapping_sub(rhs))
    }
}

impl vstd::std_specs::ops::SubSpecImpl<u64> for Paddr {
    open spec fn obeys_sub_spec() -> bool {
        true
    }

    open spec fn sub_req(self, rhs: u64) -> bool {
        true
    }

    closed spec fn sub_spec(self, rhs: u64) -> Self {
        Paddr(wrap_sub(self.0, rhs))
    }
}

/// A virtual address.
#[derive(Clone, Copy, PartialEq, Eq, PartialOrd, Ord, Hash, Default, Debug)]
pub struct Vaddr(u64);

impl View for Vaddr {
    type V = u64;

    closed spec fn view(&self) -> u64 {
        self.0
    }
}

impl Vaddr {
    /// Wraps a raw address.
    pub fn new(addr: u64) -> (r: Self)
        ensures
            r@ == addr,
    {
        Vaddr(addr)
    }

    /// The null address.
    pub fn null() -> (r: Self)
        ensures
            r@ == 0,
    {
        Vaddr(0)
    }

    /// Whether this is the null address.
    pub fn is_null(self) -> (b: bool)
        ensures
            b == (self@ == 0),
    {
        self.0 == 0
    }

    /// The raw address.
    pub fn as_u64(self) -> (r: u64)
        ensures
            r == self@,
    {
        self.0
    }

    /// The address `offset` bytes further on, wrapping at 2^64.
    pub fn add(self, offset: u64) -> (r: Self)
        ensures
            r@ == wrap_add(self@, offset),
    {
        Vaddr(self.0.wrapping_add(offset))
    }

    /// The address `offset` bytes before, wrapping at 0.
    pub fn sub(self, offset: u64) -> (r: Self)
        ensures
            r@ == wrap_sub(self@, offset),
    {
        Vaddr(self.0.wrapping_sub(offset))
    }

    /// Distance from `other` to `self`, wrapping at 0.
    pub fn diff(self, other: Self) -> (r: u64)
        ensures
            r == wrap_sub(self@, other@),
    {
        self.0.wrapping_sub(other.0)
    }

    /// Rounds up to a multiple of `alignment`; `None` unless `alignment` is
    /// a power of two.
    pub fn align_up(self, alignment: u64) -> (r: Option<Self>)
        ensures
            r matches Some(p) ==> p@ == round_up_wrapping(self@, alignment),
            r is Some <==> is_pow2(alignment),
    {
        match addr_align_up(self.0, alignment) {
            Some(v) => Some(Vaddr(v)),
            None => None,
        }
    }

    /// Rounds down to a multiple of `alignment`; `None` unless `alignment`
    /// is a power of two.
    pub fn align_down(self, alignment: u64) -> (r: Option<Self>)
        ensures
            r matches Some(p) ==> p@ == round_down(self@, alignment),
            r is Some <==> is_pow2(alignment),
    {
        match addr_align_down(self.0, alignment) {
            Some(v) => Some(Vaddr(v)),
            None => None,
        }
    }

    /// Whether the address is a multiple of `alignment`; `None` unless
    /// `alignment` is a power of two.
    pub fn is_aligned(self, alignment: u64) -> (r: Option<bool>)
        ensures
            r == (if is_pow2(alignment) { Some(self@ % alignment == 0) } else { None::<bool> }),
    {
        addr_is_aligned(self.0, alignment)
    }

    /// The address in the form `Vaddr(0x..)`.
    pub fn debug_text(self) -> (s: String)
        ensures
            s@ == seq!['V', 'a', 'd', 'd', 'r', '('] + crate::text::hex_text(self@ as nat) + seq![')'],
    {
        let mut s = String::new();
        crate::text::push_str_chars(&mut s, "Vaddr(");
        proof {
            reveal_strlit("Vaddr(");
        }
        crate::text::push_hex(&mut s, self.0);
        crate::text::push_char(&mut s, ')');
        assert(s@ =~= seq!['V', 'a', 'd', 'd', 'r', '('] + crate::text::hex_text(self@ as nat) + seq![')']);
        s
    }
}

impl From<u64> for Vaddr {
    fn from(addr: u64) -> (r: Self)
        ensures
            r@ == addr,
    {
        Vaddr(addr)
    }
}

impl vstd::std_specs::convert::FromSpecImpl<u64> for Vaddr {
    open spec fn obeys_from_spec() -> bool {
        true
    }

    closed spec fn from_spec(v: u64) -> Self {
        Vaddr(v)
    }
}

impl core::ops::Add<u64> for Vaddr {
    type Output = Self;

    fn add(self, rhs: u64) -> (r: Self)
        ensures
            r@ == wrap_add(self@, rhs),
    {
        Vaddr(self.0.wrapping_add(rhs))
    }
}

impl vstd::std_specs::ops::AddSpecImpl<u64> for Vaddr {
    open spec fn obeys_add_spec() -> bool {
        true
    }

    open spec fn add_req(self, rhs: u64) -> bool {
        true
    }

    closed spec fn add_spec(self, rhs: u64) -> Self {
        Vaddr(wrap_add(self.0, rhs))
    }
}

impl core::ops::Sub<u64> for Vaddr {
    type Output = Self;

    fn sub(self, rhs: u64) -> (r: Self)
        ensures
            r@ == wrap_sub(self@, rhs),
    {
        Vaddr(self.0.wrapping_sub(rhs))
    }
}

impl vstd::std_specs::ops::SubSpecImpl<u64> for Vaddr {
    open spec fn obeys_sub_spec() -> bool {
        true
    }

    open spec fn sub_req(self, rhs: u64) -> bool {
        true
    }

    closed spec fn sub_spec(self, rhs: u64) -> Self {
        Vaddr(wrap_sub(self.0, rhs))
    }
}

/// Identifier of a realm.
#[derive(Clone, Copy, PartialEq, Eq, PartialOrd, Ord, Hash, Default, Debug)]
pub struct RealmId(u64);

impl View for RealmId {
    type V = u64;

    closed spec fn view(&self) -> u64 {
        self.0
    }
}

impl RealmId {
    /// The null realm.
    pub fn null() -> (r: Self)
        ensures
            r@ == 0,
    {
        RealmId(0)
    }

    /// The init realm.
    pub fn init() -> (r: Self)
        ensures
            r@ == 1,
    {
        RealmId(1)
    }

    /// Wraps a raw identifier.
    pub fn new(id: u64) -> (r: Self)
        ensures
            r@ == id,
    {
        RealmId(id)
    }

    /// The raw identifier.
    pub fn as_u64(self) -> (r: u64)
        ensures
            r == self@,
    {
        self.0
    }

    /// Whether this is the null realm.
    pub fn is_null(self) -> (b: bool)
        ensures
            b == (self@ == 0),
    {
        self.0 == 0
    }
}

/// Identifier of a process.
#[derive(Clone, Copy, PartialEq, Eq, PartialOrd, Ord, Hash, Default, Debug)]
pub struct ProcessId(u64);

impl View for ProcessId {
    type V = u64;

    closed spec fn view(&self) -> u64 {
        self.0
    }
}

impl ProcessId {
    /// The null process.
    pub fn null() -> (r: Self)
        ensures
            r@ == 0,
    {
        ProcessId(0)
    }

    /// The init process.
    pub fn init() -> (r: Self)
        ensures
            r@ == 1,
    {
        ProcessId(1)
    }

    /// Wraps a raw identifier.
    pub fn new(id: u64) -> (r: Self)
        ensures
            r@ == id,
    {
        ProcessId(id)
    }

    /// The raw identifier.
    pub fn as_u64(self) -> (r: u64)
        ensures
            r == self@,
    {
        self.0
    }

    /// Whether this is the null process.
    pub fn is_null(self) -> (b: bool)
        ensures
            b == (self@ == 0),
    {
        self.0 == 0
    }
}

/// Index of a worker within a realm; always below [`WorkerId::MAX_WORKERS`].
#[derive(Clone, Copy, PartialEq, Eq, PartialOrd, Ord, Hash, Default, Debug)]
pub struct WorkerId(u16);

impl View for WorkerId {
    type V = u16;

    closed spec fn view(&self) -> u16 {
        self.0
    }
}

impl WorkerId {
    /// The first worker.
    pub fn first() -> (r: Self)
        ensures
            r@ == 0,
    {
        WorkerId(0)
    }

    /// Number of workers a realm may have.
    pub const MAX_WORKERS: u16 = 256;

    /// Whether a worker identifier is in range.
    pub closed spec fn valid(self) -> bool {
        self.0 < 256
    }

    /// Wraps an index, or `None` when it is not below [`Self::MAX_WORKERS`].
    pub fn new(id: u16) -> (r: Option<Self>)
        ensures
            r matches Some(w) ==> w@ == id && w.valid(),
            r is Some <==> id < 256,
    {
        if id < Self::MAX_WORKERS {
            Some(WorkerId(id))
        } else {
            None
        }
    }

    /// The raw index.
    pub fn as_u16(self) -> (r: u16)
        ensures
            r == self@,
    {
        self.0
    }

    /// The raw index as a `usize`.
    pub fn as_usize(self) -> (r: usize)
        ensures
            r == self@,
    {
        self.0 as usize
    }
}

/// A slot in a capability space.
#[derive(Clone, Copy, PartialEq, Eq, PartialOrd, Ord, Hash, Default, Debug)]
pub struct CapSlot(u64);

impl View for CapSlot {
    type V = u64;

    closed spec fn view(&self) -> u64 {
        self.0
    }
}

impl CapSlot {
    /// The null slot.
    pub fn null() -> (r: Self)
        ensures
            r@ == 0,
    {
        CapSlot(0)
    }

    /// The realm's own capability space.
    pub fn cspace() -> (r: Self)
        ensures
            r@ == 1,
    {
        CapSlot(1)
    }

    /// The realm's own address space.
    pub fn vspace() -> (r: Self)
        ensures
            r@ == 2,
    {
        CapSlot(2)
    }

    /// The thread's own control block.
    pub fn tcb_self() -> (r: Self)
        ensures
            r@ == 3,
    {
        CapSlot(3)
    }

    /// Endpoint to the memory manager.
    pub fn lmm_endpoint() -> (r: Self)
        ensures
            r@ == 4,
    {
        CapSlot(4)
    }

    /// The IPC buffer frame.
    pub fn ipc_buffer() -> (r: Self)
        ensures
            r@ == 5,
    {
        CapSlot(5)
    }

    /// The UART I/O port.
    pub fn ioport_uart() -> (r: Self)
        ensures
            r@ == 6,
    {
        CapSlot(6)
    }

    /// First slot free for dynamic use.
    pub fn first_free() -> (r: Self)
        ensures
            r@ == 16,
    {
        CapSlot(16)
    }

    /// Wraps a raw slot number.
    pub fn new(slot: u64) -> (r: Self)
        ensures
            r@ == slot,
    {
        CapSlot(slot)
    }

    /// The raw slot number.
    pub fn as_u64(self) -> (r: u64)
        ensures
            r == self@,
    {
        self.0
    }

    /// Whether this is the null slot.
    pub fn is_null(self) -> (b: bool)
        ensures
            b == (self@ == 0),
    {
        self.0 == 0
    }
}

} // verus!
