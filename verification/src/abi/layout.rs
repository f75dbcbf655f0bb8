//! Fixed virtual address layout of every realm.
//!
//! ```text
//! 0x0000_0000_0000_0000  NULL guard (4 KB)
//! 0x0000_0000_1000_0000  Worker stacks (256 MB)
//! 0x0000_0001_0000_0000  Shared code (4 GB)
//! 0x0000_0002_0000_0000  Inherited regions (64 GB)
//! 0x0000_0012_0000_0000  Realm-local data (4 GB)
//! 0x0000_0013_0000_0000  Realm binary heap (16 GB)
//! 0x0000_0020_0000_0000  Process pool (240 GB)
//! 0x0000_00F0_0000_0000  MMIO (16 GB)
//! ```

use vstd::prelude::*;

verus! {

/// One gigabyte.
pub const GB: u64 = 1024 * 1024 * 1024;

/// One megabyte.
pub const MB: u64 = 1024 * 1024;

/// One kilobyte.
pub const KB: u64 = 1024;

/// Page size (4 KB).
pub const PAGE_SIZE: u64 = 4 * KB;

/// Large page size (2 MB).
pub const LARGE_PAGE_SIZE: u64 = 2 * MB;

/// log2 of [`PAGE_SIZE`].
pub const PAGE_SHIFT: u32 = 12;

/// log2 of [`LARGE_PAGE_SIZE`].
pub const LARGE_PAGE_SHIFT: u32 = 21;

/// Base of the never-mapped NULL guard.
pub const NULL_GUARD_BASE: u64 = 0x0000_0000_0000_0000;

/// Size of the NULL guard.
pub const NULL_GUARD_SIZE: u64 = PAGE_SIZE;

/// Base of the worker stacks region.
pub const WORKER_STACKS_BASE: u64 = 0x0000_0000_1000_0000;

/// Size of the worker stacks region.
pub const WORKER_STACKS_SIZE: u64 = 256 * MB;

/// Stack size of one worker.
pub const WORKER_STACK_SIZE: u64 = 256 * KB;

/// IPC buffer size of one worker.
pub const WORKER_IPC_BUFFER_SIZE: u64 = PAGE_SIZE;

/// One worker slot: guard, stack, guard, IPC buffer.
pub const WORKER_SLOT_SIZE: u64 = WORKER_STACK_SIZE + WORKER_IPC_BUFFER_SIZE + 2 * PAGE_SIZE;

/// Base of the shared code region.
pub const SHARED_CODE_BASE: u64 = 0x0000_0001_0000_0000;

/// Size of the shared code region.
pub const SHARED_CODE_SIZE: u64 = 4 * GB;

/// Base of the inherited regions.
pub const INHERITED_BASE: u64 = 0x0000_0002_0000_0000;

/// Size of the inherited regions.
pub const INHERITED_SIZE: u64 = 64 * GB;

/// Size of one ancestor's slot (code and binary).
pub const ANCESTOR_SLOT_SIZE: u64 = 5 * GB;

/// Code part of an ancestor slot.
pub const ANCESTOR_CODE_SIZE: u64 = GB;

/// Binary part of an ancestor slot.
pub const ANCESTOR_BINARY_SIZE: u64 = 4 * GB;

/// Deepest supported ancestry.
pub const MAX_ANCESTORS: u64 = INHERITED_SIZE / ANCESTOR_SLOT_SIZE;

/// Base of realm-local data.
pub const REALM_LOCAL_BASE: u64 = 0x0000_0012_0000_0000;

/// Size of realm-local data.
pub const REALM_LOCAL_SIZE: u64 = 4 * GB;

/// Base of the realm binary heap.
pub const REALM_BINARY_BASE: u64 = 0x0000_0013_0000_0000;

/// Size of the realm binary heap.
pub const REALM_BINARY_SIZE: u64 = 16 * GB;

/// Base of the process pool.
pub const PROCESS_POOL_BASE: u64 = 0x0000_0020_0000_0000;

/// Size of the process pool.
pub const PROCESS_POOL_SIZE: u64 = 240 * GB;

/// Base of the MMIO region.
pub const MMIO_BASE: u64 = 0x0000_00F0_0000_0000;

/// Size of the MMIO region.
pub const MMIO_SIZE: u64 = 16 * GB;

/// Where the UART is mapped.
pub const UART_VADDR: u64 = MMIO_BASE;

/// Initial heap of the init realm (32 KB).
pub const INIT_HEAP_SIZE: u64 = 32 * KB;

/// Which region a faulting address falls in.
#[derive(Debug, Clone, Copy, PartialEq, Eq, Structural)]
pub enum FaultRegion {
    /// The process pool.
    ProcessPool,
    /// The realm binary heap.
    RealmBinary,
    /// Realm-local data.
    RealmLocal,
    /// A worker's stack slot, with the worker index.
    WorkerStack(u16),
    /// Anywhere else.
    Invalid,
}

/// `lo <= addr < lo + size`.
pub open spec fn in_range(addr: u64, lo: u64, size: u64) -> bool {
    lo <= addr && addr < lo + size
}

/// The region classification of an address.
pub open spec fn region_of(addr: u64) -> FaultRegion {
    if addr < PAGE_SIZE {
        FaultRegion::Invalid
    } else if in_range(addr, WORKER_STACKS_BASE, WORKER_STACKS_SIZE) {
        FaultRegion::WorkerStack(((addr - WORKER_STACKS_BASE) / (WORKER_SLOT_SIZE as int)) as u16)
    } else if in_range(addr, PROCESS_POOL_BASE, PROCESS_POOL_SIZE) {
        FaultRegion::ProcessPool
    } else if in_range(addr, REALM_BINARY_BASE, REALM_BINARY_SIZE) {
        FaultRegion::RealmBinary
    } else if in_range(addr, REALM_LOCAL_BASE, REALM_LOCAL_SIZE) {
        FaultRegion::RealmLocal
    } else {
        FaultRegion::Invalid
    }
}

impl FaultRegion {
    /// Classifies a faulting address.
    pub fn from_addr(addr: u64) -> (r: Self)
        ensures
            r == region_of(addr),
    {
        if addr < PAGE_SIZE {
            return FaultRegion::Invalid;
        }
        if addr >= WORKER_STACKS_BASE && addr < WORKER_STACKS_BASE + WORKER_STACKS_SIZE {
            let offset = addr - WORKER_STACKS_BASE;
            let worker = (offset / WORKER_SLOT_SIZE) as u16;
            return FaultRegion::WorkerStack(worker);
        }
        if addr >= PROCESS_POOL_BASE && addr < PROCESS_POOL_BASE + PROCESS_POOL_SIZE {
            return FaultRegion::ProcessPool;
        }
        if addr >= REALM_BINARY_BASE && addr < REALM_BINARY_BASE + REALM_BINARY_SIZE {
            return FaultRegion::RealmBinary;
        }
        if addr >= REALM_LOCAL_BASE && addr < REALM_LOCAL_BASE + REALM_LOCAL_SIZE {
            return FaultRegion::RealmLocal;
        }
        FaultRegion::Invalid
    }

    /// Whether the address lies in a known region.
    pub fn is_mappable(&self) -> (b: bool)
        ensures
            b == !(*self is Invalid),
    {
        !matches!(self, FaultRegion::Invalid)
    }
}

/// Kind of a region of a realm's address space.
#[derive(Clone, Copy, Debug, PartialEq, Eq, Structural)]
pub enum RegionType {
    /// Never mapped.
    Guard,
    /// Shared VM code.
    SharedCode,
    /// Shared VM read-only data.
    SharedData,
    /// Inherited from an ancestor.
    Inherited,
    /// Realm-local data.
    RealmLocal,
    /// Realm binary heap.
    RealmBinary,
    /// Process pool.
    ProcessPool,
    /// Worker stack.
    WorkerStack,
    /// Device memory.
    Mmio,
}

/// Access rights of a region.
#[derive(Clone, Copy, Debug, PartialEq, Eq, Structural)]
pub enum Permissions {
    /// No access.
    NoAccess,
    /// Read only.
    ReadOnly,
    /// Read and write.
    ReadWrite,
    /// Read and execute.
    ReadExecute,
}

impl Permissions {
    /// Whether reading is allowed.
    pub fn can_read(self) -> (b: bool)
        ensures
            b == !(self is NoAccess),
    {
        !matches!(self, Permissions::NoAccess)
    }

    /// Whether writing is allowed.
    pub fn can_write(self) -> (b: bool)
        ensures
            b == (self is ReadWrite),
    {
        matches!(self, Permissions::ReadWrite)
    }

    /// Whether executing is allowed.
    pub fn can_execute(self) -> (b: bool)
        ensures
            b == (self is ReadExecute),
    {
        matches!(self, Permissions::ReadExecute)
    }
}

/// Start of the code part of an ancestor's slot.
pub fn ancestor_code_base(ancestor_level: u8) -> (r: u64)
    ensures
        r == INHERITED_BASE + ancestor_level * ANCESTOR_SLOT_SIZE,
        r <= INHERITED_BASE + 255 * ANCESTOR_SLOT_SIZE,
{
    assert(ancestor_level * ANCESTOR_SLOT_SIZE <= 255 * 5368709120) by (nonlinear_arith)
        requires
            ancestor_level <= 255,
            ANCESTOR_SLOT_SIZE == 5368709120,
    ;
    INHERITED_BASE + (ancestor_level as u64) * ANCESTOR_SLOT_SIZE
}

/// Start of the binary part of an ancestor's slot.
pub fn ancestor_binary_base(ancestor_level: u8) -> (r: u64)
    ensures
        r == INHERITED_BASE + ancestor_level * ANCESTOR_SLOT_SIZE + ANCESTOR_CODE_SIZE,
{
    ancestor_code_base(ancestor_level) + ANCESTOR_CODE_SIZE
}

/// Lowest address of a worker's stack (just above its lower guard page).
pub fn worker_stack_base(worker_index: u16) -> (r: u64)
    ensures
        r == WORKER_STACKS_BASE + worker_index * WORKER_SLOT_SIZE + PAGE_SIZE,
        r <= WORKER_STACKS_BASE + 65535 * WORKER_SLOT_SIZE + PAGE_SIZE,
{
    proof {
        lemma_slot_offset_bound(worker_index);
    }
    WORKER_STACKS_BASE + (worker_index as u64) * WORKER_SLOT_SIZE + PAGE_SIZE
}

/// Address of a worker's IPC buffer (above its stack and upper guard page).
pub fn worker_ipc_buffer(worker_index: u16) -> (r: u64)
    ensures
        r == WORKER_STACKS_BASE + worker_index * WORKER_SLOT_SIZE + PAGE_SIZE + WORKER_STACK_SIZE
            + PAGE_SIZE,
{
    proof {
        lemma_slot_offset_bound(worker_index);
    }
    WORKER_STACKS_BASE + (worker_index as u64) * WORKER_SLOT_SIZE + PAGE_SIZE + WORKER_STACK_SIZE
        + PAGE_SIZE
}

proof fn lemma_slot_offset_bound(w: u16)
    ensures
        w * WORKER_SLOT_SIZE <= 65535 * 274432,
        WORKER_SLOT_SIZE == 274432,
{
    assert(w * 274432 <= 65535 * 274432) by (nonlinear_arith)
        requires
            w <= 65535,
    ;
}

/// Whether an address lies in the inherited regions.
pub fn is_inherited_region(addr: u64) -> (b: bool)
    ensures
        b == in_range(addr, INHERITED_BASE, INHERITED_SIZE),
{
    addr >= INHERITED_BASE && addr < INHERITED_BASE + INHERITED_SIZE
}

/// The regions follow one another in address order without overlap, and
/// at least twelve ancestors fit.
pub proof fn law_regions_ordered()
    ensures
        NULL_GUARD_BASE + NULL_GUARD_SIZE <= WORKER_STACKS_BASE,
        WORKER_STACKS_BASE + WORKER_STACKS_SIZE <= SHARED_CODE_BASE,
        SHARED_CODE_BASE + SHARED_CODE_SIZE <= INHERITED_BASE,
        INHERITED_BASE + INHERITED_SIZE <= REALM_LOCAL_BASE,
        REALM_LOCAL_BASE + REALM_LOCAL_SIZE <= REALM_BINARY_BASE,
        REALM_BINARY_BASE + REALM_BINARY_SIZE <= PROCESS_POOL_BASE,
        PROCESS_POOL_BASE + PROCESS_POOL_SIZE <= MMIO_BASE,
        MAX_ANCESTORS >= 12,
{
    assert(MAX_ANCESTORS == 68719476736u64 / 5368709120u64);
}

/// A worker's stack lies below its IPC buffer, which lies below the next
/// worker's stack, and the slots of the first 256 workers fit in the
/// worker stacks region.
pub proof fn law_worker_slots_ordered(w: u16)
    requires
        w < 256,
    ensures
        WORKER_STACKS_BASE + w * WORKER_SLOT_SIZE + PAGE_SIZE
            < WORKER_STACKS_BASE + w * WORKER_SLOT_SIZE + PAGE_SIZE + WORKER_STACK_SIZE + PAGE_SIZE,
        WORKER_STACKS_BASE + w * WORKER_SLOT_SIZE + PAGE_SIZE + WORKER_STACK_SIZE + PAGE_SIZE
            + WORKER_IPC_BUFFER_SIZE <= WORKER_STACKS_BASE + (w + 1) * WORKER_SLOT_SIZE,
        WORKER_STACKS_BASE + (w + 1) * WORKER_SLOT_SIZE <= WORKER_STACKS_BASE
            + WORKER_STACKS_SIZE,
{
    assert((w + 1) * WORKER_SLOT_SIZE == w * WORKER_SLOT_SIZE + WORKER_SLOT_SIZE) by (nonlinear_arith);
    assert((w + 1) * WORKER_SLOT_SIZE <= 256 * WORKER_SLOT_SIZE) by (nonlinear_arith)
        requires w < 256;
}

/// An address inside a worker's stack is classified as that worker's stack.
pub proof fn law_stack_address_classified(w: u16, off: u64)
    requires
        w < 256,
        off < WORKER_STACK_SIZE,
    ensures
        region_of((WORKER_STACKS_BASE + w * WORKER_SLOT_SIZE + PAGE_SIZE + off) as u64)
            == FaultRegion::WorkerStack(w),
{
    law_worker_slots_ordered(w);
    let a = (WORKER_STACKS_BASE + w * WORKER_SLOT_SIZE + PAGE_SIZE + off) as u64;
    assert((a - WORKER_STACKS_BASE) / (WORKER_SLOT_SIZE as int) == w) by (nonlinear_arith)
        requires
            a - WORKER_STACKS_BASE == w * WORKER_SLOT_SIZE + PAGE_SIZE + off,
            PAGE_SIZE + off < WORKER_SLOT_SIZE,
            WORKER_SLOT_SIZE > 0,
    ;
}

} // verus!
