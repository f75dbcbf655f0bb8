//! Initial thread state of a realm worker.

use vstd::prelude::*;
use crate::abi::layout::{
    SHARED_CODE_BASE, WORKER_STACK_SIZE, WORKER_STACKS_BASE, WORKER_SLOT_SIZE, PAGE_SIZE,
    worker_ipc_buffer, worker_stack_base,
};
use crate::abi::types::WorkerId;

verus! {

/// Registers a worker thread starts with.
#[derive(Clone, Copy, Debug)]
pub struct InitialRegisters {
    /// Entry point.
    pub pc: u64,
    /// Top of the worker's stack.
    pub sp: u64,
    /// `[realm_id, worker_id, heap_start, heap_size, flags]`.
    pub args: [u64; 5],
}

impl InitialRegisters {
    /// The registers for a worker: entry at the shared code base, stack
    /// pointer at the top of the worker's stack, boot arguments in order.
    pub fn for_worker(
        worker_id: WorkerId,
        realm_id: u64,
        heap_start: u64,
        heap_size: u64,
        flags: u64,
    ) -> (r: Self)
        ensures
            r.pc == SHARED_CODE_BASE,
            r.sp == WORKER_STACKS_BASE + worker_id@ * WORKER_SLOT_SIZE + PAGE_SIZE
                + WORKER_STACK_SIZE,
            r.args@ == seq![realm_id, worker_id@ as u64, heap_start, heap_size, flags],
    {
        let worker_idx = worker_id.as_u16();
        let args = [realm_id, worker_idx as u64, heap_start, heap_size, flags];
        let r = InitialRegisters {
            pc: SHARED_CODE_BASE,
            sp: worker_stack_base(worker_idx) + WORKER_STACK_SIZE,
            args,
        };
        assert(r.args@ =~= seq![realm_id, worker_id@ as u64, heap_start, heap_size, flags]);
        r
    }
}

/// Address of the worker's IPC buffer.
pub fn ipc_buffer_vaddr(worker_id: WorkerId) -> (r: u64)
    ensures
        r == WORKER_STACKS_BASE + worker_id@ * WORKER_SLOT_SIZE + PAGE_SIZE + WORKER_STACK_SIZE
            + PAGE_SIZE,
{
    worker_ipc_buffer(worker_id.as_u16())
}

} // verus!
