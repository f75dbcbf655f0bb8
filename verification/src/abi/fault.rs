//! Fault descriptions delivered to the memory manager.

use vstd::prelude::*;
use crate::abi::types::Vaddr;

verus! {

/// seL4 fault label of a VM fault.
pub const SEL4_FAULT_VM_FAULT: u64 = 5;

/// seL4 fault label of a timeout fault (MCS scheduler).
pub const SEL4_FAULT_TIMEOUT: u64 = 6;

/// A VM fault as read from the four message registers.
#[derive(Debug, Clone, Copy)]
pub struct VmFaultInfo {
    /// Faulting instruction pointer.
    pub ip: u64,
    /// Faulting virtual address.
    pub addr: Vaddr,
    /// Whether the fault was an instruction fetch.
    pub is_prefetch: bool,
    /// Architecture-specific fault status.
    pub fsr: u64,
}

impl VmFaultInfo {
    /// Reads a VM fault from registers `[ip, addr, prefetch, fsr]`.
    pub fn from_mrs(mrs: [u64; 4]) -> (r: Self)
        ensures
            r.ip == mrs[0],
            r.addr@ == mrs[1],
            r.is_prefetch == (mrs[2] != 0),
            r.fsr == mrs[3],
    {
        VmFaultInfo { ip: mrs[0], addr: Vaddr::new(mrs[1]), is_prefetch: mrs[2] != 0, fsr: mrs[3] }
    }
}

/// A fault that occurred in a realm.
#[derive(Clone, Copy, Debug)]
pub struct FaultInfo {
    /// Kind of fault.
    pub fault_type: FaultType,
    /// Address that caused the fault.
    pub fault_addr: u64,
    /// Instruction pointer at the fault.
    pub ip: u64,
    /// Whether the access was a write.
    pub is_write: bool,
    /// Whether the access was an instruction fetch.
    pub is_instruction: bool,
}

impl FaultInfo {
    /// A page fault on a data access.
    pub fn page_fault(fault_addr: u64, ip: u64, is_write: bool) -> (r: Self)
        ensures
            r.fault_type == FaultType::PageFault,
            r.fault_addr == fault_addr,
            r.ip == ip,
            r.is_write == is_write,
            !r.is_instruction,
    {
        FaultInfo { fault_type: FaultType::PageFault, fault_addr, ip, is_write, is_instruction: false }
    }

    /// A page fault on an instruction fetch.
    pub fn instruction_fault(fault_addr: u64, ip: u64) -> (r: Self)
        ensures
            r.fault_type == FaultType::PageFault,
            r.fault_addr == fault_addr,
            r.ip == ip,
            !r.is_write,
            r.is_instruction,
    {
        FaultInfo { fault_type: FaultType::PageFault, fault_addr, ip, is_write: false, is_instruction: true }
    }
}

/// Kind of fault.
#[derive(Clone, Copy, Debug, PartialEq, Eq, Structural)]
pub enum FaultType {
    /// Access to an unmapped address.
    PageFault,
    /// Invalid capability operation.
    CapFault,
    /// Unknown system call.
    UnknownSyscall,
    /// CPU exception.
    UserException,
}

impl FaultType {
    /// Whether the fault can be resolved by mapping memory.
    pub fn is_recoverable(self) -> (b: bool)
        ensures
            b == (self == FaultType::PageFault),
    {
        matches!(self, FaultType::PageFault)
    }

    /// The numeric code of the fault kind.
    pub fn code(self) -> (c: u8)
        ensures
            c == (match self {
                FaultType::PageFault => 0u8,
                FaultType::CapFault => 1u8,
                FaultType::UnknownSyscall => 2u8,
                FaultType::UserException => 3u8,
            }),
    {
        match self {
            FaultType::PageFault => 0,
            FaultType::CapFault => 1,
            FaultType::UnknownSyscall => 2,
            FaultType::UserException => 3,
        }
    }

    /// A human-readable name.
    pub fn name(self) -> (s: &'static str)
        ensures
            s@ == (match self {
                FaultType::PageFault => "page fault"@,
                FaultType::CapFault => "capability fault"@,
                FaultType::UnknownSyscall => "unknown syscall"@,
                FaultType::UserException => "user exception"@,
            }),
    {
        match self {
            FaultType::PageFault => "page fault",
            FaultType::CapFault => "capability fault",
            FaultType::UnknownSyscall => "unknown syscall",
            FaultType::UserException => "user exception",
        }
    }
}

} // verus!
