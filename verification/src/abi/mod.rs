//! Definitions shared between the memory manager and the realms it starts:
//! identifiers, addresses, the virtual address layout, the boot protocol,
//! fault descriptions and the IPC message formats.

pub mod boot;
pub mod fault;
pub mod ipc;
pub mod layout;
pub mod tcb;
pub mod types;
