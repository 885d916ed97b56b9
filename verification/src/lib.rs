//! Guest-resource core of a small hypervisor: guest physical address spaces,
//! the VM / vCPU container, and the emulated port-I/O devices with their
//! per-VM registry.

pub mod addr;
pub mod config;
pub mod devices;
pub mod error;
pub mod fifo;
pub mod flags;
pub mod i8259_pic;
pub mod page_table;
pub mod port_io;
pub mod uart16550;
pub mod memory;
pub mod vm;
