//! A small x86-64 hypervisor core: early memory allocation, host page tables,
//! descriptor tables and the virtual-machine life cycle, each with a verified
//! contract. Everything here computes on plain values; the code that touches
//! the processor or the firmware is outside the library.

pub mod arch;
pub mod boot;
pub mod boot_alloc;
pub mod confinement;
pub mod core_laws;
pub mod firmware;
pub mod guest_start;
pub mod hypervisor;
pub mod loader_laws;
pub mod machine;
pub mod memory;
pub mod phys;
pub mod serial;
pub mod stages;
pub mod uefi;
