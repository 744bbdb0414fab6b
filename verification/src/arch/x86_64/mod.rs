//! The x86-64 processor: descriptor tables, paging and virtualisation.

pub mod descriptors;
pub mod entry;
pub mod ept;
pub mod exit_laws;
pub mod exits;
pub mod host_laws;
pub mod instructions;
pub mod launch;
pub mod launch_laws;
pub mod page_errors;
pub mod page_tree;
pub mod paging;
pub mod vm;
pub mod vmcs;
pub mod vmexit;
pub mod vmx;
