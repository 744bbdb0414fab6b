//! What depends on the processor's architecture.

pub mod x86_64;
