//! Runtime core of a freestanding host kernel: the arena allocator, the
//! C runtime shim, interrupt-controller configuration and the boot sequence.

pub mod boot;
pub mod heap;
pub mod libc;
pub mod pic;

pub use heap::StaticAlloc;
pub use pic::init;
