//! Physical frame allocator of a microkernel's memory subsystem.
//!
//! The frame-state store tracks every physical frame as free, allocated or
//! reserved, and hands out exclusively owned runs of frames as
//! [`PhysicalMemRegion`] values.

pub mod error;
pub mod utils;
pub mod physical_mem_region;
pub mod frame_allocator;
pub mod boot;

pub use error::KernelError;
pub use utils::{Splittable, ThreadState, check_thread_killed};
pub use physical_mem_region::{PhysicalMemRegion, MEMORY_FRAME_SIZE, MAX_FRAME_COUNT};
pub use frame_allocator::{FrameAllocator, FrameAllocatorTrait, FrameAllocatorTraitPrivate, FrameState};
pub use boot::{init, MemoryKind, MemoryMapEntry};
