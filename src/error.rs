//! Errors surfaced by the kernel's memory subsystem.

use vstd::prelude::*;

verus! {

/// The recoverable failures of the memory subsystem.
#[derive(Debug, Clone, Copy, PartialEq, Eq, Structural)]
pub enum KernelError {
    /// Not enough free physical frames to satisfy a request.
    PhysicalMemoryExhaustion,
    /// A size argument that the operation cannot honour (such as zero frames).
    InvalidSize,
}

} // verus!
