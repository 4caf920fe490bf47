//! An exclusively owned run of physically consecutive frames.

use vstd::prelude::*;
use crate::error::KernelError;
use crate::utils::Splittable;

verus! {

/// The size of a physical frame, in bytes.
pub const MEMORY_FRAME_SIZE: usize = 4096;

/// How many frames the physical address space holds (4 GiB of 4 KiB frames).
pub const MAX_FRAME_COUNT: usize = 0x10_0000;

/// A run of physically consecutive frames, owned by whoever holds this value.
///
/// It is made only by the allocator or by splitting another region. It is not
/// `Clone`: at most one live region covers a given frame.
#[derive(Debug)]
pub struct PhysicalMemRegion {
    start_frame: usize,
    frame_count: usize,
}

impl PhysicalMemRegion {
    /// Index of the first frame covered.
    pub closed spec fn start_index(&self) -> nat {
        self.start_frame as nat
    }

    /// Number of frames covered.
    pub closed spec fn len(&self) -> nat {
        self.frame_count as nat
    }

    /// A region covers at least one frame, all inside the physical address space.
    #[verifier::type_invariant]
    closed spec fn inv(&self) -> bool {
        self.frame_count >= 1 && self.start_frame + self.frame_count <= MAX_FRAME_COUNT
    }

    /// Whether frame `i` is one of the frames covered.
    pub open spec fn covers(&self, i: int) -> bool {
        self.start_index() <= i < self.start_index() + self.len()
    }

    /// The region of `frame_count` frames from frame `start_frame` on.
    pub(crate) fn new(start_frame: usize, frame_count: usize) -> (r: PhysicalMemRegion)
        requires
            frame_count >= 1,
            start_frame + frame_count <= MAX_FRAME_COUNT,
        ensures
            r.start_index() == start_frame,
            r.len() == frame_count,
    {
        PhysicalMemRegion { start_frame, frame_count }
    }

    /// The index of the first frame of the region.
    pub fn start_frame(&self) -> (r: usize)
        ensures
            r == self.start_index(),
    {
        self.start_frame
    }

    /// The number of frames of the region.
    pub fn frame_count(&self) -> (r: usize)
        ensures
            r == self.len(),
            r >= 1,
    {
        proof { use_type_invariant(self); }
        self.frame_count
    }

    /// The physical address of the region's first byte.
    pub fn start_address(&self) -> (r: usize)
        ensures
            r == self.start_index() * MEMORY_FRAME_SIZE,
    {
        proof { use_type_invariant(self); }
        self.start_frame * MEMORY_FRAME_SIZE
    }

    /// The physical address of every frame of the region, in order.
    pub fn frame_addresses(&self) -> (r: Vec<usize>)
        ensures
            r@.len() == self.len(),
            forall|k: int| 0 <= k < r@.len() ==> r@[k] == (self.start_index() + k) * MEMORY_FRAME_SIZE,
    {
        proof { use_type_invariant(self); }
        let mut r: Vec<usize> = Vec::new();
        let mut k: usize = 0;
        while k < self.frame_count
            invariant
                k <= self.frame_count,
                self.start_frame + self.frame_count <= MAX_FRAME_COUNT,
                r@.len() == k,
                forall|j: int| 0 <= j < k ==> r@[j] == (self.start_frame + j) * MEMORY_FRAME_SIZE,
            decreases self.frame_count - k,
        {
            r.push((self.start_frame + k) * MEMORY_FRAME_SIZE);
            k = k + 1;
        }
        r
    }
}

impl Splittable for PhysicalMemRegion {
    open spec fn split_start(&self) -> int {
        self.start_index() as int
    }

    open spec fn split_len(&self) -> nat {
        self.len()
    }

    /// Splits at `offset` frames. No frame changes state: both halves stay
    /// allocated, and each half is then responsible for its own frames.
    fn split_at(&mut self, offset: usize) -> (r: Result<Option<Self>, KernelError>) {
        proof { use_type_invariant(&*self); }
        if offset == 0 || offset >= self.frame_count {
            return Ok(None);
        }
        let right = PhysicalMemRegion {
            start_frame: self.start_frame + offset,
            frame_count: self.frame_count - offset,
        };
        self.frame_count = offset;
        Ok(Some(right))
    }
}

} // verus!
