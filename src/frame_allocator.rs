//! The frame-state store and the allocation algorithms built on it.

use vstd::prelude::*;
use crate::error::KernelError;
use crate::physical_mem_region::{PhysicalMemRegion, MAX_FRAME_COUNT};

verus! {

/// What the store knows of one physical frame.
#[derive(Debug, Clone, Copy, PartialEq, Eq, Structural)]
pub enum FrameState {
    /// Available for allocation.
    Free,
    /// Owned by exactly one live region.
    Allocated,
    /// Never handed out, never freed.
    Reserved,
}

/// Number of free frames in `s`.
pub open spec fn count_free(s: Seq<FrameState>) -> nat
    decreases s.len(),
{
    if s.len() == 0 {
        0
    } else {
        count_free(s.drop_last()) + if s.last() == FrameState::Free { 1nat } else { 0nat }
    }
}

/// Frames `[start, start + n)` all lie in `s` and are all in state `st`.
pub open spec fn all_in_state(s: Seq<FrameState>, start: int, n: int, st: FrameState) -> bool {
    0 <= start && start + n <= s.len() && forall|i: int| start <= i < start + n ==> s[i] == st
}

/// `s` with frames `[start, start + n)` put in state `st`.
pub open spec fn set_range(s: Seq<FrameState>, start: int, n: int, st: FrameState) -> Seq<FrameState> {
    Seq::new(s.len(), |i: int| if start <= i < start + n { st } else { s[i] })
}

/// The lowest index at or above `j` where a run of `n` free frames starts.
pub open spec fn first_fit_from(s: Seq<FrameState>, n: nat, j: int) -> Option<int>
    decreases s.len() + 1 - j,
{
    if j < 0 || j + n > s.len() {
        None
    } else if all_in_state(s, j, n as int, FrameState::Free) {
        Some(j)
    } else {
        first_fit_from(s, n, j + 1)
    }
}

/// The lowest index where a run of `n` free frames starts, if there is one.
pub open spec fn first_fit(s: Seq<FrameState>, n: nat) -> Option<int> {
    first_fit_from(s, n, 0)
}

/// `s` with every free frame below index `c` put in the allocated state.
pub open spec fn take_free_below(s: Seq<FrameState>, c: int) -> Seq<FrameState> {
    Seq::new(s.len(), |j: int| if j < c && s[j] == FrameState::Free { FrameState::Allocated } else { s[j] })
}

/// Sum of the frame counts of the regions in `v`.
pub open spec fn total_len(v: Seq<PhysicalMemRegion>) -> nat
    decreases v.len(),
{
    if v.len() == 0 {
        0
    } else {
        total_len(v.drop_last()) + v.last().len()
    }
}

/// The regions of `v` come in increasing order of frame index, none overlapping the next.
pub open spec fn sorted_disjoint(v: Seq<PhysicalMemRegion>) -> bool {
    forall|a: int, b: int| 0 <= a < b < v.len() ==> v[a].start_index() + v[a].len() <= v[b].start_index()
}

proof fn lemma_no_free(s: Seq<FrameState>)
    requires
        forall|j: int| 0 <= j < s.len() ==> s[j] != FrameState::Free,
    ensures
        count_free(s) == 0,
    decreases s.len(),
{
    if s.len() > 0 {
        lemma_no_free(s.drop_last());
    }
}

proof fn lemma_first_fit_found(s: Seq<FrameState>, n: nat, j: int, k: int)
    requires
        0 <= j <= k,
        all_in_state(s, k, n as int, FrameState::Free),
        forall|i: int| j <= i < k ==> !all_in_state(s, i, n as int, FrameState::Free),
    ensures
        first_fit_from(s, n, j) == Some(k),
    decreases k - j,
{
    if j < k {
        assert(!all_in_state(s, j, n as int, FrameState::Free));
        lemma_first_fit_found(s, n, j + 1, k);
    }
}

proof fn lemma_first_fit_none(s: Seq<FrameState>, n: nat, j: int)
    requires
        0 <= j,
        forall|i: int| j <= i ==> !all_in_state(s, i, n as int, FrameState::Free),
    ensures
        first_fit_from(s, n, j) is None,
    decreases s.len() + 1 - j,
{
    if j + n <= s.len() {
        lemma_first_fit_none(s, n, j + 1);
    }
}

/// A first fit starts a run of free frames, and no lower index does.
pub proof fn lemma_first_fit_is_lowest(s: Seq<FrameState>, n: nat, j: int)
    requires
        0 <= j,
        first_fit_from(s, n, j) is Some,
    ensures
        j <= first_fit_from(s, n, j)->Some_0,
        all_in_state(s, first_fit_from(s, n, j)->Some_0, n as int, FrameState::Free),
        forall|i: int| j <= i < first_fit_from(s, n, j)->Some_0 ==> !all_in_state(s, i, n as int, FrameState::Free),
    decreases s.len() + 1 - j,
{
    if !all_in_state(s, j, n as int, FrameState::Free) {
        lemma_first_fit_is_lowest(s, n, j + 1);
    }
}

proof fn lemma_count_free_update(s: Seq<FrameState>, i: int, st: FrameState)
    requires
        0 <= i < s.len(),
    ensures
        count_free(s.update(i, st)) + (if s[i] == FrameState::Free { 1int } else { 0int })
            == count_free(s) + (if st == FrameState::Free { 1int } else { 0int }),
    decreases s.len(),
{
    let t = s.update(i, st);
    if i == s.len() - 1 {
        assert(t.drop_last() =~= s.drop_last());
    } else {
        assert(t.drop_last() =~= s.drop_last().update(i, st));
        lemma_count_free_update(s.drop_last(), i, st);
    }
}

proof fn lemma_count_free_le_len(s: Seq<FrameState>)
    ensures
        count_free(s) <= s.len(),
    decreases s.len(),
{
    if s.len() > 0 {
        lemma_count_free_le_len(s.drop_last());
    }
}

/// The bookkeeping operations: the only ones that inspect or change the raw
/// state of frames. The release path of regions and the allocator use them.
pub trait FrameAllocatorTraitPrivate {
    /// The state of every frame the store tracks, by frame index.
    spec fn frame_states(&self) -> Seq<FrameState>;

    /// The store is consistent.
    spec fn inv(&self) -> bool;

    /// Marks a region as deallocated. Called when a region is released.
    ///
    /// Returns false, and changes nothing, when some frame of the region is
    /// not allocated: a double free or a corrupted store, which the caller
    /// must treat as fatal.
    fn free_region(&mut self, region: &PhysicalMemRegion) -> (r: bool)
        requires
            old(self).inv(),
        ensures
            final(self).inv(),
            r == all_in_state(old(self).frame_states(), region.start_index() as int, region.len() as int, FrameState::Allocated),
            r ==> final(self).frame_states() == set_range(old(self).frame_states(), region.start_index() as int, region.len() as int, FrameState::Free),
            !r ==> final(self).frame_states() == old(self).frame_states(),
    ;

    /// Checks if a region is marked allocated.
    fn check_is_allocated(&self, region: &PhysicalMemRegion) -> (r: bool)
        ensures
            r == all_in_state(self.frame_states(), region.start_index() as int, region.len() as int, FrameState::Allocated),
    ;

    /// Checks if a region is marked reserved.
    fn check_is_reserved(&self, region: &PhysicalMemRegion) -> (r: bool)
        ensures
            r == all_in_state(self.frame_states(), region.start_index() as int, region.len() as int, FrameState::Reserved),
    ;
}

/// The allocation entry points.
pub trait FrameAllocatorTrait: FrameAllocatorTraitPrivate {
    /// Allocates a single region of `nr_frames` physically consecutive frames:
    /// the first run of free frames long enough, scanning from frame 0.
    fn allocate_region(&mut self, nr_frames: usize) -> (r: Result<PhysicalMemRegion, KernelError>)
        requires
            old(self).inv(),
        ensures
            final(self).inv(),
            nr_frames == 0 ==> r == Err::<PhysicalMemRegion, KernelError>(KernelError::InvalidSize),
            nr_frames >= 1 && first_fit(old(self).frame_states(), nr_frames as nat) is None
                ==> r == Err::<PhysicalMemRegion, KernelError>(KernelError::PhysicalMemoryExhaustion),
            r is Err ==> final(self).frame_states() == old(self).frame_states(),
            nr_frames >= 1 && first_fit(old(self).frame_states(), nr_frames as nat) is Some ==> r is Ok,
            r is Ok ==> ({
                let start = first_fit(old(self).frame_states(), nr_frames as nat)->Some_0;
                &&& r->Ok_0.start_index() == start
                &&& r->Ok_0.len() == nr_frames
                &&& final(self).frame_states() == set_range(old(self).frame_states(), start, nr_frames as int, FrameState::Allocated)
            }),
    ;

    /// Allocates `nr` frames, possibly spread over several regions: the
    /// lowest `nr` free frames, grouped into runs of consecutive frames.
    /// When fewer than `nr` frames are free, nothing is allocated.
    fn allocate_frames_fragmented(&mut self, nr: usize) -> (r: Result<Vec<PhysicalMemRegion>, KernelError>)
        requires
            old(self).inv(),
        ensures
            final(self).inv(),
            nr == 0 ==> r == Err::<Vec<PhysicalMemRegion>, KernelError>(KernelError::InvalidSize),
            nr >= 1 && count_free(old(self).frame_states()) < nr
                ==> r == Err::<Vec<PhysicalMemRegion>, KernelError>(KernelError::PhysicalMemoryExhaustion),
            r is Err ==> final(self).frame_states() == old(self).frame_states(),
            nr >= 1 && count_free(old(self).frame_states()) >= nr ==> r is Ok,
            r is Ok ==> ({
                let v = r->Ok_0@;
                &&& total_len(v) == nr
                &&& sorted_disjoint(v)
                &&& forall|k: int| 0 <= k < v.len() - 1 ==> v[k].start_index() + v[k].len() < v[k + 1].start_index()
                &&& exists|c: int| #![trigger take_free_below(old(self).frame_states(), c)]
                    0 <= c <= old(self).frame_states().len()
                    && count_free(old(self).frame_states().take(c)) == nr
                    && final(self).frame_states() == take_free_below(old(self).frame_states(), c)
                    && forall|k: int, i: int| 0 <= k < v.len() && v[k].covers(i)
                        ==> i < c && old(self).frame_states()[i] == FrameState::Free
            }),
    ;

    /// Allocates a single physical frame.
    fn allocate_frame(&mut self) -> (r: Result<PhysicalMemRegion, KernelError>)
        requires
            old(self).inv(),
        ensures
            final(self).inv(),
            first_fit(old(self).frame_states(), 1) is None
                ==> r == Err::<PhysicalMemRegion, KernelError>(KernelError::PhysicalMemoryExhaustion),
            r is Err ==> final(self).frame_states() == old(self).frame_states(),
            first_fit(old(self).frame_states(), 1) is Some ==> r is Ok,
            r is Ok ==> ({
                let start = first_fit(old(self).frame_states(), 1)->Some_0;
                &&& r->Ok_0.start_index() == start
                &&& r->Ok_0.len() == 1
                &&& final(self).frame_states() == set_range(old(self).frame_states(), start, 1, FrameState::Allocated)
            }),
    {
        self.allocate_region(1)
    }
}

proof fn lemma_first_fit_none_means_no_run(s: Seq<FrameState>, n: nat, j: int)
    requires
        0 <= j,
        first_fit_from(s, n, j) is None,
    ensures
        forall|i: int| j <= i ==> !all_in_state(s, i, n as int, FrameState::Free),
    decreases s.len() + 1 - j,
{
    if j + n <= s.len() {
        lemma_first_fit_none_means_no_run(s, n, j + 1);
    }
}

/// When a run of `n` free frames exists (`n` at least 1), allocating `n`
/// frames succeeds: the region found has `n` frames, and every one of them is
/// allocated afterwards.
pub proof fn lemma_allocate_region_succeeds(s: Seq<FrameState>, n: nat)
    requires
        1 <= n <= count_free(s),
        exists|j: int| all_in_state(s, j, n as int, FrameState::Free),
    ensures
        first_fit(s, n) is Some,
        all_in_state(s, first_fit(s, n)->Some_0, n as int, FrameState::Free),
        all_in_state(set_range(s, first_fit(s, n)->Some_0, n as int, FrameState::Allocated),
            first_fit(s, n)->Some_0, n as int, FrameState::Allocated),
{
    if first_fit(s, n) is None {
        lemma_first_fit_none_means_no_run(s, n, 0);
        let j = choose|j: int| all_in_state(s, j, n as int, FrameState::Free);
        assert(!all_in_state(s, j, n as int, FrameState::Free));
    }
    lemma_first_fit_is_lowest(s, n, 0);
}

/// After the frames of a region are released, none of them is allocated any
/// more, and the allocation check on the region answers false.
pub proof fn lemma_released_frames_not_allocated(s: Seq<FrameState>, start: int, n: int)
    requires
        n >= 1,
        all_in_state(s, start, n, FrameState::Allocated),
    ensures
        forall|i: int| start <= i < start + n ==> set_range(s, start, n, FrameState::Free)[i] != FrameState::Allocated,
        !all_in_state(set_range(s, start, n, FrameState::Free), start, n, FrameState::Allocated),
{
    assert(set_range(s, start, n, FrameState::Free)[start] == FrameState::Free);
}

/// Two allocations made one after the other on the same store never return
/// overlapping frame ranges.
pub proof fn lemma_successive_allocations_disjoint(s: Seq<FrameState>, n1: nat, n2: nat)
    requires
        n1 >= 1,
        n2 >= 1,
        first_fit(s, n1) is Some,
        first_fit(set_range(s, first_fit(s, n1)->Some_0, n1 as int, FrameState::Allocated), n2) is Some,
    ensures
        ({
            let f1 = first_fit(s, n1)->Some_0;
            let f2 = first_fit(set_range(s, f1, n1 as int, FrameState::Allocated), n2)->Some_0;
            f1 + n1 <= f2 || f2 + n2 <= f1
        }),
{
    let f1 = first_fit(s, n1)->Some_0;
    let s1 = set_range(s, f1, n1 as int, FrameState::Allocated);
    lemma_first_fit_is_lowest(s, n1, 0);
    lemma_first_fit_is_lowest(s1, n2, 0);
    let f2 = first_fit(s1, n2)->Some_0;
    if !(f1 + n1 <= f2 || f2 + n2 <= f1) {
        let i = if f1 >= f2 { f1 } else { f2 };
        assert(s1[i] == FrameState::Allocated);
        assert(s1[i] == FrameState::Free);
    }
}

/// The frame-state store: the state of every physical frame, and how many are free.
#[derive(Debug)]
pub struct FrameAllocator {
    frames: Vec<FrameState>,
    free_count: usize,
}

impl View for FrameAllocator {
    type V = Seq<FrameState>;

    closed spec fn view(&self) -> Seq<FrameState> {
        self.frames@
    }
}

impl FrameAllocator {
    /// The free counter agrees with the table, and the table fits the
    /// physical address space.
    pub closed spec fn wf(&self) -> bool {
        &&& self.free_count == count_free(self.frames@)
        &&& self.frames@.len() <= MAX_FRAME_COUNT
    }

    /// How many frames the store tracks.
    pub fn frame_total(&self) -> (r: usize)
        ensures
            r == self@.len(),
    {
        self.frames.len()
    }

    /// How many frames are free.
    pub fn free_frames(&self) -> (r: usize)
        requires
            self.wf(),
        ensures
            r == count_free(self@),
    {
        self.free_count
    }

    /// The state of frame `index`, if the store tracks it.
    pub fn frame_state(&self, index: usize) -> (r: Option<FrameState>)
        ensures
            index < self@.len() ==> r == Some(self@[index as int]),
            index >= self@.len() ==> r is None,
    {
        if index < self.frames.len() {
            Some(self.frames[index])
        } else {
            None
        }
    }

    /// A store over `frames`, whose free counter is `free_count`.
    pub(crate) fn from_parts(frames: Vec<FrameState>, free_count: usize) -> (r: FrameAllocator)
        requires
            free_count == count_free(frames@),
            frames@.len() <= MAX_FRAME_COUNT,
        ensures
            r.wf(),
            r@ == frames@,
    {
        FrameAllocator { frames, free_count }
    }

    /// Puts frame `index` in the reserved state.
    pub(crate) fn set_reserved(&mut self, index: usize)
        requires
            old(self).wf(),
            index < old(self)@.len(),
        ensures
            final(self).wf(),
            final(self)@ == old(self)@.update(index as int, FrameState::Reserved),
    {
        proof {
            lemma_count_free_update(self.frames@, index as int, FrameState::Reserved);
        }
        if self.frames[index] == FrameState::Free {
            self.free_count = self.free_count - 1;
        }
        self.frames.set(index, FrameState::Reserved);
    }

    /// Marks a frame already used by the kernel image or the bootloader as
    /// allocated. Marking a frame twice is harmless. A reserved frame stays
    /// reserved, and an index past the store changes nothing.
    pub fn mark_frame_bootstrap_allocated(&mut self, frame_index: usize)
        requires
            old(self).wf(),
        ensures
            final(self).wf(),
            final(self)@ == (if frame_index < old(self)@.len() && old(self)@[frame_index as int] == FrameState::Free {
                old(self)@.update(frame_index as int, FrameState::Allocated)
            } else {
                old(self)@
            }),
    {
        if frame_index < self.frames.len() && self.frames[frame_index] == FrameState::Free {
            proof {
                lemma_count_free_update(self.frames@, frame_index as int, FrameState::Allocated);
            }
            self.frames.set(frame_index, FrameState::Allocated);
            self.free_count = self.free_count - 1;
        }
    }

    /// Puts frames `[start, start + n)`, all free, in the allocated state.
    fn mark_allocated(&mut self, start: usize, n: usize)
        requires
            old(self).wf(),
            all_in_state(old(self)@, start as int, n as int, FrameState::Free),
        ensures
            final(self).wf(),
            final(self)@ == set_range(old(self)@, start as int, n as int, FrameState::Allocated),
            count_free(final(self)@) + n == count_free(old(self)@),
    {
        let ghost s0 = self.frames@;
        let mut k: usize = start;
        while k < start + n
            invariant
                start <= k <= start + n,
                start + n <= s0.len(),
                self.frames@.len() == s0.len(),
                s0.len() <= MAX_FRAME_COUNT,
                all_in_state(s0, start as int, n as int, FrameState::Free),
                forall|i: int| 0 <= i < s0.len() ==> self.frames@[i] == (if start <= i < k { FrameState::Allocated } else { s0[i] }),
                self.free_count + (k - start) == count_free(s0),
                self.free_count == count_free(self.frames@),
            decreases start + n - k,
        {
            proof {
                lemma_count_free_update(self.frames@, k as int, FrameState::Allocated);
            }
            self.frames.set(k, FrameState::Allocated);
            self.free_count = self.free_count - 1;
            k = k + 1;
        }
        assert(self.frames@ =~= set_range(s0, start as int, n as int, FrameState::Allocated));
    }

    /// Finds the first run of `n` free frames, scanning from frame 0.
    fn find_first_fit(&self, n: usize) -> (r: Option<usize>)
        requires
            n >= 1,
        ensures
            r is Some <==> first_fit(self@, n as nat) is Some,
            r is Some ==> r->Some_0 == first_fit(self@, n as nat)->Some_0,
    {
        let ghost s = self.frames@;
        let len = self.frames.len();
        let mut i: usize = 0;
        let mut run: usize = 0;
        while i < len
            invariant
                len == s.len(),
                s == self.frames@,
                n >= 1,
                run <= i <= len,
                run < n,
                all_in_state(s, i - run, run as int, FrameState::Free),
                i - run == 0 || s[i - run - 1] != FrameState::Free,
                forall|j: int| 0 <= j && j + n <= i ==> !all_in_state(s, j, n as int, FrameState::Free),
            decreases len - i,
        {
            if self.frames[i] == FrameState::Free {
                run = run + 1;
            } else {
                run = 0;
            }
            i = i + 1;
            proof {
                assert forall|j: int| 0 <= j && j + n <= i && j < i - run implies !all_in_state(s, j, n as int, FrameState::Free) by {
                    if j + n <= i - 1 {
                    } else if s[i - 1] != FrameState::Free {
                        assert(!(s[i - 1] == FrameState::Free));
                    } else {
                        assert(s[i - run - 1] != FrameState::Free);
                    }
                }
            }
            if run == n {
                proof {
                    lemma_first_fit_found(s, n as nat, 0, i - n);
                }
                return Some(i - n);
            }
        }
        proof {
            lemma_first_fit_none(s, n as nat, 0);
        }
        None
    }
}

impl FrameAllocatorTraitPrivate for FrameAllocator {
    open spec fn frame_states(&self) -> Seq<FrameState> {
        self@
    }

    open spec fn inv(&self) -> bool {
        self.wf()
    }

    fn free_region(&mut self, region: &PhysicalMemRegion) -> (r: bool) {
        if !self.check_is_allocated(region) {
            return false;
        }
        let start = region.start_frame();
        let n = region.frame_count();
        let ghost s0 = self.frames@;
        let mut k: usize = start;
        while k < start + n
            invariant
                start <= k <= start + n,
                start + n <= s0.len(),
                self.frames@.len() == s0.len(),
                s0.len() <= MAX_FRAME_COUNT,
                all_in_state(s0, start as int, n as int, FrameState::Allocated),
                forall|i: int| 0 <= i < s0.len() ==> self.frames@[i] == (if start <= i < k { FrameState::Free } else { s0[i] }),
                self.free_count == count_free(self.frames@),
            decreases start + n - k,
        {
            proof {
                lemma_count_free_update(self.frames@, k as int, FrameState::Free);
                lemma_count_free_le_len(self.frames@.update(k as int, FrameState::Free));
            }
            self.frames.set(k, FrameState::Free);
            self.free_count = self.free_count + 1;
            k = k + 1;
        }
        assert(self.frames@ =~= set_range(s0, start as int, n as int, FrameState::Free));
        true
    }

    fn check_is_allocated(&self, region: &PhysicalMemRegion) -> (r: bool) {
        self.check_range_state(region, FrameState::Allocated)
    }

    fn check_is_reserved(&self, region: &PhysicalMemRegion) -> (r: bool) {
        self.check_range_state(region, FrameState::Reserved)
    }
}

impl FrameAllocatorTrait for FrameAllocator {
    fn allocate_region(&mut self, nr_frames: usize) -> (r: Result<PhysicalMemRegion, KernelError>) {
        if nr_frames == 0 {
            return Err(KernelError::InvalidSize);
        }
        match self.find_first_fit(nr_frames) {
            None => Err(KernelError::PhysicalMemoryExhaustion),
            Some(start) => {
                proof {
                    lemma_first_fit_is_lowest(self@, nr_frames as nat, 0);
                }
                self.mark_allocated(start, nr_frames);
                Ok(PhysicalMemRegion::new(start, nr_frames))
            },
        }
    }

    fn allocate_frames_fragmented(&mut self, nr: usize) -> (r: Result<Vec<PhysicalMemRegion>, KernelError>) {
        if nr == 0 {
            return Err(KernelError::InvalidSize);
        }
        if self.free_count < nr {
            return Err(KernelError::PhysicalMemoryExhaustion);
        }
        let ghost s0 = self.frames@;
        let len = self.frames.len();
        let mut v: Vec<PhysicalMemRegion> = Vec::new();
        let mut remaining: usize = nr;
        let mut i: usize = 0;
        proof {
            assert(s0.take(0) =~= Seq::<FrameState>::empty());
            assert(s0 =~= take_free_below(s0, 0));
        }
        while remaining > 0
            invariant
                self.wf(),
                s0 == old(self)@,
                len == s0.len(),
                len == self.frames@.len(),
                i <= len,
                remaining <= nr,
                count_free(s0) >= nr,
                self.frames@ == take_free_below(s0, i as int),
                count_free(s0.take(i as int)) + remaining == nr,
                count_free(self.frames@) + nr == count_free(s0) + remaining,
                total_len(v@) + remaining == nr,
                sorted_disjoint(v@),
                forall|k: int| 0 <= k < v@.len() - 1 ==> v@[k].start_index() + v@[k].len() < v@[k + 1].start_index(),
                forall|k: int| 0 <= k < v@.len() ==> v@[k].start_index() + v@[k].len() <= i,
                forall|k: int, j: int| 0 <= k < v@.len() && v@[k].covers(j) ==> j < i && s0[j] == FrameState::Free,
            decreases len - i,
        {
            if i == len {
                proof {
                    lemma_no_free(self.frames@);
                }
                assert(false);
            }
            proof {
                assert(s0.take(i + 1).drop_last() =~= s0.take(i as int));
            }
            if self.frames[i] == FrameState::Free {
                proof {
                    lemma_count_free_update(self.frames@, i as int, FrameState::Allocated);
                }
                self.frames.set(i, FrameState::Allocated);
                self.free_count = self.free_count - 1;
                let ghost v0 = v@;
                assert(s0[i as int] == FrameState::Free);
                let nv = v.len();
                if nv > 0 && v[nv - 1].start_frame() + v[nv - 1].frame_count() == i {
                    let last = v.pop().unwrap();
                    let grown = PhysicalMemRegion::new(last.start_frame(), last.frame_count() + 1);
                    v.push(grown);
                    proof {
                        assert(v@.drop_last() =~= v0.drop_last());
                        assert forall|k: int, j: int| 0 <= k < v@.len() && v@[k].covers(j) implies j < i + 1 && s0[j] == FrameState::Free by {
                            if k < v@.len() - 1 {
                                assert(v0[k].covers(j));
                            } else if j < i {
                                assert(v0[k].covers(j));
                            }
                        }
                    }
                } else {
                    v.push(PhysicalMemRegion::new(i, 1));
                    proof {
                        assert(v@.drop_last() =~= v0);
                        assert forall|k: int, j: int| 0 <= k < v@.len() && v@[k].covers(j) implies j < i + 1 && s0[j] == FrameState::Free by {
                            if k < v@.len() - 1 {
                                assert(v0[k].covers(j));
                            }
                        }
                    }
                }
                remaining = remaining - 1;
            }
            i = i + 1;
            proof {
                assert(self.frames@ =~= take_free_below(s0, i as int));
            }
        }
        proof {
            assert(take_free_below(old(self).frame_states(), i as int) == self.frame_states());
            assert(exists|c: int| #![trigger take_free_below(old(self).frame_states(), c)]
                    0 <= c <= old(self).frame_states().len()
                    && count_free(old(self).frame_states().take(c)) == nr
                    && self.frame_states() == take_free_below(old(self).frame_states(), c)
                    && forall|k: int, j: int| 0 <= k < v@.len() && v@[k].covers(j)
                        ==> j < c && old(self).frame_states()[j] == FrameState::Free);
        }
        Ok(v)
    }
}

impl FrameAllocator {
    /// Whether every frame of `region` is tracked and in state `st`.
    fn check_range_state(&self, region: &PhysicalMemRegion, st: FrameState) -> (r: bool)
        ensures
            r == all_in_state(self@, region.start_index() as int, region.len() as int, st),
    {
        let start = region.start_frame();
        let n = region.frame_count();
        if n > self.frames.len() || start > self.frames.len() - n {
            return false;
        }
        let end = start + n;
        let mut k: usize = start;
        while k < end
            invariant
                start <= k <= end,
                end == start + n,
                end <= self.frames@.len(),
                start == region.start_index(),
                n == region.len(),
                forall|i: int| start <= i < k ==> self.frames@[i] == st,
            decreases end - k,
        {
            if self.frames[k] != st {
                assert(self.frames@[k as int] != st);
                return false;
            }
            k = k + 1;
        }
        true
    }
}

} // verus!
