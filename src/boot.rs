//! Boot-time setup of the frame-state store from the boot memory map.

use vstd::prelude::*;
use vstd::arithmetic::div_mod::lemma_div_is_ordered;
use crate::frame_allocator::{FrameAllocator, FrameState, count_free};
use crate::physical_mem_region::{MEMORY_FRAME_SIZE, MAX_FRAME_COUNT};

verus! {

/// What the boot memory map says of a range of physical memory.
#[derive(Debug, Clone, Copy, PartialEq, Eq, Structural)]
pub enum MemoryKind {
    /// Memory the allocator may hand out.
    Usable,
    /// Memory the allocator must never hand out.
    Reserved,
}

/// One range of the boot memory map, in bytes.
#[derive(Debug, Clone, Copy, PartialEq, Eq, Structural)]
pub struct MemoryMapEntry {
    pub start: u64,
    pub length: u64,
    pub kind: MemoryKind,
}

/// Index of the first frame that the entry's bytes touch.
pub open spec fn entry_first_frame(e: MemoryMapEntry) -> int {
    (e.start as int) / (MEMORY_FRAME_SIZE as int)
}

/// One past the index of the last frame that the entry's bytes touch
/// (0 for an empty entry).
pub open spec fn entry_frame_end(e: MemoryMapEntry) -> int {
    if e.length == 0 {
        0
    } else {
        (e.start + e.length - 1) / (MEMORY_FRAME_SIZE as int) + 1
    }
}

/// One past the highest frame that any entry of the map touches.
pub open spec fn map_frame_end(m: Seq<MemoryMapEntry>) -> int
    decreases m.len(),
{
    if m.len() == 0 {
        0
    } else {
        let a = map_frame_end(m.drop_last());
        let b = entry_frame_end(m.last());
        if a >= b { a } else { b }
    }
}

/// How many frames the store built from map `m` tracks: up to the highest
/// address reported, within the physical address space.
pub open spec fn store_len(m: Seq<MemoryMapEntry>) -> int {
    let e = map_frame_end(m);
    if e <= MAX_FRAME_COUNT { e } else { MAX_FRAME_COUNT as int }
}

/// Frame `i` is touched by an entry of `m` marked reserved.
pub open spec fn reserved_in_map(m: Seq<MemoryMapEntry>, i: int) -> bool {
    exists|k: int| #![trigger m[k]]
        0 <= k < m.len() && m[k].kind == MemoryKind::Reserved
            && entry_first_frame(m[k]) <= i < entry_frame_end(m[k])
}

/// The state of frame `i` in the store built from map `m`.
pub open spec fn boot_state(m: Seq<MemoryMapEntry>, i: int) -> FrameState {
    if reserved_in_map(m, i) { FrameState::Reserved } else { FrameState::Free }
}

proof fn lemma_map_frame_end_bound(m: Seq<MemoryMapEntry>, k: int)
    requires
        0 <= k < m.len(),
    ensures
        entry_frame_end(m[k]) <= map_frame_end(m),
    decreases m.len(),
{
    if k < m.len() - 1 {
        lemma_map_frame_end_bound(m.drop_last(), k);
    }
}

proof fn lemma_count_free_all_free(s: Seq<FrameState>)
    requires
        forall|i: int| 0 <= i < s.len() ==> s[i] == FrameState::Free,
    ensures
        count_free(s) == s.len(),
    decreases s.len(),
{
    if s.len() > 0 {
        lemma_count_free_all_free(s.drop_last());
    }
}

/// `entry_frame_end` of `e`, capped at the size of the physical address space.
fn capped_frame_end(e: &MemoryMapEntry) -> (r: usize)
    ensures
        r == (if entry_frame_end(*e) <= MAX_FRAME_COUNT { entry_frame_end(*e) } else { MAX_FRAME_COUNT as int }),
{
    if e.length == 0 {
        return 0;
    }
    let last: u64 = if e.length - 1 > u64::MAX - e.start { u64::MAX } else { e.start + (e.length - 1) };
    let q: u64 = last / 4096;
    proof {
        if last == u64::MAX {
            lemma_div_is_ordered(u64::MAX as int, e.start + e.length - 1, 4096);
        }
    }
    if q >= MAX_FRAME_COUNT as u64 {
        MAX_FRAME_COUNT
    } else {
        (q + 1) as usize
    }
}

/// Builds the frame-state store from the boot memory map: it covers every
/// frame up to the highest address reported, each free unless a reserved
/// entry touches it.
pub fn init(memory_map: &Vec<MemoryMapEntry>) -> (r: FrameAllocator)
    ensures
        r.wf(),
        r@.len() == store_len(memory_map@),
        forall|i: int| 0 <= i < r@.len() ==> r@[i] == boot_state(memory_map@, i),
{
    let m = memory_map;
    let mut n: usize = 0;
    let mut k: usize = 0;
    while k < m.len()
        invariant
            k <= m@.len(),
            n == store_len(m@.take(k as int)),
        decreases m@.len() - k,
    {
        proof {
            assert(m@.take(k + 1).drop_last() =~= m@.take(k as int));
        }
        let end = capped_frame_end(&m[k]);
        if end > n {
            n = end;
        }
        k = k + 1;
    }
    proof {
        assert(m@.take(m@.len() as int) =~= m@);
    }
    let mut frames: Vec<FrameState> = Vec::new();
    let mut j: usize = 0;
    while j < n
        invariant
            j <= n,
            frames@.len() == j,
            forall|i: int| 0 <= i < j ==> frames@[i] == FrameState::Free,
        decreases n - j,
    {
        frames.push(FrameState::Free);
        j = j + 1;
    }
    proof {
        lemma_count_free_all_free(frames@);
    }
    let mut store = FrameAllocator::from_parts(frames, n);
    let mut k: usize = 0;
    while k < m.len()
        invariant
            k <= m@.len(),
            store.wf(),
            store@.len() == n,
            n == store_len(m@),
            forall|i: int| 0 <= i < n ==> store@[i] == boot_state(m@.take(k as int), i),
        decreases m@.len() - k,
    {
        let e = m[k];
        proof {
            lemma_map_frame_end_bound(m@, k as int);
        }
        let ghost mk = m@.take(k as int);
        let ghost mk1 = m@.take(k + 1);
        proof {
            assert(mk1[k as int] == e);
            assert forall|i: int| #![trigger boot_state(mk1, i)]
                e.kind != MemoryKind::Reserved || !(entry_first_frame(e) <= i < entry_frame_end(e))
                implies boot_state(mk1, i) == boot_state(mk, i) by {
                if reserved_in_map(mk1, i) {
                    let q = choose|q: int| #![trigger mk1[q]]
                        0 <= q < mk1.len() && mk1[q].kind == MemoryKind::Reserved
                            && entry_first_frame(mk1[q]) <= i < entry_frame_end(mk1[q]);
                    assert(mk[q] == mk1[q]);
                }
                if reserved_in_map(mk, i) {
                    let q = choose|q: int| #![trigger mk[q]]
                        0 <= q < mk.len() && mk[q].kind == MemoryKind::Reserved
                            && entry_first_frame(mk[q]) <= i < entry_frame_end(mk[q]);
                    assert(mk[q] == mk1[q]);
                }
            }
        }
        if e.kind == MemoryKind::Reserved {
            let first: u64 = e.start / 4096;
            let end = capped_frame_end(&m[k]);
            if first < end as u64 {
                let mut f: usize = first as usize;
                while f < end
                    invariant
                        first <= f <= end,
                        end <= n,
                        store.wf(),
                        store@.len() == n,
                        e.kind == MemoryKind::Reserved,
                        first == entry_first_frame(e),
                        mk1[k as int] == e,
                        k < mk1.len(),
                        end == (if entry_frame_end(e) <= MAX_FRAME_COUNT { entry_frame_end(e) } else { MAX_FRAME_COUNT as int }),
                        forall|i: int| 0 <= i < n && !(first <= i < f) && !(entry_first_frame(e) <= i < entry_frame_end(e))
                            ==> store@[i] == boot_state(mk, i),
                        forall|i: int| 0 <= i < n && (first <= i < f) ==> store@[i] == FrameState::Reserved,
                        forall|i: int| 0 <= i < n && f <= i < entry_frame_end(e) ==> store@[i] == boot_state(mk, i),
                    decreases end - f,
                {
                    store.set_reserved(f);
                    f = f + 1;
                }
                proof {
                    assert forall|i: int| 0 <= i < n implies store@[i] == boot_state(mk1, i) by {
                        if first <= i < entry_frame_end(e) {
                            assert(mk1[k as int].kind == MemoryKind::Reserved);
                            assert(reserved_in_map(mk1, i));
                        }
                    }
                }
            }
        }
        k = k + 1;
    }
    proof {
        assert(m@.take(m@.len() as int) =~= m@);
    }
    store
}

} // verus!
