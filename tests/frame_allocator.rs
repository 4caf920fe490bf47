use sunrise_kernel::{
    init, FrameAllocator, FrameAllocatorTrait, FrameAllocatorTraitPrivate, FrameState, KernelError,
    MemoryKind, MemoryMapEntry, PhysicalMemRegion, MEMORY_FRAME_SIZE,
};

fn usable(start: u64, length: u64) -> MemoryMapEntry {
    MemoryMapEntry { start, length, kind: MemoryKind::Usable }
}

fn reserved(start: u64, length: u64) -> MemoryMapEntry {
    MemoryMapEntry { start, length, kind: MemoryKind::Reserved }
}

fn store_of(frames: u64) -> FrameAllocator {
    init(&vec![usable(0, frames * 4096)])
}

fn span(r: &PhysicalMemRegion) -> (usize, usize) {
    (r.start_frame(), r.frame_count())
}

#[test]
fn end_to_end_sixteen_frames() {
    let mut a = store_of(16);
    assert_eq!(a.frame_total(), 16);
    assert_eq!(a.free_frames(), 16);
    let first = a.allocate_region(4).unwrap();
    assert_eq!(first.start_frame(), 0);
    assert_eq!(first.frame_count(), 4);
    assert_eq!(a.free_frames(), 12);
    assert_eq!(a.allocate_region(16).unwrap_err(), KernelError::PhysicalMemoryExhaustion);
    assert_eq!(a.free_frames(), 12);
    assert!(a.free_region(&first));
    assert_eq!(a.free_frames(), 16);
    let all = a.allocate_region(16).unwrap();
    assert_eq!(span(&all), (0, 16));
    assert_eq!(a.free_frames(), 0);
}

#[test]
fn allocate_region_marks_frames_allocated() {
    for n in 1..=8usize {
        let mut a = store_of(8);
        let r = a.allocate_region(n).unwrap();
        assert_eq!(r.frame_count(), n);
        assert!(a.check_is_allocated(&r));
        assert_eq!(a.free_frames(), 8 - n);
    }
}

#[test]
fn allocate_region_is_first_fit() {
    let mut a = store_of(10);
    let r0 = a.allocate_region(2).unwrap();
    let r1 = a.allocate_region(3).unwrap();
    let r2 = a.allocate_region(2).unwrap();
    assert_eq!(span(&r1), (2, 3));
    assert!(a.free_region(&r1));
    // a hole of 3 frames at 2, and 3 free frames at 7
    let small = a.allocate_region(2).unwrap();
    assert_eq!(span(&small), (2, 2));
    let three = a.allocate_region(3).unwrap();
    assert_eq!(span(&three), (7, 3));
    assert_eq!(span(&r0), (0, 2));
    assert_eq!(span(&r2), (5, 2));
}

#[test]
fn allocate_region_zero_is_invalid() {
    let mut a = store_of(4);
    assert_eq!(a.allocate_region(0).unwrap_err(), KernelError::InvalidSize);
    assert_eq!(a.free_frames(), 4);
}

#[test]
fn allocate_region_fails_when_fragmented() {
    let mut a = store_of(4);
    let r0 = a.allocate_region(1).unwrap();
    let _r1 = a.allocate_region(1).unwrap();
    assert!(a.free_region(&r0));
    // frames 0, 2 and 3 are free, but no run of 3
    assert_eq!(a.free_frames(), 3);
    assert_eq!(a.allocate_region(3).unwrap_err(), KernelError::PhysicalMemoryExhaustion);
    assert_eq!(a.free_frames(), 3);
}

#[test]
fn allocate_frame_takes_one_frame() {
    let mut a = store_of(3);
    let f = a.allocate_frame().unwrap();
    assert_eq!(span(&f), (0, 1));
    assert_eq!(f.start_address(), 0);
    let g = a.allocate_frame().unwrap();
    assert_eq!(g.start_address(), MEMORY_FRAME_SIZE);
    let _h = a.allocate_frame().unwrap();
    assert_eq!(a.allocate_frame().unwrap_err(), KernelError::PhysicalMemoryExhaustion);
}

#[test]
fn released_region_is_not_allocated() {
    let mut a = store_of(6);
    let r = a.allocate_region(3).unwrap();
    assert!(a.check_is_allocated(&r));
    assert!(a.free_region(&r));
    assert!(!a.check_is_allocated(&r));
    for i in 0..3usize {
        assert_eq!(a.frame_state(i), Some(FrameState::Free));
    }
}

#[test]
fn double_free_is_refused() {
    let mut a = store_of(6);
    let r = a.allocate_region(2).unwrap();
    assert!(a.free_region(&r));
    let again = a.allocate_region(1).unwrap();
    assert_eq!(span(&again), (0, 1));
    // frame 0 belongs to `again` now, frame 1 is free: freeing `r` again is a violation
    assert!(!a.free_region(&r));
    assert_eq!(a.frame_state(0), Some(FrameState::Allocated));
    assert_eq!(a.frame_state(1), Some(FrameState::Free));
    assert_eq!(a.free_frames(), 5);
}

#[test]
fn fragmented_fails_without_leak() {
    let mut a = store_of(8);
    let _r = a.allocate_region(5).unwrap();
    assert_eq!(a.free_frames(), 3);
    assert_eq!(a.allocate_frames_fragmented(4).unwrap_err(), KernelError::PhysicalMemoryExhaustion);
    assert_eq!(a.free_frames(), 3);
    for i in 5..8usize {
        assert_eq!(a.frame_state(i), Some(FrameState::Free));
    }
    assert_eq!(a.allocate_frames_fragmented(0).unwrap_err(), KernelError::InvalidSize);
}

#[test]
fn fragmented_takes_lowest_free_runs() {
    let mut a = store_of(10);
    let r0 = a.allocate_region(2).unwrap();
    let _r1 = a.allocate_region(1).unwrap();
    let r2 = a.allocate_region(1).unwrap();
    let _r3 = a.allocate_region(2).unwrap();
    assert!(a.free_region(&r0));
    assert!(a.free_region(&r2));
    // free: 0, 1, 3, 6, 7, 8, 9
    let v = a.allocate_frames_fragmented(5).unwrap();
    let spans: Vec<(usize, usize)> = v.iter().map(span).collect();
    assert_eq!(spans, vec![(0, 2), (3, 1), (6, 2)]);
    assert_eq!(a.free_frames(), 2);
    assert_eq!(a.frame_state(8), Some(FrameState::Free));
    for r in v.iter() {
        assert!(a.check_is_allocated(r));
    }
}

#[test]
fn successive_allocations_do_not_overlap() {
    let mut a = store_of(12);
    let x = a.allocate_region(5).unwrap();
    let y = a.allocate_region(3).unwrap();
    let (xs, xn) = span(&x);
    let (ys, yn) = span(&y);
    assert!(xs + xn <= ys || ys + yn <= xs);
}

#[test]
fn init_marks_reserved_ranges() {
    // 8 frames; bytes 4096..4097 and 12288..20480 reserved: frames 1, 3 and 4
    let map = vec![usable(0, 8 * 4096), reserved(4096, 1), reserved(3 * 4096, 2 * 4096)];
    let mut a = init(&map);
    assert_eq!(a.frame_total(), 8);
    assert_eq!(a.free_frames(), 5);
    let expected = [
        FrameState::Free,
        FrameState::Reserved,
        FrameState::Free,
        FrameState::Reserved,
        FrameState::Reserved,
        FrameState::Free,
        FrameState::Free,
        FrameState::Free,
    ];
    for (i, st) in expected.iter().enumerate() {
        assert_eq!(a.frame_state(i), Some(*st));
    }
    assert_eq!(a.frame_state(8), None);
    let r = a.allocate_region(3).unwrap();
    assert_eq!(span(&r), (5, 3));
    assert!(!a.check_is_reserved(&r));
}

#[test]
fn init_sizes_store_to_highest_address() {
    let a = init(&vec![usable(0, 4096), usable(10 * 4096, 100)]);
    assert_eq!(a.frame_total(), 11);
    let empty = init(&vec![]);
    assert_eq!(empty.frame_total(), 0);
}

#[test]
fn reserved_region_reports_reserved() {
    let mut a = init(&vec![usable(0, 4 * 4096), reserved(0, 4 * 4096)]);
    assert_eq!(a.free_frames(), 0);
    assert_eq!(a.allocate_frame().unwrap_err(), KernelError::PhysicalMemoryExhaustion);
    let mut b = store_of(4);
    let r = b.allocate_region(4).unwrap();
    assert!(!a.check_is_allocated(&r));
    assert!(a.check_is_reserved(&r));
    assert!(!a.free_region(&r));
}

#[test]
fn bootstrap_marking_is_idempotent() {
    let mut a = init(&vec![usable(0, 4 * 4096), reserved(3 * 4096, 4096)]);
    a.mark_frame_bootstrap_allocated(1);
    assert_eq!(a.frame_state(1), Some(FrameState::Allocated));
    assert_eq!(a.free_frames(), 2);
    a.mark_frame_bootstrap_allocated(1);
    assert_eq!(a.frame_state(1), Some(FrameState::Allocated));
    assert_eq!(a.free_frames(), 2);
    a.mark_frame_bootstrap_allocated(3);
    assert_eq!(a.frame_state(3), Some(FrameState::Reserved));
    a.mark_frame_bootstrap_allocated(40);
    assert_eq!(a.free_frames(), 2);
    // frames 0 and 2 are free, 1 is allocated, 3 is reserved: no run of 2
    assert_eq!(a.allocate_region(2).unwrap_err(), KernelError::PhysicalMemoryExhaustion);
    let r = a.allocate_region(1).unwrap();
    assert_eq!(span(&r), (0, 1));
}

#[test]
fn fragmented_merges_adjacent_free_frames() {
    let mut a = store_of(6);
    let v = a.allocate_frames_fragmented(4).unwrap();
    let spans: Vec<(usize, usize)> = v.iter().map(span).collect();
    assert_eq!(spans, vec![(0, 4)]);
    assert_eq!(a.free_frames(), 2);
}
