use sunrise_kernel::{check_thread_killed, init, FrameAllocatorTrait, FrameAllocatorTraitPrivate, MemoryKind, MemoryMapEntry, PhysicalMemRegion, Splittable, ThreadState, MEMORY_FRAME_SIZE};

fn region(start: usize, n: usize, total: u64) -> PhysicalMemRegion {
    let mut a = init(&vec![MemoryMapEntry { start: 0, length: total * 4096, kind: MemoryKind::Usable }]);
    if start > 0 {
        let _skip = a.allocate_region(start).unwrap();
    }
    a.allocate_region(n).unwrap()
}

fn span(r: &PhysicalMemRegion) -> (usize, usize) {
    (r.start_frame(), r.frame_count())
}

#[test]
fn split_at_edges_leaves_region_unchanged() {
    let mut r = region(2, 5, 10);
    assert!(r.split_at(0).unwrap().is_none());
    assert_eq!(span(&r), (2, 5));
    assert!(r.split_at(5).unwrap().is_none());
    assert_eq!(span(&r), (2, 5));
    assert!(r.split_at(9).unwrap().is_none());
    assert_eq!(span(&r), (2, 5));
}

#[test]
fn split_at_inside_covers_range() {
    for k in 1..5usize {
        let mut r = region(2, 5, 10);
        let right = r.split_at(k).unwrap().unwrap();
        assert_eq!(span(&r), (2, k));
        assert_eq!(span(&right), (2 + k, 5 - k));
        assert_eq!(r.start_frame() + r.frame_count(), right.start_frame());
    }
}

#[test]
fn right_split_is_swapped_split_at() {
    for k in 0..7usize {
        let mut a = region(1, 6, 10);
        let b_right = a.split_at(k).unwrap();
        let mut c = region(1, 6, 10);
        let c_left = c.right_split(k).unwrap();
        match b_right {
            Some(right) => {
                let left = c_left.unwrap();
                assert_eq!(span(&c), span(&right));
                assert_eq!(span(&left), span(&a));
            }
            None => {
                assert!(c_left.is_none());
                assert_eq!(span(&c), span(&a));
                assert_eq!(span(&c), (1, 6));
            }
        }
    }
}

#[test]
fn split_halves_stay_allocated() {
    let mut a = init(&vec![MemoryMapEntry { start: 0, length: 8 * 4096, kind: MemoryKind::Usable }]);
    let mut r = a.allocate_region(6).unwrap();
    let right = r.split_at(2).unwrap().unwrap();
    assert!(a.check_is_allocated(&r));
    assert!(a.check_is_allocated(&right));
    assert_eq!(a.free_frames(), 2);
    assert!(a.free_region(&right));
    assert_eq!(a.free_frames(), 6);
    assert!(a.check_is_allocated(&r));
}

#[test]
fn frame_addresses_list_each_frame() {
    let r = region(3, 3, 8);
    assert_eq!(r.start_address(), 3 * MEMORY_FRAME_SIZE);
    assert_eq!(r.frame_addresses(), vec![3 * 4096, 4 * 4096, 5 * 4096]);
}

#[test]
fn killed_thread_must_unschedule() {
    assert!(check_thread_killed(ThreadState::Killed));
    assert!(!check_thread_killed(ThreadState::Running));
    assert!(!check_thread_killed(ThreadState::Paused));
}
