use lib::paging::frame_allocator::{FrameAllocator, MAX_MEMORY, MAX_FRAMES};

fn booted() -> FrameAllocator {
    let mut fa = FrameAllocator::new();
    fa.init(MAX_MEMORY, 0x0020_0000);
    fa
}

#[test]
fn new_allocator_tracks_nothing() {
    let fa = FrameAllocator::new();
    assert_eq!(fa.total_count(), 0);
    assert_eq!(fa.used_count(), 0);
    assert_eq!(fa.free_count(), 0);
}

#[test]
fn init_marks_kernel_frames_used() {
    let fa = booted();
    assert_eq!(fa.total_count(), MAX_FRAMES);
    assert_eq!(fa.used_count(), 512);
    assert_eq!(fa.free_count(), MAX_FRAMES - 512);
    assert!(fa.is_used(0));
    assert!(fa.is_used(0x001F_F000));
    assert!(!fa.is_used(0x0020_0000));
    assert!(!fa.is_used(0x03FF_F000));
}

#[test]
fn init_rounds_kernel_end_up_to_a_page() {
    let mut fa = FrameAllocator::new();
    fa.init(MAX_MEMORY, 0x0020_0001);
    assert_eq!(fa.used_count(), 513);
    assert!(fa.is_used(0x0020_0000));
    assert!(!fa.is_used(0x0020_1000));
}

#[test]
fn init_caps_memory_at_the_maximum() {
    let mut fa = FrameAllocator::new();
    fa.init(2 * MAX_MEMORY, 0);
    assert_eq!(fa.total_count(), MAX_FRAMES);
    assert_eq!(fa.used_count(), 0);
}

#[test]
fn addresses_past_memory_count_as_used() {
    let mut fa = FrameAllocator::new();
    fa.init(0x10_0000, 0);
    assert_eq!(fa.total_count(), 256);
    assert!(!fa.is_used(0x000F_F000));
    assert!(fa.is_used(0x0010_0000));
}

#[test]
fn alloc_hands_out_the_first_free_frame() {
    let mut fa = booted();
    assert_eq!(fa.alloc_frame(), Some(0x0020_0000));
    assert_eq!(fa.alloc_frame(), Some(0x0020_1000));
    assert!(fa.is_used(0x0020_0000));
    assert!(fa.is_used(0x0020_1000));
    assert_eq!(fa.used_count(), 514);
}

#[test]
fn free_undoes_alloc() {
    let mut fa = booted();
    let used = fa.used_count();
    let f = fa.alloc_frame().unwrap();
    fa.free_frame(f);
    assert!(!fa.is_used(f));
    assert_eq!(fa.used_count(), used);
    assert_eq!(fa.alloc_frame(), Some(f));
}

#[test]
fn double_free_is_ignored() {
    let mut fa = booted();
    let f = fa.alloc_frame().unwrap();
    fa.free_frame(f);
    let used = fa.used_count();
    fa.free_frame(f);
    assert_eq!(fa.used_count(), used);
    assert!(!fa.is_used(f));
}

#[test]
fn free_past_memory_is_ignored() {
    let mut fa = FrameAllocator::new();
    fa.init(0x10_0000, 0);
    fa.free_frame(0x0200_0000);
    assert_eq!(fa.used_count(), 0);
}

#[test]
fn freed_frame_below_hint_is_found_again() {
    let mut fa = booted();
    fa.free_frame(0x1000);
    assert!(!fa.is_used(0x1000));
    assert_eq!(fa.alloc_frame(), Some(0x1000));
}

#[test]
fn mark_used_and_mark_free_set_the_bit() {
    let mut fa = booted();
    fa.mark_used(0x0030_0000);
    assert!(fa.is_used(0x0030_0000));
    assert_eq!(fa.used_count(), 513);
    fa.mark_used(0x0030_0000);
    assert_eq!(fa.used_count(), 513);
    fa.mark_free(0x0030_0000);
    assert!(!fa.is_used(0x0030_0000));
    assert_eq!(fa.used_count(), 512);
}

#[test]
fn alloc_returns_none_when_memory_is_full() {
    let mut fa = FrameAllocator::new();
    fa.init(0x3000, 0);
    assert_eq!(fa.alloc_frame(), Some(0));
    assert_eq!(fa.alloc_frame(), Some(0x1000));
    assert_eq!(fa.alloc_frame(), Some(0x2000));
    assert_eq!(fa.alloc_frame(), None);
    assert_eq!(fa.free_count(), 0);
}

#[test]
fn alloc_wraps_around_to_frames_below_the_hint() {
    let mut fa = FrameAllocator::new();
    fa.init(0x4_0000, 0x2_0000);
    // 64 frames, the first 32 used: the hint sits on the second word.
    for _ in 0..32 {
        assert!(fa.alloc_frame().is_some());
    }
    assert_eq!(fa.alloc_frame(), None);
    fa.free_frame(0x5000);
    assert_eq!(fa.alloc_frame(), Some(0x5000));
}

fn used_tracked_frames(fa: &FrameAllocator) -> usize {
    (0..fa.total_count()).filter(|i| fa.is_used((*i as u32) * 4096)).count()
}

#[test]
fn used_counter_matches_the_bitmap() {
    let mut fa = booted();
    assert_eq!(fa.used_count(), used_tracked_frames(&fa));
    let a = fa.alloc_frame().unwrap();
    let b = fa.alloc_frame().unwrap();
    fa.mark_used(0x0100_0000);
    fa.free_frame(a);
    fa.mark_free(0x0100_0000);
    fa.free_frame(a);
    assert_eq!(fa.used_count(), used_tracked_frames(&fa));
    assert!(fa.is_used(b));
    assert_eq!(fa.free_count(), fa.total_count() - fa.used_count());
}

#[test]
fn alloc_always_takes_the_lowest_free_frame() {
    let mut fa = booted();
    let frames: Vec<u32> = (0..40).map(|_| fa.alloc_frame().unwrap()).collect();
    // Free one frame far below the hint, then one above it.
    fa.free_frame(frames[35]);
    fa.free_frame(frames[2]);
    let next = fa.alloc_frame().unwrap();
    assert_eq!(next, frames[2]);
    for b in (0..next).step_by(4096) {
        assert!(fa.is_used(b));
    }
    assert_eq!(fa.alloc_frame(), Some(frames[35]));
}

#[test]
fn mark_free_and_free_frame_agree() {
    let mut a = booted();
    let f = a.alloc_frame().unwrap();
    a.alloc_frame();
    let mut b = FrameAllocator::new();
    b.init(MAX_MEMORY, 0x0020_0000);
    b.alloc_frame();
    b.alloc_frame();
    a.mark_free(f);
    b.free_frame(f);
    assert_eq!(a.used_count(), b.used_count());
    assert_eq!(a.free_count(), b.free_count());
    for _ in 0..5 {
        assert_eq!(a.alloc_frame(), b.alloc_frame());
    }
}
