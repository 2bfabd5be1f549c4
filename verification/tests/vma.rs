use lib::paging::vma::{
    Vma, VmaFlags, VmaKind, VmaTable, MAX_VMAS, VMA_DEMAND, VMA_EXEC, VMA_NONE, VMA_READ, VMA_USER, VMA_WRITE,
};
use lib::paging::{register_boot_vmas, BootLayout};

fn layout() -> BootLayout {
    BootLayout {
        kernel_end: 0x0012_3456,
        kernel_stack_bottom: 0x0013_0000,
        kernel_stack_top: 0x0013_4000,
        user_stack_bottom: 0x0013_5000,
        user_stack_top: 0x0013_9000,
        kernel_guard_page: 0x0012_F000,
        user_guard_page: 0x0013_4000,
    }
}

#[test]
fn flags_report_their_bits() {
    let f = VmaFlags::new(VMA_READ | VMA_WRITE | VMA_DEMAND);
    assert!(f.readable());
    assert!(f.writable());
    assert!(!f.user());
    assert!(f.demand());
    assert!(!f.contains(VMA_EXEC));
    assert!(f.contains(VMA_WRITE | VMA_USER));
    let none = VmaFlags::new(VMA_NONE);
    assert!(!none.readable() && !none.writable() && !none.user() && !none.demand());
}

#[test]
fn empty_slot_holds_nothing() {
    let v = Vma::empty();
    assert!(!v.active);
    assert!(!v.contains(0));
    assert_eq!(v.size(), 0);
}

#[test]
fn region_contains_its_half_open_range() {
    let v = Vma { start: 0x1000, end: 0x3000, kind: VmaKind::Heap, flags: VmaFlags::new(VMA_READ), active: true };
    assert!(v.contains(0x1000));
    assert!(v.contains(0x2FFF));
    assert!(!v.contains(0x3000));
    assert!(!v.contains(0x0FFF));
    assert_eq!(v.size(), 0x2000);
}

#[test]
fn kind_names() {
    let mut v = Vma::empty();
    let names = [
        (VmaKind::Identity, "Identity"),
        (VmaKind::KernelImage, "KernelImg"),
        (VmaKind::KernelStack, "KernStack"),
        (VmaKind::UserStack, "UserStack"),
        (VmaKind::Guard, "Guard"),
        (VmaKind::Heap, "Heap"),
        (VmaKind::Mmio, "MMIO"),
    ];
    for (k, n) in names.iter() {
        v.kind = *k;
        assert_eq!(v.kind_name(), *n);
    }
}

#[test]
fn flags_string() {
    let mut v = Vma::empty();
    v.flags = VmaFlags::new(VMA_READ | VMA_WRITE);
    assert_eq!(&v.flags_str(), b"RW--");
    v.flags = VmaFlags::new(VMA_READ | VMA_WRITE | VMA_EXEC);
    assert_eq!(&v.flags_str(), b"RWX-");
    v.flags = VmaFlags::new(VMA_READ | VMA_WRITE | VMA_EXEC | VMA_USER | VMA_DEMAND);
    assert_eq!(&v.flags_str(), b"RWXU");
    v.flags = VmaFlags::new(VMA_NONE);
    assert_eq!(&v.flags_str(), b"----");
}

#[test]
fn register_rounds_to_pages_and_find_finds_it() {
    let mut t = VmaTable::new();
    assert!(t.register(0x1234, 0x5001, VmaKind::Heap, VmaFlags::new(VMA_READ)));
    assert_eq!(t.count(), 1);
    let v = t.find(0x1000).unwrap();
    assert_eq!(v.start, 0x1000);
    assert_eq!(v.end, 0x6000);
    assert_eq!(v.kind, VmaKind::Heap);
    assert!(t.find(0x5FFF).is_some());
    assert!(t.find(0x6000).is_none());
    assert!(t.find(0x0FFF).is_none());
}

#[test]
fn find_returns_the_first_region_holding_the_address() {
    let mut t = VmaTable::new();
    t.register(0, 0x10000, VmaKind::Identity, VmaFlags::new(VMA_READ));
    t.register(0x2000, 0x3000, VmaKind::Guard, VmaFlags::new(VMA_NONE));
    assert_eq!(t.find(0x2800).unwrap().kind, VmaKind::Identity);
}

#[test]
fn unregister_frees_the_slot() {
    let mut t = VmaTable::new();
    t.register(0x1000, 0x2000, VmaKind::Mmio, VmaFlags::new(VMA_READ));
    assert!(t.unregister(0x1000));
    assert_eq!(t.count(), 0);
    assert!(t.find(0x1000).is_none());
    assert!(!t.unregister(0x1000));
    // The freed slot is reused first.
    t.register(0x9000, 0xA000, VmaKind::Heap, VmaFlags::new(VMA_READ));
    assert_eq!(t.active_regions()[0].start, 0x9000);
}

#[test]
fn extend_moves_the_end() {
    let mut t = VmaTable::new();
    t.register(0x0400_0000, 0x0401_0000, VmaKind::Heap, VmaFlags::new(VMA_READ));
    assert!(t.extend(0x0400_0000, 0x0402_0001));
    assert_eq!(t.find(0x0402_0000).unwrap().end, 0x0402_1000);
    assert!(!t.extend(0x0500_0000, 0x0600_0000));
    assert_eq!(t.count(), 1);
}

#[test]
fn register_fails_when_the_table_is_full() {
    let mut t = VmaTable::new();
    for i in 0..MAX_VMAS as u32 {
        assert!(t.register(i * 0x1000, i * 0x1000 + 0x1000, VmaKind::Heap, VmaFlags::new(VMA_READ)));
    }
    assert_eq!(t.count(), MAX_VMAS);
    assert!(!t.register(0x0100_0000, 0x0100_1000, VmaKind::Heap, VmaFlags::new(VMA_READ)));
    assert!(t.find(0x0100_0000).is_none());
}

#[test]
fn active_regions_lists_in_table_order() {
    let mut t = VmaTable::new();
    t.register(0x3000, 0x4000, VmaKind::Mmio, VmaFlags::new(VMA_READ));
    t.register(0x1000, 0x2000, VmaKind::Heap, VmaFlags::new(VMA_READ));
    t.register(0x5000, 0x6000, VmaKind::Guard, VmaFlags::new(VMA_NONE));
    t.unregister(0x1000);
    let r = t.active_regions();
    assert_eq!(r.len(), 2);
    assert_eq!(r[0].start, 0x3000);
    assert_eq!(r[1].start, 0x5000);
}

#[test]
fn boot_regions_fill_the_first_slots_in_order() {
    let mut t = VmaTable::new();
    register_boot_vmas(&mut t, &layout());
    assert_eq!(t.count(), 8);
    let r = t.active_regions();
    let kinds: Vec<VmaKind> = r.iter().map(|v| v.kind).collect();
    assert_eq!(
        kinds,
        vec![
            VmaKind::Identity,
            VmaKind::Mmio,
            VmaKind::KernelImage,
            VmaKind::Guard,
            VmaKind::KernelStack,
            VmaKind::Guard,
            VmaKind::UserStack,
            VmaKind::Heap,
        ]
    );
    assert_eq!((r[0].start, r[0].end), (0, 0x0400_0000));
    assert_eq!((r[1].start, r[1].end), (0x000B_8000, 0x000B_9000));
    assert_eq!((r[2].start, r[2].end), (0x0010_0000, 0x0012_4000));
    assert_eq!((r[3].start, r[3].end), (0x0012_F000, 0x0013_0000));
    assert_eq!(r[6].flags.0, VMA_READ | VMA_WRITE | VMA_USER);
    assert_eq!((r[7].start, r[7].end), (0x0400_0000, 0x0401_0000));
    assert!(r[7].flags.demand());
    assert_eq!(r[3].flags.0, VMA_NONE);
}

#[test]
fn guard_pages_inside_the_identity_map_are_found_as_identity() {
    let mut t = VmaTable::new();
    register_boot_vmas(&mut t, &layout());
    assert_eq!(t.find(0x0012_F010).unwrap().kind, VmaKind::Identity);
    assert_eq!(t.find(0x0400_0010).unwrap().kind, VmaKind::Heap);
}

#[test]
fn register_then_unregister_restores_the_table() {
    let mut t = VmaTable::new();
    register_boot_vmas(&mut t, &layout());
    let regions = |t: &VmaTable| -> Vec<(u32, u32, VmaKind, u8)> {
        t.active_regions().iter().map(|v| (v.start, v.end, v.kind, v.flags.0)).collect()
    };
    let before = regions(&t);
    let count = t.count();
    assert!(t.register(0x0900_0000, 0x0900_2000, VmaKind::Mmio, VmaFlags::new(VMA_READ)));
    assert_eq!(t.find(0x0900_1000).unwrap().kind, VmaKind::Mmio);
    assert!(t.unregister(0x0900_0000));
    assert_eq!(t.count(), count);
    assert_eq!(regions(&t), before);
    assert!(t.find(0x0900_1000).is_none());
    assert_eq!(t.find(0x0012_F010).unwrap().kind, VmaKind::Identity);
}

#[test]
fn guard_pages_after_boot_are_found_as_guards() {
    let mut t = VmaTable::new();
    register_boot_vmas(&mut t, &layout());
    let g = t.find_guard(0x0012_F010).unwrap();
    assert_eq!((g.start, g.end, g.kind), (0x0012_F000, 0x0013_0000, VmaKind::Guard));
    let u = t.find_guard(0x0013_4FFF).unwrap();
    assert_eq!((u.start, u.end), (0x0013_4000, 0x0013_5000));
    assert!(t.find_guard(0x0013_0010).is_none());
    assert!(t.find_guard(0x0400_0010).is_none());
}
