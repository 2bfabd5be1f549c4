use lib::paging::frame_allocator::{FrameAllocator, MAX_MEMORY};
use lib::paging::mapper::AddressSpace;

fn setup() -> (AddressSpace, FrameAllocator) {
    let mut fa = FrameAllocator::new();
    fa.init(MAX_MEMORY, 0x0020_0000);
    (AddressSpace::new(), fa)
}

fn identity_tables() -> [u32; 16] {
    let mut t = [0u32; 16];
    for (i, a) in t.iter_mut().enumerate() {
        *a = 0x0010_0000 + (i as u32) * 0x1000;
    }
    t
}

#[test]
fn new_space_maps_nothing() {
    let (space, _) = setup();
    assert_eq!(space.get_physical_address(0), None);
    assert_eq!(space.get_physical_address(0xFFFF_FFFF), None);
    assert!(space.get_page_table(0).is_none());
}

#[test]
fn identity_map_covers_the_first_64_mb() {
    let (mut space, _) = setup();
    space.identity_map(identity_tables());
    assert_eq!(space.get_physical_address(0), Some(0));
    assert_eq!(space.get_physical_address(0x000B_8123), Some(0x000B_8123));
    assert_eq!(space.get_physical_address(0x03FF_FFFF), Some(0x03FF_FFFF));
    assert_eq!(space.get_physical_address(0x0400_0000), None);
    assert!(space.directory().is_present(15));
    assert!(!space.directory().is_present(16));
    assert_eq!(space.directory().get_pt_address(2), Some(0x0010_2000));
    let pt = space.get_page_table(1).unwrap();
    assert_eq!(pt.get_entry(5), ((1024 + 5) * 4096) | 3);
}

#[test]
fn map_page_translates_with_the_offset() {
    let (mut space, mut fa) = setup();
    space.map_page(&mut fa, 0x0800_0000, 0x0050_0000, true, false);
    assert_eq!(space.get_physical_address(0x0800_0123), Some(0x0050_0123));
    assert_eq!(space.get_physical_address(0x0800_1000), None);
    // The page table came from the frame allocator.
    assert!(fa.is_used(0x0020_0000));
    assert_eq!(space.directory().get_pt_address(32), Some(0x0020_0000));
    assert_eq!(space.directory().get_entry(32) & 0xFFF, 3);
    let pt = space.get_page_table(32).unwrap();
    assert_eq!(pt.get_entry(0), 0x0050_0003);
}

#[test]
fn map_page_takes_addresses_down_to_the_page() {
    let (mut space, mut fa) = setup();
    space.map_page(&mut fa, 0x0800_0FFF, 0x0050_0ABC, false, true);
    assert_eq!(space.get_physical_address(0x0800_0004), Some(0x0050_0004));
    let pt = space.get_page_table(32).unwrap();
    assert_eq!(pt.get_entry(0), 0x0050_0005);
    // A user page promotes the directory entry to user.
    assert_eq!(space.directory().get_entry(32) & 0xFFF, 7);
}

#[test]
fn user_mapping_promotes_an_existing_directory_entry() {
    let (mut space, mut fa) = setup();
    space.map_page(&mut fa, 0x0800_0000, 0x0050_0000, true, false);
    assert_eq!(space.directory().get_entry(32) & 4, 0);
    space.map_page(&mut fa, 0x0800_1000, 0x0050_1000, true, true);
    assert_eq!(space.directory().get_entry(32) & 4, 4);
}

#[test]
fn unmap_undoes_map() {
    let (mut space, mut fa) = setup();
    space.identity_map(identity_tables());
    space.map_page(&mut fa, 0x0800_0000, 0x0050_0000, true, false);
    space.unmap_page(&mut fa, 0x0800_0000);
    assert_eq!(space.get_physical_address(0x0800_0000), None);
    assert_eq!(space.get_physical_address(0x0000_1234), Some(0x0000_1234));
    // The emptied table above the identity map is given back.
    assert!(!space.directory().is_present(32));
    assert!(!fa.is_used(0x0020_0000));
}

#[test]
fn unmap_keeps_identity_tables() {
    let (mut space, mut fa) = setup();
    space.identity_map(identity_tables());
    space.unmap_page(&mut fa, 0x0010_5000);
    assert_eq!(space.get_physical_address(0x0010_5000), None);
    assert_eq!(space.get_physical_address(0x0010_6000), Some(0x0010_6000));
    assert!(space.directory().is_present(0));
}

#[test]
fn unmap_of_an_unmapped_page_changes_nothing() {
    let (mut space, mut fa) = setup();
    let used = fa.used_count();
    space.unmap_page(&mut fa, 0x0900_0000);
    assert_eq!(space.get_physical_address(0x0900_0000), None);
    assert_eq!(fa.used_count(), used);
}

#[test]
fn map_range_maps_consecutive_frames() {
    let (mut space, mut fa) = setup();
    space.map_range(&mut fa, 0x0800_0000, 0x0060_0000, 3 * 4096 + 1, true, false);
    assert_eq!(space.get_physical_address(0x0800_0000), Some(0x0060_0000));
    assert_eq!(space.get_physical_address(0x0800_3010), Some(0x0060_3010));
    assert_eq!(space.get_physical_address(0x0800_4000), None);
}

#[test]
fn unmap_range_unmaps_every_page() {
    let (mut space, mut fa) = setup();
    space.map_range(&mut fa, 0x0800_0000, 0x0060_0000, 4 * 4096, true, false);
    space.unmap_range(&mut fa, 0x0800_1000, 2 * 4096);
    assert_eq!(space.get_physical_address(0x0800_0000), Some(0x0060_0000));
    assert_eq!(space.get_physical_address(0x0800_1000), None);
    assert_eq!(space.get_physical_address(0x0800_2000), None);
    assert_eq!(space.get_physical_address(0x0800_3000), Some(0x0060_3000));
}

#[test]
fn unmap_range_gives_back_emptied_tables() {
    let (mut space, mut fa) = setup();
    space.map_range(&mut fa, 0x0800_0000, 0x0060_0000, 4 * 4096, false, true);
    assert!(fa.is_used(0x0020_0000));
    assert_eq!(space.get_page_table(32).unwrap().get_entry(3), 0x0060_3005);
    space.unmap_range(&mut fa, 0x0800_0000, 4 * 4096);
    assert!(!space.directory().is_present(32));
    assert!(!fa.is_used(0x0020_0000));
    assert!(!fa.is_used(0x0060_0000));
}
