use lib::paging::page_directory::PageDirectory;
use lib::paging::page_table::{flags, PageTable};
use lib::paging::mapper::{is_page_table_empty, num_page_tables_for};

#[test]
fn new_table_is_empty() {
    let pt = PageTable::new();
    assert!(is_page_table_empty(&pt));
    assert!(!pt.is_present(0));
    assert_eq!(pt.get_page_address(1023), None);
}

#[test]
fn default_table_is_empty() {
    let pt = PageTable::default();
    assert!(is_page_table_empty(&pt));
    let pd = PageDirectory::default();
    assert!(!pd.is_present(5));
}

#[test]
fn set_entry_combines_address_and_flags() {
    let mut pt = PageTable::new();
    pt.set_entry(3, 0x0012_3000, flags::PRESENT | flags::WRITABLE);
    assert_eq!(pt.get_entry(3), 0x0012_3003);
    assert!(pt.is_present(3));
    assert_eq!(pt.get_page_address(3), Some(0x0012_3000));
    assert!(!is_page_table_empty(&pt));
}

#[test]
fn set_entry_keeps_only_the_low_flag_bits() {
    let mut pt = PageTable::new();
    pt.set_entry(0, 0x0000_1000, 0xFFFF_F001);
    assert_eq!(pt.get_entry(0), 0x0000_1001);
    pt.set_entry(1, 0x0000_2000, 0x0000_0FFF);
    assert_eq!(pt.get_entry(1), 0x0000_2FFF);
}

#[test]
fn entry_without_present_bit_has_no_address() {
    let mut pt = PageTable::new();
    pt.set_entry(7, 0x0040_0000, flags::WRITABLE);
    assert!(!pt.is_present(7));
    assert_eq!(pt.get_page_address(7), None);
}

#[test]
fn clear_entry_zeroes_it() {
    let mut pt = PageTable::new();
    pt.set_entry(9, 0x0040_0000, flags::PRESENT);
    pt.clear_entry(9);
    assert_eq!(pt.get_entry(9), 0);
    assert!(is_page_table_empty(&pt));
}

#[test]
fn directory_entries_work_like_table_entries() {
    let mut pd = PageDirectory::new();
    pd.set_entry(16, 0x0030_0000, 3);
    assert_eq!(pd.get_entry(16), 0x0030_0003);
    assert!(pd.is_present(16));
    assert_eq!(pd.get_pt_address(16), Some(0x0030_0000));
    pd.clear_entry(16);
    assert!(!pd.is_present(16));
    assert_eq!(pd.get_pt_address(16), None);
}

#[test]
fn page_tables_needed_round_up() {
    assert_eq!(num_page_tables_for(0), 0);
    assert_eq!(num_page_tables_for(1), 1);
    assert_eq!(num_page_tables_for(4 * 1024 * 1024), 1);
    assert_eq!(num_page_tables_for(4 * 1024 * 1024 + 1), 2);
    assert_eq!(num_page_tables_for(64 * 1024 * 1024), 16);
}
