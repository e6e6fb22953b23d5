use initium::addr::PageTableIndex;
use initium::elf::ProgramHeader;
use initium::entries::{is_markable, range_has_bounds, Entries};
use initium::kernel::VirtualAddressOffset;

fn segment(virtual_addr: u64, mem_size: u64) -> ProgramHeader {
    ProgramHeader { type_: 1, flags: 4, offset: 0, virtual_addr, physical_addr: 0, file_size: 0, mem_size, align: 0x1000 }
}

fn used(entries: &Entries) -> Vec<u16> {
    (0..512u16).filter(|i| entries.is_used(PageTableIndex::new(*i))).collect()
}

#[test]
fn new_tracker_has_only_the_first_entry_taken() {
    assert_eq!(used(&Entries::new()), vec![0]);
}

#[test]
fn free_entries_are_handed_out_in_order_and_never_twice() {
    let mut entries = Entries::new();
    let a = entries.get_free_entries(1).as_u16();
    let b = entries.get_free_entries(3).as_u16();
    let c = entries.get_free_entries(2).as_u16();
    assert_eq!((a, b, c), (1, 2, 5));
    assert_eq!(used(&entries), vec![0, 1, 2, 3, 4, 5, 6]);
}

#[test]
fn free_entries_skip_runs_that_are_too_short() {
    let mut entries = Entries::new();
    entries.mark_segments(&vec![segment(0x100_0000_0000, 1)], VirtualAddressOffset::zero());
    assert_eq!(used(&entries), vec![0, 2]);
    assert_eq!(entries.get_free_entries(2).as_u16(), 3);
    assert_eq!(entries.get_free_entries(1).as_u16(), 1);
    assert_eq!(used(&entries), vec![0, 1, 2, 3, 4]);
}

#[test]
fn requests_that_cannot_be_served_take_nothing() {
    let mut entries = Entries::new();
    assert!(entries.try_get_free_entries(0).is_none());
    assert!(entries.try_get_free_entries(512).is_none());
    assert_eq!(entries.try_get_free_entries(511).unwrap().as_u16(), 1);
    assert!(entries.try_get_free_entries(1).is_none());
    assert_eq!(used(&entries).len(), 512);
    assert!(entries.try_get_free_address(1, 4096).is_none());
}

#[test]
fn free_address_is_the_start_of_a_level_4_entry() {
    let mut entries = Entries::new();
    assert_eq!(entries.get_free_address(1, 4096).as_u64(), 0x80_0000_0000);
    assert_eq!(entries.get_free_address(0x80_0000_0001, 4096).as_u64(), 0x100_0000_0000);
    assert_eq!(used(&entries), vec![0, 1, 2, 3]);
    assert!(entries.try_get_free_address(0, 4096).is_none());
    assert!(entries.try_get_free_address(1, 3).is_none());
    assert!(entries.try_get_free_address(u64::MAX, 1).is_none());
    assert_eq!(entries.try_get_free_address(0x80_0000_0000, 1).unwrap().as_u64(), 0x200_0000_0000);
}

#[test]
fn free_address_in_the_upper_half_is_sign_extended() {
    let mut entries = Entries::new();
    assert_eq!(entries.get_free_entries(255).as_u16(), 1);
    assert_eq!(entries.get_free_address(1, 1).as_u64(), 0xffff_8000_0000_0000);
}

#[test]
fn segments_mark_every_entry_they_touch() {
    let mut entries = Entries::new();
    let segments = vec![
        segment(0x7f_ffff_f000, 0x2000),
        segment(0x300_0000_0000, 0),
        segment(0x1000, 0x1000),
    ];
    entries.mark_segments(&segments, VirtualAddressOffset::new(0x80_0000_0000));
    assert_eq!(used(&entries), vec![0, 1, 2]);
    let mut high = Entries::new();
    high.mark_segments(&vec![segment(0xffff_ffff_8000_0000, 0x1000)], VirtualAddressOffset::zero());
    assert_eq!(used(&high), vec![0, 511]);
}

#[test]
fn ranges_without_bounds_are_recognised() {
    assert!(range_has_bounds(0x1000, 0x1000));
    assert!(!range_has_bounds(0x1_0000_0000_0000, 1));
    assert!(!range_has_bounds(0xffff_ffff_ffff_f000, 0x1000));
    assert!(!range_has_bounds(0, 0));
    assert!(!range_has_bounds(0x7fff_ffff_f000, 0x1000));
    assert!(range_has_bounds(0x7fff_ffff_e000, 0x1000));
    assert!(is_markable(&segment(0x5000, 0), VirtualAddressOffset::new(-0x6000)));
    assert!(!is_markable(&segment(0x5000, 1), VirtualAddressOffset::new(-0x6000)));
    assert!(is_markable(&segment(0x5000, 1), VirtualAddressOffset::new(-0x5000)));
}

#[test]
fn offsets_move_addresses() {
    let offset = VirtualAddressOffset::new(0x4000_0000_0000);
    assert_eq!(offset.virtual_address_offset(), 0x4000_0000_0000);
    assert_eq!(offset.apply(0x1000), 0x4000_0000_1000);
    assert_eq!(VirtualAddressOffset::zero().virtual_address_offset(), 0);
    assert_eq!(VirtualAddressOffset::new(-0x1000).apply(0x3000), 0x2000);
    assert_eq!(VirtualAddressOffset::new(-0x1000).checked_apply(0x800), None);
    assert_eq!(VirtualAddressOffset::new(1).checked_apply(u64::MAX), None);
    assert_eq!(VirtualAddressOffset::new(i128::MAX).checked_apply(1), None);
}
