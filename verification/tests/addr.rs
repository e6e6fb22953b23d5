use initium::addr::{align_down, align_up, Page, PageTableIndex, PhysAddr, PhysFrame, VirtAddr};

#[test]
fn virt_addr_extends_the_sign_of_bit_47() {
    assert_eq!(VirtAddr::new(0x8000_0000_0000).as_u64(), 0xffff_8000_0000_0000);
    assert_eq!(VirtAddr::new(0x7fff_ffff_ffff).as_u64(), 0x7fff_ffff_ffff);
    assert_eq!(VirtAddr::new(0xffff_8000_0000_1234).as_u64(), 0xffff_8000_0000_1234);
}

#[test]
fn virt_addr_rejects_what_is_not_canonical() {
    assert!(VirtAddr::try_new(0x1_0000_0000_0000).is_none());
    assert!(VirtAddr::try_new(0xfffe_8000_0000_0000).is_none());
    assert!(VirtAddr::try_new(0x0000_7fff_ffff_ffff).is_some());
    assert!(VirtAddr::try_new(u64::MAX).is_some());
}

#[test]
fn phys_addr_has_52_bits() {
    assert_eq!(PhysAddr::new(0xf_ffff_ffff_ffff).as_u64(), 0xf_ffff_ffff_ffff);
    assert!(PhysAddr::try_new(0x10_0000_0000_0000).is_none());
    assert!(PhysAddr::try_new(0).is_some());
}

#[test]
fn alignment_rounds_to_multiples() {
    assert_eq!(align_down(0x1fff, 0x1000), 0x1000);
    assert_eq!(align_down(0x2000, 0x1000), 0x2000);
    assert_eq!(align_down(0x1234_5678, 16), 0x1234_5670);
    assert_eq!(align_up(0x1001, 0x1000), 0x2000);
    assert_eq!(align_up(0x2000, 0x1000), 0x2000);
    assert_eq!(align_up(1, 2), 2);
}

#[test]
fn frames_and_pages_hold_their_addresses() {
    let frame = PhysFrame::containing_address(PhysAddr::new(0x3456));
    assert_eq!(frame.start_address().as_u64(), 0x3000);
    assert_eq!(frame.next().start_address().as_u64(), 0x4000);
    assert!(PhysFrame::from_start_address(PhysAddr::new(0x3456)).is_none());
    assert!(PhysFrame::from_start_address(PhysAddr::new(0x3000)).is_some());
    let page = Page::containing_address(VirtAddr::new(0xffff_8000_0000_1fff));
    assert_eq!(page.start_address().as_u64(), 0xffff_8000_0000_1000);
    assert!(Page::from_start_address(VirtAddr::new(0x1001)).is_none());
    assert_eq!(Page::from_start_address(VirtAddr::new(0x1000)).unwrap(), Page::containing_address(VirtAddr::new(0x1abc)));
}

#[test]
fn page_addition_jumps_over_the_hole() {
    let last_low = Page::containing_address(VirtAddr::new(0x7fff_ffff_f000));
    assert_eq!(last_low.checked_add(1).unwrap().start_address().as_u64(), 0xffff_8000_0000_0000);
    assert_eq!(last_low.checked_add(0).unwrap(), last_low);
    let last = Page::containing_address(VirtAddr::new(0xffff_ffff_ffff_f000));
    assert!(last.checked_add(1).is_none());
    let low = Page::containing_address(VirtAddr::new(0x1000));
    assert_eq!(low.checked_add(3).unwrap().start_address().as_u64(), 0x4000);
    assert!(low.checked_add(u64::MAX).is_none());
}

#[test]
fn level_4_index_and_start_address() {
    assert_eq!(VirtAddr::new(0x4000_0000_0000).p4_index().as_u16(), 128);
    assert_eq!(VirtAddr::new(0x7f_ffff_ffff).p4_index().as_u16(), 0);
    assert_eq!(VirtAddr::new(0xffff_ffff_ffff_ffff).p4_index().as_u16(), 511);
    assert_eq!(PageTableIndex::new(128).start_address().as_u64(), 0x4000_0000_0000);
    assert_eq!(PageTableIndex::new(1).start_address().as_u64(), 0x80_0000_0000);
    assert_eq!(PageTableIndex::new(256).start_address().as_u64(), 0xffff_8000_0000_0000);
    assert_eq!(PageTableIndex::new(511).start_address().as_u64(), 0xffff_ff80_0000_0000);
}

#[test]
fn alignment_of_addresses() {
    assert!(VirtAddr::new(0x2000).is_aligned(0x1000));
    assert!(!VirtAddr::new(0x2008).is_aligned(0x1000));
    assert!(VirtAddr::new(0x2008).is_aligned(8));
}
