use initium::addr::{Page, PhysAddr, PhysFrame, VirtAddr};
use initium::paging::{AddressSpace, MapToError, PageFlags};

fn page(addr: u64) -> Page {
    Page::from_start_address(VirtAddr::new(addr)).unwrap()
}

fn frame(addr: u64) -> PhysFrame {
    PhysFrame::from_start_address(PhysAddr::new(addr)).unwrap()
}

#[test]
fn flags_have_the_bits_of_a_page_table_entry() {
    assert_eq!(PageFlags::present().bits(), 1);
    assert_eq!(PageFlags::present_writable().bits(), 3);
    assert_eq!(PageFlags { present: true, writable: true, no_execute: true, copied: true }.bits(), 0x8000_0000_0000_0203);
    assert_eq!(PageFlags { present: false, writable: false, no_execute: true, copied: false }.bits(), 1 << 63);
    assert_eq!(PageFlags { present: false, writable: false, no_execute: false, copied: true }.bits(), 1 << 9);
}

#[test]
fn mapping_and_unmapping() {
    let mut space = AddressSpace::new();
    assert!(space.pages().is_empty());
    assert_eq!(space.map_to(page(0x2000), frame(0x5000), PageFlags::present()), Ok(()));
    assert_eq!(space.map_to(page(0x2000), frame(0x6000), PageFlags::present()), Err(MapToError::PageAlreadyMapped));
    assert!(space.contains(page(0x2000)) && !space.contains(page(0x3000)));
    assert_eq!(space.translate(page(0x2000)), Some((frame(0x5000), PageFlags::present())));
    assert_eq!(space.translate(page(0x3000)), None);
    assert_eq!(space.map_with_data(page(0x1000), frame(0x7000), PageFlags::present_writable(), vec![Some(9); 4096], None), Ok(()));
    assert_eq!(space.map_with_data(page(0x1000), frame(0x7000), PageFlags::present_writable(), vec![Some(9); 4096], None), Err(MapToError::PageAlreadyMapped));
    assert_eq!(space.pages(), vec![0x1000, 0x2000]);
    assert!(space.update_flags(page(0x2000), PageFlags::present_writable()));
    assert!(!space.update_flags(page(0x3000), PageFlags::present_writable()));
    assert_eq!(space.translate(page(0x2000)), Some((frame(0x5000), PageFlags::present_writable())));
    assert_eq!(space.unmap(page(0x2000)), Some(frame(0x5000)));
    assert_eq!(space.unmap(page(0x2000)), None);
    assert_eq!(space.pages(), vec![0x1000]);
}

#[test]
fn contents_of_frames() {
    let mut space = AddressSpace::new();
    space.map_with_data(page(0x1000), frame(0x7000), PageFlags::present_writable(), vec![Some(9); 4096], None).unwrap();
    space.map_to(page(0x2000), frame(0x5000), PageFlags::present()).unwrap();
    assert_eq!(space.data_byte(page(0x1000), 4095), Some(Some(9)));
    assert_eq!(space.data_byte(page(0x2000), 0), None);
    assert_eq!(space.data_byte(page(0x3000), 0), None);
    assert!(space.set_data_byte(page(0x1000), 7, 1));
    assert!(!space.set_data_byte(page(0x2000), 7, 1));
    assert!(!space.set_data_byte(page(0x3000), 7, 1));
    let data = space.data(page(0x1000)).unwrap();
    assert_eq!((data[6], data[7], data[8]), (Some(9), Some(1), Some(9)));
    assert!(space.data(page(0x2000)).is_none());
    assert_eq!(space.translate(page(0x2000)), Some((frame(0x5000), PageFlags::present())));
    let mut partly = vec![None; 4096];
    partly[3] = Some(5);
    assert!(space.set_data(page(0x2000), partly));
    assert!(!space.set_data(page(0x3000), vec![None; 4096]));
    assert_eq!(space.data_byte(page(0x2000), 3), Some(Some(5)));
    assert_eq!(space.data_byte(page(0x2000), 4), Some(None));
    assert_eq!(space.translate(page(0x2000)), Some((frame(0x5000), PageFlags::present())));
    assert_eq!(space.copy_source(page(0x2000)), None);
    space.map_with_data(page(0x4000), frame(0x8000), PageFlags::present(), vec![None; 4096], Some(frame(0x5000))).unwrap();
    assert_eq!(space.copy_source(page(0x4000)), Some(frame(0x5000)));
    assert_eq!(space.copy_source(page(0x3000)), None);
    assert!(space.update_flags(page(0x4000), PageFlags::present_writable()));
    assert_eq!(space.copy_source(page(0x4000)), Some(frame(0x5000)));
}
