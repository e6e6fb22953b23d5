use initium::addr::{PhysAddr, PhysFrame};
use initium::descriptor::{
    memory_map_is_ok, MemoryDescriptor, UefiMemoryDescriptor, BOOT_SERVICES_DATA, CONVENTIONAL,
    LOADER_DATA, RUNTIME_SERVICES_CODE, RUNTIME_SERVICES_DATA,
};
use initium::frame_allocator::{LegacyFrameAllocator, LegacyMemoryRegion};
use initium::memory::{MemoryRegion, MemoryRegionKind};

fn region(ty: u32, start: u64, pages: u64) -> UefiMemoryDescriptor {
    UefiMemoryDescriptor(MemoryDescriptor { ty, phys_start: start, virt_start: 0, page_count: pages, att: 0 })
}

fn map_of(allocator: LegacyFrameAllocator<UefiMemoryDescriptor>, slots: usize, start: u64, len: u64) -> Vec<MemoryRegion> {
    let mut buffer = vec![MemoryRegion::empty(); slots];
    let count = allocator.construct_memory_map(&mut buffer, start, len);
    buffer.truncate(count);
    buffer
}

#[test]
fn descriptor_classification() {
    let conventional = region(CONVENTIONAL, 0x1000, 2);
    assert_eq!(conventional.start().as_u64(), 0x1000);
    assert_eq!(conventional.len(), 0x2000);
    assert!(!conventional.is_empty());
    assert_eq!(conventional.kind(), MemoryRegionKind::Usable);
    assert!(conventional.usable_after_bootloader_exit());
    let loader = region(LOADER_DATA, 0x5000, 0);
    assert!(loader.is_empty());
    assert_eq!(loader.kind(), MemoryRegionKind::UnknownUefi(LOADER_DATA));
    assert!(loader.usable_after_bootloader_exit());
    assert!(region(BOOT_SERVICES_DATA, 0, 1).usable_after_bootloader_exit());
    let runtime = region(RUNTIME_SERVICES_CODE, 0x9000, 1);
    assert_eq!(runtime.kind(), MemoryRegionKind::UnknownUefi(RUNTIME_SERVICES_CODE));
    assert!(!runtime.usable_after_bootloader_exit());
    assert!(!region(RUNTIME_SERVICES_DATA, 0x9000, 1).usable_after_bootloader_exit());
    assert!(!region(11, 0x9000, 1).usable_after_bootloader_exit());
}

#[test]
fn memory_map_validity() {
    assert!(memory_map_is_ok(&vec![region(CONVENTIONAL, 0x1000, 0xff), region(11, 0xf_0000_0000, 16)]));
    assert!(!memory_map_is_ok(&vec![region(CONVENTIONAL, 0, 0)]));
    assert!(memory_map_is_ok(&vec![region(LOADER_DATA, 0, 0)]));
    assert!(!memory_map_is_ok(&vec![region(11, 0x10_0000_0000_0000, 1)]));
    assert!(!memory_map_is_ok(&vec![region(11, 0x1000, u64::MAX)]));
    assert!(memory_map_is_ok(&vec![region(CONVENTIONAL, 0xf_ffff_ffff_e000, 1)]));
    assert!(!memory_map_is_ok(&vec![region(CONVENTIONAL, 0xf_ffff_ffff_e800, 1)]));
    assert!(memory_map_is_ok(&vec![region(LOADER_DATA, 0xf_ffff_ffff_e800, 1)]));
    assert!(!memory_map_is_ok(&vec![region(LOADER_DATA, 0xf_ffff_ffff_f000, 1)]));
}

#[test]
fn allocation_skips_frame_zero_and_unusable_regions() {
    let map = vec![
        region(CONVENTIONAL, 0, 3),
        region(LOADER_DATA, 0x3000, 2),
        region(CONVENTIONAL, 0x5000, 1),
        region(CONVENTIONAL, 0x8000, 2),
    ];
    let mut allocator = LegacyFrameAllocator::new(map);
    assert_eq!(allocator.len(), 4);
    assert!(!allocator.is_empty());
    let mut frames = Vec::new();
    while let Some(frame) = allocator.allocate_frame() {
        frames.push(frame.start_address().as_u64());
    }
    assert_eq!(frames, vec![0x1000, 0x2000, 0x5000, 0x8000, 0x9000]);
    assert!(allocator.allocate_frame().is_none());
    assert_eq!(allocator.len(), 4);
    assert_eq!(allocator.max_physical_address().as_u64(), 0xa000);
}

#[test]
fn allocation_advances_by_one_frame_each_time() {
    let mut allocator = LegacyFrameAllocator::new(vec![region(CONVENTIONAL, 0x10_0000, 0x100)]);
    for k in 0..0x100u64 {
        let frame = allocator.allocate_frame().unwrap();
        assert_eq!(frame.start_address().as_u64(), 0x10_0000 + k * 4096);
    }
    assert!(allocator.allocate_frame().is_none());
}

#[test]
fn allocation_starts_at_the_given_frame() {
    let start = PhysFrame::containing_address(PhysAddr::new(0x4000));
    let mut allocator = LegacyFrameAllocator::new_starting_at(
        start,
        vec![region(CONVENTIONAL, 0x1000, 2), region(CONVENTIONAL, 0x3000, 3)],
    );
    assert_eq!(allocator.allocate_frame().unwrap().start_address().as_u64(), 0x4000);
    assert_eq!(allocator.allocate_frame().unwrap().start_address().as_u64(), 0x5000);
    assert!(allocator.allocate_frame().is_none());
}

#[test]
fn allocation_never_goes_back_to_a_lower_region() {
    let mut allocator = LegacyFrameAllocator::new(vec![region(CONVENTIONAL, 0x8000, 1), region(CONVENTIONAL, 0x2000, 4)]);
    assert_eq!(allocator.allocate_frame().unwrap().start_address().as_u64(), 0x8000);
    assert!(allocator.allocate_frame().is_none());
}

#[test]
fn memory_map_reconciliation_with_kernel_overlap() {
    let mut allocator = LegacyFrameAllocator::new(vec![region(CONVENTIONAL, 0x1000, 0xff)]);
    assert_eq!(allocator.allocate_frame().unwrap().start_address().as_u64(), 0x1000);
    assert_eq!(allocator.allocate_frame().unwrap().start_address().as_u64(), 0x2000);
    let regions = map_of(allocator, 5, 0x10000, 0x10000);
    assert_eq!(
        regions,
        vec![
            MemoryRegion { start: 0x1000, end: 0x3000, kind: MemoryRegionKind::Bootloader },
            MemoryRegion { start: 0x3000, end: 0x10000, kind: MemoryRegionKind::Usable },
            MemoryRegion { start: 0x10000, end: 0x20000, kind: MemoryRegionKind::Bootloader },
            MemoryRegion { start: 0x20000, end: 0x100000, kind: MemoryRegionKind::Usable },
        ]
    );
}

#[test]
fn memory_map_classifies_every_kind_of_region() {
    let mut allocator = LegacyFrameAllocator::new(vec![
        region(CONVENTIONAL, 0x1000, 1),
        region(CONVENTIONAL, 0x2000, 2),
        region(LOADER_DATA, 0x4000, 4),
        region(RUNTIME_SERVICES_DATA, 0x8000, 1),
        region(CONVENTIONAL, 0x9000, 0),
        region(CONVENTIONAL, 0xa000, 1),
    ]);
    assert_eq!(allocator.allocate_frame().unwrap().start_address().as_u64(), 0x1000);
    assert_eq!(allocator.allocate_frame().unwrap().start_address().as_u64(), 0x2000);
    let buffer_before = vec![MemoryRegion { start: 7, end: 9, kind: MemoryRegionKind::UnknownUefi(3) }; 10];
    let mut buffer = buffer_before.clone();
    let count = allocator.construct_memory_map(&mut buffer, 0x5000, 0x1000);
    assert_eq!(count, 8);
    assert_eq!(
        buffer[..count].to_vec(),
        vec![
            MemoryRegion { start: 0x1000, end: 0x2000, kind: MemoryRegionKind::Bootloader },
            MemoryRegion { start: 0x2000, end: 0x3000, kind: MemoryRegionKind::Bootloader },
            MemoryRegion { start: 0x3000, end: 0x4000, kind: MemoryRegionKind::Usable },
            MemoryRegion { start: 0x4000, end: 0x5000, kind: MemoryRegionKind::Usable },
            MemoryRegion { start: 0x5000, end: 0x6000, kind: MemoryRegionKind::Bootloader },
            MemoryRegion { start: 0x6000, end: 0x8000, kind: MemoryRegionKind::Usable },
            MemoryRegion { start: 0x8000, end: 0x9000, kind: MemoryRegionKind::UnknownUefi(RUNTIME_SERVICES_DATA) },
            MemoryRegion { start: 0xa000, end: 0xb000, kind: MemoryRegionKind::Usable },
        ]
    );
    assert_eq!(buffer[count..], buffer_before[count..]);
}

#[test]
fn memory_map_is_sorted_and_covers_what_was_usable() {
    let descriptors = vec![
        region(CONVENTIONAL, 0x1000, 0x20),
        region(BOOT_SERVICES_DATA, 0x21000, 0x10),
        region(CONVENTIONAL, 0x40000, 0x40),
        region(11, 0x90000, 2),
    ];
    let mut allocator = LegacyFrameAllocator::new(descriptors.clone());
    for _ in 0..0x25 {
        allocator.allocate_frame().unwrap();
    }
    let regions = map_of(allocator, descriptors.len() + 4, 0x50000, 0x3000);
    assert!(regions.len() <= descriptors.len() + 4);
    for pair in regions.windows(2) {
        assert!(pair[0].start < pair[0].end);
        assert!(pair[0].end <= pair[1].start);
    }
    let mut address = 0u64;
    while address < 0xa0000 {
        let given = descriptors.iter().any(|d| {
            d.usable_after_bootloader_exit() && d.0.phys_start <= address && address < d.0.phys_start + d.0.page_count * 4096
        });
        let covered = regions.iter().any(|r| {
            (r.kind == MemoryRegionKind::Usable || r.kind == MemoryRegionKind::Bootloader) && r.start <= address && address < r.end
        });
        assert_eq!(given, covered, "address {address:#x}");
        address += 0x1000;
    }
    assert!(regions.contains(&MemoryRegion { start: 0x50000, end: 0x53000, kind: MemoryRegionKind::Bootloader }));
    assert!(regions.contains(&MemoryRegion { start: 0x90000, end: 0x92000, kind: MemoryRegionKind::UnknownUefi(11) }));
}

#[test]
fn empty_region_is_the_boot_loaders() {
    assert_eq!(MemoryRegion::empty(), MemoryRegion { start: 0, end: 0, kind: MemoryRegionKind::Bootloader });
}

#[test]
fn a_map_in_any_order_gives_regions_that_do_not_overlap() {
    let mut allocator = LegacyFrameAllocator::new(vec![
        region(CONVENTIONAL, 0x20000, 0x10),
        region(RUNTIME_SERVICES_DATA, 0x8000, 1),
        region(CONVENTIONAL, 0x1000, 4),
        region(LOADER_DATA, 0x10000, 2),
    ]);
    assert_eq!(allocator.allocate_frame().unwrap().start_address().as_u64(), 0x20000);
    assert_eq!(allocator.allocate_frame().unwrap().start_address().as_u64(), 0x21000);
    let regions = map_of(allocator, 8, 0x28000, 0x2000);
    assert_eq!(
        regions,
        vec![
            MemoryRegion { start: 0x20000, end: 0x22000, kind: MemoryRegionKind::Bootloader },
            MemoryRegion { start: 0x22000, end: 0x28000, kind: MemoryRegionKind::Usable },
            MemoryRegion { start: 0x28000, end: 0x2a000, kind: MemoryRegionKind::Bootloader },
            MemoryRegion { start: 0x2a000, end: 0x30000, kind: MemoryRegionKind::Usable },
            MemoryRegion { start: 0x8000, end: 0x9000, kind: MemoryRegionKind::UnknownUefi(RUNTIME_SERVICES_DATA) },
            MemoryRegion { start: 0x1000, end: 0x5000, kind: MemoryRegionKind::Bootloader },
            MemoryRegion { start: 0x10000, end: 0x12000, kind: MemoryRegionKind::Usable },
        ]
    );
    assert!(regions.len() <= 4 + 3);
    for (i, a) in regions.iter().enumerate() {
        assert!(a.start < a.end);
        for b in &regions[i + 1..] {
            assert!(a.end <= b.start || b.end <= a.start);
        }
    }
}

#[test]
fn frames_follow_each_other_in_a_region_that_is_reached_past_others() {
    let mut allocator = LegacyFrameAllocator::new(vec![
        region(RUNTIME_SERVICES_CODE, 0x1000, 4),
        region(CONVENTIONAL, 0x5000, 1),
        region(BOOT_SERVICES_DATA, 0x6000, 2),
        region(CONVENTIONAL, 0x10000, 0),
        region(CONVENTIONAL, 0x20000, 5),
    ]);
    assert_eq!(allocator.allocate_frame().unwrap().start_address().as_u64(), 0x5000);
    for k in 0..5u64 {
        assert_eq!(allocator.allocate_frame().unwrap().start_address().as_u64(), 0x20000 + k * 0x1000);
    }
    assert!(allocator.allocate_frame().is_none());
}
