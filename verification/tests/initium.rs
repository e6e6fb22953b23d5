use initium::addr::{Page, PageTableIndex, PhysAddr, PhysFrame, VirtAddr};
use initium::boot::BootConfig;
use initium::descriptor::{MemoryDescriptor, UefiMemoryDescriptor, CONVENTIONAL, LOADER_DATA};
use initium::entries::Entries;
use initium::error::LoadError;
use initium::frame_allocator::LegacyFrameAllocator;
use initium::framebuffer::{FramebufferInfo, PixelFormat};
use initium::initium::{
    create_boot_info, identity_map, map_boot_info, map_context_switch, map_framebuffer, map_gdt,
    map_ramdisk, map_stack, mapping_addr, mapping_addr_page_aligned, set_up_mappings,
    switch_to_kernel, BootError, Mappings, PageTables, RawFramebufferInfo, Stage, SystemInfo,
    code_page_flags, data_page_flags, frames_between,
};
use initium::kernel::Kernel;
use initium::memory::{MemoryRegion, MemoryRegionKind};
use initium::optional::Optional;
use initium::paging::{AddressSpace, PageFlags};

const KERNEL_AT: u64 = 0x40_0000;
const DATA: PageFlags = PageFlags { present: true, writable: true, no_execute: false, copied: false };
const CODE: PageFlags = PageFlags { present: true, writable: false, no_execute: false, copied: false };

fn put(bytes: &mut [u8], at: usize, value: u64, len: usize) {
    bytes[at..at + len].copy_from_slice(&value.to_le_bytes()[..len]);
}

/// An executable with one segment of code at 0x20_0000.
fn kernel_file() -> Vec<u8> {
    let mut bytes = vec![0u8; 0x2000];
    bytes[..4].copy_from_slice(&[0x7f, b'E', b'L', b'F']);
    bytes[4] = 2;
    bytes[5] = 1;
    bytes[6] = 1;
    put(&mut bytes, 16, 2, 2);
    put(&mut bytes, 24, 0x20_0040, 8);
    put(&mut bytes, 32, 64, 8);
    put(&mut bytes, 52, 64, 2);
    put(&mut bytes, 54, 56, 2);
    put(&mut bytes, 56, 1, 2);
    put(&mut bytes, 64, 1, 4);
    put(&mut bytes, 68, 5, 4);
    put(&mut bytes, 72, 0, 8);
    put(&mut bytes, 80, 0x20_0000, 8);
    put(&mut bytes, 96, 0x1000, 8);
    put(&mut bytes, 104, 0x1000, 8);
    put(&mut bytes, 112, 0x1000, 8);
    bytes
}

fn descriptor(ty: u32, start: u64, pages: u64) -> UefiMemoryDescriptor {
    UefiMemoryDescriptor(MemoryDescriptor { ty, phys_start: start, virt_start: 0, page_count: pages, att: 0 })
}

fn allocator() -> LegacyFrameAllocator<UefiMemoryDescriptor> {
    LegacyFrameAllocator::new(vec![
        descriptor(CONVENTIONAL, 0x10_0000, 0x100),
        descriptor(LOADER_DATA, KERNEL_AT, 2),
    ])
}

fn tables() -> PageTables {
    PageTables {
        bootloader: AddressSpace::new(),
        kernel: AddressSpace::new(),
        kernel_level_4_frame: PhysFrame::containing_address(PhysAddr::new(0x7000)),
    }
}

fn info(byte_len: usize) -> FramebufferInfo {
    FramebufferInfo { width: 4, height: 2, pixel_format: PixelFormat::Bgr, byte_len, bytes_per_pixel: 4, stride: 4 }
}

fn page(addr: u64) -> Page {
    Page::from_start_address(VirtAddr::new(addr)).unwrap()
}

fn mapped(space: &AddressSpace, addr: u64) -> Option<(u64, PageFlags)> {
    space.translate(page(addr)).map(|(frame, flags)| (frame.start_address().as_u64(), flags))
}

const L4: u64 = 0x80_0000_0000;

fn set_up(framebuffer: Option<RawFramebufferInfo>, ramdisk: Option<(u64, u64)>) -> (Result<Mappings, BootError>, PageTables, LegacyFrameAllocator<UefiMemoryDescriptor>) {
    let bytes = kernel_file();
    let mut frames = allocator();
    let mut page_tables = tables();
    let system_info = SystemInfo {
        framebuffer,
        rsdp_addr: Some(PhysAddr::new(0xe_0000)),
        ramdisk_addr: ramdisk.map(|r| r.0),
        ramdisk_len: ramdisk.map(|r| r.1).unwrap_or(0),
    };
    let result = set_up_mappings(
        Kernel::parse(&bytes, KERNEL_AT),
        &mut frames,
        &mut page_tables,
        framebuffer.as_ref(),
        &system_info,
        PhysAddr::new(0x9_1234),
    );
    (result, page_tables, frames)
}

#[test]
fn stack_layout() {
    let mut space = AddressSpace::new();
    let mut frames = allocator();
    let mut entries = Entries::new();
    let stack_top = map_stack(&mut space, &mut frames, &mut entries).unwrap();
    let stack_start = L4 + 0x1000;
    assert_eq!(stack_top.as_u64(), stack_start + 0x14000);
    assert_eq!(stack_top.as_u64() % 16, 0);
    assert_eq!(mapped(&space, stack_start - 4096), None);
    for i in 0..20 {
        assert_eq!(mapped(&space, stack_start + i * 0x1000), Some((0x10_0000 + i * 0x1000, DATA)));
    }
    assert_eq!(mapped(&space, stack_start + 0x14000), None);
    assert_eq!(space.pages().len(), 20);
    assert!(entries.is_used(PageTableIndex::new(1)));
    assert!(!entries.is_used(PageTableIndex::new(2)));
    let mut none = LegacyFrameAllocator::new(vec![descriptor(CONVENTIONAL, 0x10_0000, 19)]);
    assert_eq!(map_stack(&mut AddressSpace::new(), &mut none, &mut Entries::new()), Err(LoadError::FrameAllocationFailed));
}

#[test]
fn address_space_is_set_up_in_order() {
    let framebuffer = RawFramebufferInfo { addr: PhysAddr::new(0xc000_0800), info: info(0x2000) };
    let (result, page_tables, mut frames) = set_up(Some(framebuffer), Some((0x30_0000, 0x2001)));
    let mappings = result.unwrap();
    let kernel = &page_tables.kernel;
    assert_eq!(mappings.entry_point.as_u64(), 0x20_0040);
    assert_eq!(mapped(kernel, 0x20_0000), Some((KERNEL_AT, CODE)));
    assert_eq!(mappings.stack_top.as_u64(), L4 + 0x15000);
    assert_eq!(mapped(kernel, L4), None);
    assert_eq!(mapped(kernel, L4 + 0x1000), Some((0x10_0000, DATA)));
    assert_eq!(mapped(kernel, L4 + 0x14000), Some((0x11_3000, DATA)));
    assert_eq!(mapped(kernel, 0x9_1000), Some((0x9_1000, CODE)));
    assert_eq!(mapped(kernel, 0x9_2000), Some((0x9_2000, CODE)));
    assert_eq!(mappings.gdt_frame.start_address().as_u64(), 0x11_4000);
    assert_eq!(mapped(kernel, 0x11_4000), Some((0x11_4000, CODE)));
    assert_eq!(mappings.framebuffer.unwrap().as_u64(), 2 * L4);
    assert_eq!(mapped(kernel, 2 * L4), Some((0xc000_0000, DATA)));
    assert_eq!(mapped(kernel, 2 * L4 + 0x1000), Some((0xc000_1000, DATA)));
    assert_eq!(mapped(kernel, 2 * L4 + 0x2000), Some((0xc000_2000, DATA)));
    assert_eq!(mapped(kernel, 2 * L4 + 0x3000), None);
    assert_eq!(mappings.ramdisk_slice_start.unwrap().as_u64(), 3 * L4);
    assert_eq!(mappings.ramdisk_slice_len, 0x2001);
    assert_eq!(mapped(kernel, 3 * L4), Some((0x30_0000, DATA)));
    assert_eq!(mapped(kernel, 3 * L4 + 0x2000), Some((0x30_2000, DATA)));
    assert_eq!(mapped(kernel, 3 * L4 + 0x3000), None);
    assert_eq!((mappings.kernel_slice_start, mappings.kernel_slice_len), (KERNEL_AT, 0x2000));
    assert_eq!(mappings.tls_template, None);
    assert!(mappings.physical_memory_offset.is_none() && mappings.recursive_index.is_none());
    assert_eq!(kernel.pages().len(), 1 + 20 + 2 + 1 + 3 + 3);
    assert!(page_tables.bootloader.pages().is_empty());
    assert_eq!(frames.allocate_frame().unwrap().start_address().as_u64(), 0x11_5000);
    for i in 0..4 {
        assert!(mappings.used_entries.is_used(PageTableIndex::new(i)));
    }
    assert!(!mappings.used_entries.is_used(PageTableIndex::new(4)));
}

#[test]
fn failures_name_what_was_being_done() {
    let stage = |result: Result<Mappings, BootError>| result.err().unwrap();
    let bad_kernel = {
        let mut bytes = kernel_file();
        put(&mut bytes, 16, 1, 2);
        let mut frames = allocator();
        let system_info = SystemInfo { framebuffer: None, rsdp_addr: None, ramdisk_addr: None, ramdisk_len: 0 };
        set_up_mappings(Kernel::parse(&bytes, KERNEL_AT), &mut frames, &mut tables(), None, &system_info, PhysAddr::new(0))
    };
    let error = stage(bad_kernel);
    assert_eq!(error, BootError { stage: Stage::Kernel, cause: LoadError::UnsupportedObjectType });
    assert_eq!(error.stage_name(), "loading the kernel");
    let empty_framebuffer = RawFramebufferInfo { addr: PhysAddr::new(0xc000_0800), info: info(0) };
    assert_eq!(stage(set_up(Some(empty_framebuffer), None).0), BootError { stage: Stage::Framebuffer, cause: LoadError::NoFreeAddress });
    let far_framebuffer = RawFramebufferInfo { addr: PhysAddr::new(0xf_ffff_ffff_f000), info: info(0x1000) };
    assert_eq!(stage(set_up(Some(far_framebuffer), None).0), BootError { stage: Stage::Framebuffer, cause: LoadError::AddressOutOfRange });
    assert_eq!(stage(set_up(None, Some((0x30_0000, 0))).0), BootError { stage: Stage::Ramdisk, cause: LoadError::NoFreeAddress });
    assert_eq!(stage(set_up(None, Some((1 << 52, 1))).0), BootError { stage: Stage::Ramdisk, cause: LoadError::AddressOutOfRange });
    let over_stack = {
        let bytes = kernel_file();
        let mut frames = allocator();
        let system_info = SystemInfo { framebuffer: None, rsdp_addr: None, ramdisk_addr: None, ramdisk_len: 0 };
        set_up_mappings(Kernel::parse(&bytes, KERNEL_AT), &mut frames, &mut tables(), None, &system_info, PhysAddr::new(0x20_0000))
    };
    assert_eq!(stage(over_stack), BootError { stage: Stage::ContextSwitch, cause: LoadError::MapToFailed });
}

#[test]
fn single_mappings() {
    let mut space = AddressSpace::new();
    let frame = PhysFrame::containing_address(PhysAddr::new(0x5000));
    assert_eq!(identity_map(&mut space, frame, code_page_flags()), Ok(()));
    assert_eq!(mapped(&space, 0x5000), Some((0x5000, CODE)));
    assert_eq!(identity_map(&mut space, frame, data_page_flags()), Err(LoadError::MapToFailed));
    let high = PhysFrame::containing_address(PhysAddr::new(0x8000_0000_1000));
    assert_eq!(identity_map(&mut space, high, data_page_flags()), Ok(()));
    assert_eq!(mapped(&space, 0xffff_8000_0000_1000), Some((0x8000_0000_1000, DATA)));
    let beyond = PhysFrame::containing_address(PhysAddr::new(0x1_0000_0000_0000));
    assert_eq!(identity_map(&mut space, beyond, data_page_flags()), Err(LoadError::AddressOutOfRange));
    assert_eq!(map_context_switch(&mut space, PhysAddr::new(0x4fff)), Err(LoadError::MapToFailed));
    assert_eq!(mapped(&space, 0x4000), Some((0x4000, CODE)));
    assert_eq!(map_context_switch(&mut space, PhysAddr::new(0xf_ffff_ffff_e000)), Err(LoadError::AddressOutOfRange));
    let mut frames = allocator();
    assert_eq!(map_gdt(&mut space, &mut frames).unwrap().start_address().as_u64(), 0x10_0000);
    assert_eq!(frames_between(0x1800, 0x3000).map(|(f, n)| (f.start_address().as_u64(), n)), Ok((0x1000, 3)));
    assert_eq!(frames_between(0x2000, 0x1fff).map(|(f, n)| (f.start_address().as_u64(), n)), Ok((0x2000, 0)));
    let mut entries = Entries::new();
    assert_eq!(map_framebuffer(&mut space, &mut entries, &RawFramebufferInfo { addr: PhysAddr::new(0xa000), info: info(1) }).unwrap().as_u64(), L4);
    assert_eq!(map_ramdisk(&mut space, &mut entries, 0xb123, 0x1000).unwrap().as_u64(), 2 * L4);
    assert_eq!(mapped(&space, 2 * L4), Some((0xb000, DATA)));
    assert_eq!(mapped(&space, 2 * L4 + 0x1000), None);
}

#[test]
fn reserved_addresses_are_aligned_or_refused() {
    let mut entries = Entries::new();
    assert_eq!(mapping_addr(1, 4096, &mut entries).unwrap().as_u64(), L4);
    assert_eq!(mapping_addr(1, 1 << 40, &mut entries).unwrap().as_u64(), 2 * L4);
    assert_eq!(mapping_addr(1, 1 << 40, &mut entries), Err(LoadError::AddressNotAligned));
    assert_eq!(mapping_addr(1, 24, &mut entries), Err(LoadError::NoFreeAddress));
    assert_eq!(mapping_addr_page_aligned(1, &mut entries).unwrap().start_address().as_u64(), 4 * L4);
    assert_eq!(mapping_addr_page_aligned(0, &mut entries), Err(LoadError::NoFreeAddress));
}

#[test]
fn boot_info_is_mapped_in_both_address_spaces() {
    let (result, mut page_tables, mut frames) = set_up(None, None);
    let mut mappings = result.unwrap();
    let placement = map_boot_info(&mut frames, &mut page_tables, &mut mappings).unwrap();
    assert_eq!(placement.boot_info_addr.as_u64(), 2 * L4);
    assert_eq!(placement.memory_regions_addr.as_u64(), 2 * L4 + 168);
    assert_eq!(placement.regions, 6);
    assert_eq!(placement.size, 168 + 6 * 24);
    assert_eq!(page_tables.bootloader.pages(), vec![2 * L4]);
    assert_eq!(mapped(&page_tables.bootloader, 2 * L4), Some((0x11_5000, DATA)));
    assert_eq!(mapped(&page_tables.kernel, 2 * L4), Some((0x11_5000, DATA)));
    assert!(mappings.used_entries.is_used(PageTableIndex::new(2)));
    assert_eq!(mappings.stack_top.as_u64(), L4 + 0x15000);
}

#[test]
fn boot_info_covers_several_pages_for_a_long_memory_map() {
    let mut descriptors = Vec::new();
    for i in 0..400u64 {
        descriptors.push(descriptor(CONVENTIONAL, 0x10_0000 + i * 0x2000, 1));
    }
    let mut frames = LegacyFrameAllocator::new(descriptors);
    let mut page_tables = tables();
    let (result, _, _) = set_up(None, None);
    let mut mappings = result.unwrap();
    let placement = map_boot_info(&mut frames, &mut page_tables, &mut mappings).unwrap();
    assert_eq!(placement.size, 168 + 404 * 24);
    assert_eq!(page_tables.kernel.pages(), vec![2 * L4, 2 * L4 + 0x1000, 2 * L4 + 0x2000]);
    assert_eq!(page_tables.bootloader.pages(), page_tables.kernel.pages());
    for (i, p) in page_tables.kernel.pages().iter().enumerate() {
        let expected = Some((0x10_0000 + i as u64 * 0x2000, DATA));
        assert_eq!(mapped(&page_tables.kernel, *p), expected);
        assert_eq!(mapped(&page_tables.bootloader, *p), expected);
    }
    let mut short = LegacyFrameAllocator::new(vec![descriptor(CONVENTIONAL, 0x10_0000, 0)]);
    let error = map_boot_info(&mut short, &mut tables(), &mut mappings).err().unwrap();
    assert_eq!(error, BootError { stage: Stage::BootInfo, cause: LoadError::FrameAllocationFailed });
    assert_eq!(error.stage_name(), "creating the boot info");
}

#[test]
fn boot_info_holds_the_memory_map_and_the_addresses() {
    let framebuffer = RawFramebufferInfo { addr: PhysAddr::new(0xc000_0000), info: info(32) };
    let (result, mut page_tables, mut frames) = set_up(Some(framebuffer), Some((0x30_0000, 0x800)));
    let mut mappings = result.unwrap();
    let placement = map_boot_info(&mut frames, &mut page_tables, &mut mappings).unwrap();
    let system_info = SystemInfo {
        framebuffer: Some(framebuffer),
        rsdp_addr: Some(PhysAddr::new(0xe_0000)),
        ramdisk_addr: Some(0x30_0000),
        ramdisk_len: 0x800,
    };
    let config = BootConfig { framebuffer_width: 1280, framebuffer_height: 720 };
    let boot_info = create_boot_info(&config, frames, &mappings, system_info, placement.regions).unwrap();
    assert_eq!(
        boot_info.memory_regions.regions,
        vec![
            MemoryRegion { start: 0x10_0000, end: 0x11_6000, kind: MemoryRegionKind::Bootloader },
            MemoryRegion { start: 0x11_6000, end: 0x20_0000, kind: MemoryRegionKind::Usable },
            MemoryRegion { start: KERNEL_AT, end: KERNEL_AT + 0x2000, kind: MemoryRegionKind::Bootloader },
        ]
    );
    match boot_info.framebuffer {
        Optional::Present(fb) => {
            assert_eq!(fb.start_address, 4 * L4 - 2 * L4);
            assert_eq!(fb.info().byte_len, 32);
            assert_eq!(fb.info().pixel_format, PixelFormat::Bgr);
        }
        Optional::Absent => panic!("the framebuffer is missing"),
    }
    assert_eq!(boot_info.physical_memory_offset, Optional::Absent);
    assert_eq!(boot_info.rsdp_address, Optional::Present(0xe_0000));
    assert_eq!(boot_info.tls_template, Optional::Absent);
    assert_eq!(boot_info.ramdisk_address, Optional::Present(3 * L4));
    assert_eq!(boot_info.ramdisk_len, 0x800);
}

#[test]
fn boot_info_fails_where_the_memory_map_cannot_be_written() {
    let config = BootConfig { framebuffer_width: 1280, framebuffer_height: 720 };
    let none = SystemInfo { framebuffer: None, rsdp_addr: None, ramdisk_addr: None, ramdisk_len: 0 };
    let (result, _, frames) = set_up(None, None);
    let mut mappings = result.unwrap();
    let error = create_boot_info(&config, frames, &mappings, none, 2).err().unwrap();
    assert_eq!(error, BootError { stage: Stage::BootInfo, cause: LoadError::MemoryMapOverflow });
    let (_, _, frames) = set_up(None, None);
    mappings.kernel_slice_len = 0x3000;
    let error = create_boot_info(&config, frames, &mappings, none, 6).err().unwrap();
    assert_eq!(error.cause, LoadError::KernelOutsideRegion);
    let (_, _, frames) = set_up(None, None);
    mappings.kernel_slice_start = u64::MAX;
    assert_eq!(create_boot_info(&config, frames, &mappings, none, 6).err().unwrap().cause, LoadError::AddressOutOfRange);
    let (_, _, frames) = set_up(None, None);
    mappings.kernel_slice_start = KERNEL_AT;
    mappings.kernel_slice_len = 0x2000;
    mappings.framebuffer = Some(VirtAddr::new(0x1000));
    assert_eq!(create_boot_info(&config, frames, &mappings, none, 6).err().unwrap().cause, LoadError::FramebufferMissing);
    assert!(LoadError::FramebufferMissing.is_fatal());
}

#[test]
fn handoff_register_contract() {
    let (result, mut page_tables, mut frames) = set_up(None, None);
    let mut mappings = result.unwrap();
    let placement = map_boot_info(&mut frames, &mut page_tables, &mut mappings).unwrap();
    let stack_top = mappings.stack_top;
    let addresses = switch_to_kernel(page_tables, mappings, placement.boot_info_addr);
    assert_eq!(addresses.stack_top, stack_top);
    assert_eq!(addresses.stack_top.as_u64(), L4 + 0x15000);
    assert_eq!(addresses.boot_info.as_u64(), 2 * L4);
    assert_eq!(addresses.entry_point.as_u64(), 0x20_0040);
    assert_eq!(addresses.page_table.start_address().as_u64(), 0x7000);
}
