use initium::addr::{Page, PhysAddr, PhysFrame, VirtAddr};
use initium::descriptor::{MemoryDescriptor, UefiMemoryDescriptor, CONVENTIONAL};
use initium::entries::Entries;
use initium::error::LoadError;
use initium::frame_allocator::LegacyFrameAllocator;
use initium::kernel::memory::Inner;
use initium::kernel::{load_kernel, Kernel, Loader, VirtualAddressOffset};
use initium::paging::{AddressSpace, PageFlags};
use initium::tls_template::TlsTemplate;

const KERNEL_AT: u64 = 0x40_0000;

struct Segment {
    type_: u32,
    flags: u32,
    offset: u64,
    vaddr: u64,
    file_size: u64,
    mem_size: u64,
    align: u64,
}

fn put(bytes: &mut [u8], at: usize, value: u64, len: usize) {
    bytes[at..at + len].copy_from_slice(&value.to_le_bytes()[..len]);
}

fn elf(object_type: u16, entry: u64, segments: &[Segment], len: usize) -> Vec<u8> {
    let mut bytes = vec![0u8; len];
    bytes[..4].copy_from_slice(&[0x7f, b'E', b'L', b'F']);
    bytes[4] = 2;
    bytes[5] = 1;
    bytes[6] = 1;
    put(&mut bytes, 16, object_type as u64, 2);
    put(&mut bytes, 18, 0x3e, 2);
    put(&mut bytes, 20, 1, 4);
    put(&mut bytes, 24, entry, 8);
    put(&mut bytes, 32, 64, 8);
    put(&mut bytes, 40, 0, 8);
    put(&mut bytes, 52, 64, 2);
    put(&mut bytes, 54, 56, 2);
    put(&mut bytes, 56, segments.len() as u64, 2);
    put(&mut bytes, 58, 64, 2);
    put(&mut bytes, 60, 0, 2);
    for (i, s) in segments.iter().enumerate() {
        let at = 64 + i * 56;
        put(&mut bytes, at, s.type_ as u64, 4);
        put(&mut bytes, at + 4, s.flags as u64, 4);
        put(&mut bytes, at + 8, s.offset, 8);
        put(&mut bytes, at + 16, s.vaddr, 8);
        put(&mut bytes, at + 24, s.vaddr, 8);
        put(&mut bytes, at + 32, s.file_size, 8);
        put(&mut bytes, at + 40, s.mem_size, 8);
        put(&mut bytes, at + 48, s.align, 8);
    }
    bytes
}

fn load(vaddr: u64, offset: u64, file_size: u64, mem_size: u64, flags: u32) -> Segment {
    Segment { type_: 1, flags, offset, vaddr, file_size, mem_size, align: 0x1000 }
}

fn allocator() -> LegacyFrameAllocator<UefiMemoryDescriptor> {
    LegacyFrameAllocator::new(vec![UefiMemoryDescriptor(MemoryDescriptor {
        ty: CONVENTIONAL,
        phys_start: 0x10_0000,
        virt_start: 0,
        page_count: 0x100,
        att: 0,
    })])
}

fn page(addr: u64) -> Page {
    Page::from_start_address(VirtAddr::new(addr)).unwrap()
}

fn flags(space: &AddressSpace, addr: u64) -> PageFlags {
    space.translate(page(addr)).unwrap().1
}

fn frame(space: &AddressSpace, addr: u64) -> u64 {
    space.translate(page(addr)).unwrap().0.start_address().as_u64()
}

fn read(bytes: &[u8], offset: i128, space: &AddressSpace, addr: u64, len: usize) -> Vec<u8> {
    let inner = Inner {
        kernel: bytes,
        kernel_offset: PhysAddr::new(KERNEL_AT),
        virtual_address_offset: VirtualAddressOffset::new(offset),
    };
    inner.copy_from(space, VirtAddr::new(addr), len).unwrap()
}

/// An image with a code segment and a data segment whose last 0x1000 bytes the
/// file does not hold, and optionally a dynamic section with one relocation.
fn image(object_type: u16, relocation: Option<(u64, u64)>, relro: bool) -> Vec<u8> {
    let mut segments = vec![load(0, 0, 0x1000, 0x1000, 5), load(0x1000, 0x1000, 0x800, 0x1800, 6)];
    if relocation.is_some() {
        segments.push(Segment { type_: 2, flags: 6, offset: 0x1400, vaddr: 0x1400, file_size: 0x30, mem_size: 0x30, align: 8 });
    }
    if relro {
        segments.push(Segment { type_: 0x6474_e552, flags: 4, offset: 0x1000, vaddr: 0x1000, file_size: 0x800, mem_size: 0x1000, align: 1 });
    }
    let mut bytes = elf(object_type, 0x120, &segments, 0x3000);
    for i in 0x200..0x1800 {
        bytes[i] = (i % 251) as u8 + 1;
    }
    if let Some((offset, addend)) = relocation {
        for i in 0x1400..0x1430 {
            bytes[i] = 0;
        }
        put(&mut bytes, 0x1400, 7, 8);
        put(&mut bytes, 0x1408, 0x1500, 8);
        put(&mut bytes, 0x1410, 8, 8);
        put(&mut bytes, 0x1418, 24, 8);
        put(&mut bytes, 0x1420, 9, 8);
        put(&mut bytes, 0x1428, 24, 8);
        put(&mut bytes, 0x1500, offset, 8);
        put(&mut bytes, 0x1508, 8, 8);
        put(&mut bytes, 0x1510, addend, 8);
    }
    bytes
}

fn loaded(bytes: &[u8], entries: &mut Entries) -> (AddressSpace, LegacyFrameAllocator<UefiMemoryDescriptor>, Result<(VirtAddr, Option<TlsTemplate>), LoadError>) {
    let mut space = AddressSpace::new();
    let mut frames = allocator();
    let kernel = Kernel::parse(bytes, KERNEL_AT);
    let result = load_kernel(kernel, &mut space, &mut frames, entries);
    (space, frames, result)
}

fn entries_with_the_first_128_taken() -> Entries {
    let mut entries = Entries::new();
    assert_eq!(entries.get_free_entries(127).as_u16(), 1);
    entries
}

const V: u64 = 0x4000_0000_0000;

#[test]
fn shared_object_load_with_pie() {
    let bytes = image(3, None, false);
    let mut entries = entries_with_the_first_128_taken();
    let (space, mut frames, result) = loaded(&bytes, &mut entries);
    let (entry, tls) = result.unwrap();
    assert_eq!(entry.as_u64(), V + 0x120);
    assert_eq!(tls, None);
    assert_eq!(flags(&space, V), PageFlags { present: true, writable: false, no_execute: false, copied: false });
    assert_eq!(flags(&space, V + 0x1000), PageFlags { present: true, writable: true, no_execute: true, copied: false });
    assert_eq!(flags(&space, V + 0x2000), PageFlags { present: true, writable: true, no_execute: true, copied: false });
    assert_eq!(frame(&space, V), KERNEL_AT);
    assert_eq!(frame(&space, V + 0x1000), 0x10_0000);
    assert_eq!(frame(&space, V + 0x2000), 0x10_1000);
    assert_eq!(space.pages(), vec![V, V + 0x1000, V + 0x2000]);
    assert_eq!(read(&bytes, V as i128, &space, V + 0x1800, 0x800), vec![0u8; 0x800]);
    assert_eq!(read(&bytes, V as i128, &space, V + 0x2000, 0x1000), vec![0u8; 0x1000]);
    assert_eq!(read(&bytes, V as i128, &space, V + 0x1000, 0x800), bytes[0x1000..0x1800].to_vec());
    assert_eq!(read(&bytes, V as i128, &space, V + 0x200, 0x100), bytes[0x200..0x300].to_vec());
    assert!(space.data(page(V)).is_none());
    assert_eq!(space.data(page(V + 0x2000)).unwrap(), &vec![Some(0u8); 0x1000]);
    assert!(entries.is_used(initium::addr::PageTableIndex::new(128)));
    assert!(!entries.is_used(initium::addr::PageTableIndex::new(129)));
    assert_eq!(frames.allocate_frame().unwrap().start_address().as_u64(), 0x10_2000);
}

#[test]
fn executable_is_loaded_where_its_file_says() {
    let bytes = image(2, None, false);
    let mut entries = Entries::new();
    let (space, _, result) = loaded(&bytes, &mut entries);
    assert_eq!(result.unwrap().0.as_u64(), 0x120);
    assert_eq!(space.pages(), vec![0, 0x1000, 0x2000]);
    assert_eq!(read(&bytes, 0, &space, 0x17f0, 0x20), [bytes[0x17f0..0x1800].to_vec(), vec![0u8; 0x10]].concat());
}

#[test]
fn relative_relocation_round_trip() {
    let bytes = image(3, Some((0x1100, 0x1234)), false);
    let mut entries = entries_with_the_first_128_taken();
    let (space, _, result) = loaded(&bytes, &mut entries);
    result.unwrap();
    assert_eq!(read(&bytes, V as i128, &space, V + 0x1100, 8), (V + 0x1234).to_le_bytes().to_vec());
    assert_eq!(read(&bytes, V as i128, &space, V + 0x10f8, 8), bytes[0x10f8..0x1100].to_vec());
    assert_eq!(read(&bytes, V as i128, &space, V + 0x1108, 8), bytes[0x1108..0x1110].to_vec());
    assert_eq!(bytes[0x1100..0x1108], image(3, None, false)[0x1100..0x1108]);
    assert!(!flags(&space, V + 0x1000).copied);
}

#[test]
fn relocation_into_the_code_segment_gives_it_a_frame_of_its_own() {
    let bytes = image(3, Some((0xffc, 0x10)), false);
    let mut entries = entries_with_the_first_128_taken();
    let (space, _, result) = loaded(&bytes, &mut entries);
    result.unwrap();
    assert_eq!(read(&bytes, V as i128, &space, V + 0xffc, 8), (V + 0x10).to_le_bytes().to_vec());
    assert_ne!(frame(&space, V), KERNEL_AT);
    assert_eq!(flags(&space, V), PageFlags { present: true, writable: false, no_execute: false, copied: false });
}

#[test]
fn relocation_to_non_load_offset_fails() {
    let bytes = image(3, Some((0x5000, 0x1234)), false);
    let mut entries = entries_with_the_first_128_taken();
    let (_, _, result) = loaded(&bytes, &mut entries);
    let error = result.unwrap_err();
    assert_eq!(error, LoadError::OffsetNotInLoad);
    assert!(error.message().contains("offset is not in load segment"));
    assert!(!error.is_fatal());
}

#[test]
fn relro_takes_the_permission_to_write() {
    let bytes = image(3, None, true);
    let mut entries = entries_with_the_first_128_taken();
    let (space, _, result) = loaded(&bytes, &mut entries);
    result.unwrap();
    assert_eq!(flags(&space, V + 0x1000), PageFlags { present: true, writable: false, no_execute: true, copied: false });
    assert_eq!(flags(&space, V + 0x2000), PageFlags { present: true, writable: true, no_execute: true, copied: false });
}

#[test]
fn relro_after_relocation_keeps_what_was_written() {
    let mut bytes = image(3, Some((0x1100, 0x77)), false);
    let relro = Segment { type_: 0x6474_e552, flags: 4, offset: 0x1000, vaddr: 0x1000, file_size: 0x800, mem_size: 0x800, align: 1 };
    let at = 64 + 3 * 56;
    put(&mut bytes, 56, 4, 2);
    put(&mut bytes, at, relro.type_ as u64, 4);
    put(&mut bytes, at + 4, relro.flags as u64, 4);
    put(&mut bytes, at + 8, relro.offset, 8);
    put(&mut bytes, at + 16, relro.vaddr, 8);
    put(&mut bytes, at + 32, relro.file_size, 8);
    put(&mut bytes, at + 40, relro.mem_size, 8);
    put(&mut bytes, at + 48, relro.align, 8);
    let mut entries = entries_with_the_first_128_taken();
    let (space, _, result) = loaded(&bytes, &mut entries);
    result.unwrap();
    assert!(!flags(&space, V + 0x1000).writable);
    assert_eq!(read(&bytes, V as i128, &space, V + 0x1100, 8), (V + 0x77).to_le_bytes().to_vec());
}

#[test]
fn tls_template_is_recorded() {
    let mut segments = vec![load(0, 0, 0x1000, 0x1000, 5)];
    segments.push(Segment { type_: 7, flags: 4, offset: 0x800, vaddr: 0x800, file_size: 0x10, mem_size: 0x40, align: 8 });
    let bytes = elf(3, 0, &segments, 0x2000);
    let mut entries = Entries::new();
    let (_, _, result) = loaded(&bytes, &mut entries);
    assert_eq!(
        result.unwrap().1,
        Some(TlsTemplate { start_address: 0x80_0000_0800, file_size: 0x10, mem_size: 0x40 })
    );
    segments.push(Segment { type_: 7, flags: 4, offset: 0x900, vaddr: 0x900, file_size: 0x10, mem_size: 0x40, align: 8 });
    let twice = elf(3, 0, &segments, 0x2000);
    let (_, _, result) = loaded(&twice, &mut Entries::new());
    assert_eq!(result.unwrap_err(), LoadError::MultipleTlsSegments);
    assert_eq!(LoadError::MultipleTlsSegments.message(), "multiple TLS segments not supported");
}

#[test]
fn errors_of_the_loader() {
    let bytes = image(3, None, false);
    let mut space = AddressSpace::new();
    let mut frames = allocator();
    let unaligned = load_kernel(Kernel::parse(&bytes, KERNEL_AT + 8), &mut space, &mut frames, &mut Entries::new());
    assert_eq!(unaligned.unwrap_err(), LoadError::KernelNotAligned);
    assert_eq!(LoadError::KernelNotAligned.message(), "Loaded kernel ELF file is not sufficiently aligned");
    let outside = load_kernel(Kernel::parse(&bytes, 1 << 52), &mut space, &mut frames, &mut Entries::new());
    assert_eq!(outside.unwrap_err(), LoadError::AddressOutOfRange);
    for (object_type, expected) in [(0u16, LoadError::UnsupportedObjectType), (1, LoadError::UnsupportedObjectType), (4, LoadError::UnsupportedObjectType), (0xff00, LoadError::UnsupportedObjectType)] {
        let (_, _, result) = loaded(&image(object_type, None, false), &mut Entries::new());
        assert_eq!(result.unwrap_err(), expected);
    }
    let mut full = Entries::new();
    full.get_free_entries(511);
    let (_, _, result) = loaded(&bytes, &mut full);
    assert_eq!(result.unwrap_err(), LoadError::NoFreeAddress);
    let overlapping = elf(2, 0, &[load(0, 0, 0x1000, 0x1000, 5), load(0x800, 0x800, 0x100, 0x100, 4)], 0x2000);
    let (_, _, result) = loaded(&overlapping, &mut Entries::new());
    assert_eq!(result.unwrap_err(), LoadError::MapToFailed);
    let bss_over_code = elf(2, 0, &[load(0x1000, 0x1000, 0x1000, 0x1000, 5), load(0, 0, 0x800, 0x1801, 6)], 0x3000);
    let (_, _, result) = loaded(&bss_over_code, &mut Entries::new());
    assert_eq!(result.unwrap_err(), LoadError::BssMapToFailed);
    let mut no_frames = LegacyFrameAllocator::new(Vec::<UefiMemoryDescriptor>::new());
    let result = load_kernel(Kernel::parse(&bytes, KERNEL_AT), &mut AddressSpace::new(), &mut no_frames, &mut Entries::new());
    assert_eq!(result.unwrap_err(), LoadError::FrameAllocationFailed);
    assert!(LoadError::FrameAllocationFailed.is_fatal());
}

#[test]
fn errors_of_the_checks() {
    let good = image(3, None, false);
    let cases: Vec<(Box<dyn Fn(&mut Vec<u8>)>, LoadError)> = vec![
        (Box::new(|b| put(b, 54, 57, 2)), LoadError::ProgramHeaderSizeMismatch),
        (Box::new(|b| put(b, 32, 0x2ff0, 8)), LoadError::TruncatedProgramHeaders),
        (Box::new(|b| put(b, 64 + 32, 0x3000, 8)), LoadError::SegmentOutOfRange),
        (Box::new(|b| put(b, 64, 5, 4)), LoadError::ShLibSegment),
        (Box::new(|b| put(b, 64, 9, 4)), LoadError::InvalidSegmentType),
        (Box::new(|b| put(b, 64 + 56 + 16, 0x1008, 8)), LoadError::InvalidAlignment),
        (Box::new(|b| put(b, 52, 65, 2)), LoadError::HeaderSizeMismatch),
        (Box::new(|b| b[6] = 0), LoadError::NoVersion),
        (Box::new(|b| b[5] = 0), LoadError::NoDataFormat),
        (Box::new(|b| { put(b, 40, 0x2fff, 8); put(b, 60, 1, 2); }), LoadError::SectionTableOutOfRange),
    ];
    for (change, expected) in cases {
        let mut bytes = good.clone();
        change(&mut bytes);
        let (_, _, result) = loaded(&bytes, &mut Entries::new());
        assert_eq!(result.unwrap_err(), expected);
    }
    let mut no_table = good.clone();
    put(&mut no_table, 16, 2, 2);
    put(&mut no_table, 32, 0, 8);
    put(&mut no_table, 56, 0x1000, 2);
    let (space, _, result) = loaded(&no_table, &mut Entries::new());
    assert_eq!(result.unwrap_err(), LoadError::ProgramTableOutOfRange);
    assert!(space.pages().is_empty());
    assert_eq!(LoadError::ProgramTableOutOfRange.message(), "program header table out of range");
    let mut small = good.clone();
    put(&mut small, 54, 32, 2);
    let (_, _, result) = loaded(&small, &mut Entries::new());
    assert_eq!(result.unwrap_err(), LoadError::TruncatedProgramHeaders);
}

#[test]
fn errors_of_the_dynamic_section() {
    let dynamic = |entries: &[(u64, u64)]| {
        let mut bytes = image(3, Some((0x1100, 0)), false);
        for i in 0x1400..0x1430 {
            bytes[i] = 0;
        }
        for (i, (tag, value)) in entries.iter().enumerate() {
            put(&mut bytes, 0x1400 + i * 16, *tag, 8);
            put(&mut bytes, 0x1408 + i * 16, *value, 8);
        }
        let (_, _, result) = loaded(&bytes, &mut entries_with_the_first_128_taken());
        result.map(|_| ())
    };
    assert_eq!(dynamic(&[(7, 0x1500), (7, 0x1500)]), Err(LoadError::MultipleRela));
    assert_eq!(dynamic(&[(8, 24), (8, 24)]), Err(LoadError::MultipleRelaSize));
    assert_eq!(dynamic(&[(9, 24), (9, 24)]), Err(LoadError::MultipleRelaEnt));
    assert_eq!(dynamic(&[(8, 24)]), Err(LoadError::RelaMissing));
    assert_eq!(dynamic(&[(7, 0x1500), (9, 24)]), Err(LoadError::RelaSizeMissing));
    assert_eq!(dynamic(&[(7, 0x1500), (8, 24)]), Err(LoadError::RelaEntMissing));
    assert_eq!(dynamic(&[(31, 0)]), Err(LoadError::InvalidTag));
    assert_eq!(dynamic(&[(7, 0x1500), (8, 24), (9, 16)]), Err(LoadError::UnsupportedRelocation));
    assert_eq!(dynamic(&[(7, 0x9000), (8, 24), (9, 24)]), Err(LoadError::PageNotMapped));
    assert_eq!(dynamic(&[(7, 0x1500), (8, 23), (9, 24)]), Ok(()));
    assert_eq!(dynamic(&[(0, 0), (21, 0), (30, 0)]), Ok(()));
    let mut symbol = image(3, Some((0x1100, 0)), false);
    put(&mut symbol, 0x1508, (1 << 32) | 8, 8);
    assert_eq!(loaded(&symbol, &mut Entries::new()).2.unwrap_err(), LoadError::UnsupportedRelocation);
    let mut other = image(3, Some((0x1100, 0)), false);
    put(&mut other, 0x1508, 7, 8);
    assert_eq!(loaded(&other, &mut Entries::new()).2.unwrap_err(), LoadError::UnsupportedRelocation);
    let mut odd = image(3, Some((0x1100, 0)), false);
    put(&mut odd, 64 + 2 * 56 + 32, 0x28, 8);
    assert_eq!(loaded(&odd, &mut Entries::new()).2.unwrap_err(), LoadError::MalformedDynamicSection);
}

#[test]
fn loader_decides_the_offset_before_it_loads() {
    let bytes = image(3, None, false);
    let mut entries = Entries::new();
    let loader = Loader::new(Kernel::parse(&bytes, KERNEL_AT), &mut entries).unwrap();
    assert_eq!(loader.entry_point().unwrap().as_u64(), 0x80_0000_0120);
    let mut space = AddressSpace::new();
    let mut frames = allocator();
    assert_eq!(loader.load_segments(&mut space, &mut frames), Ok(None));
    assert_eq!(space.pages(), vec![0x80_0000_0000, 0x80_0000_1000, 0x80_0000_2000]);
}

#[test]
fn files_without_a_header_are_rejected() {
    assert_eq!(Kernel::try_parse(&[0x7f, b'E'], 0).err(), Some(LoadError::TruncatedIdent));
    assert_eq!(Kernel::try_parse(&[0u8; 64], 0).err(), Some(LoadError::BadMagic));
    let mut bytes = image(3, None, false);
    bytes[4] = 3;
    assert_eq!(Kernel::try_parse(&bytes, 0).err(), Some(LoadError::InvalidClass));
    bytes[4] = 2;
    assert_eq!(Kernel::try_parse(&bytes[..63], 0).err(), Some(LoadError::TruncatedHeader));
    let kernel = Kernel::try_parse(&bytes, 0x5000).unwrap();
    assert_eq!((kernel.start_address, kernel.len), (0x5000, 0x3000));
}

#[test]
fn writes_give_a_page_a_frame_of_its_own_once() {
    let bytes = image(2, None, false);
    let mut space = AddressSpace::new();
    let mut frames = allocator();
    load_kernel(Kernel::parse(&bytes, KERNEL_AT), &mut space, &mut frames, &mut Entries::new()).unwrap();
    let inner = Inner {
        kernel: &bytes,
        kernel_offset: PhysAddr::new(KERNEL_AT),
        virtual_address_offset: VirtualAddressOffset::zero(),
    };
    assert_eq!(frame(&space, 0), KERNEL_AT);
    assert_eq!(inner.copy_to(&mut space, &mut frames, VirtAddr::new(0xffe), &[7, 8, 9]), Ok(()));
    assert_eq!(frame(&space, 0), 0x10_2000);
    assert_eq!(frame(&space, 0x1000), 0x10_3000);
    assert!(flags(&space, 0).copied && flags(&space, 0x1000).copied);
    assert_eq!(read(&bytes, 0, &space, 0xffc, 6), vec![bytes[0xffc], bytes[0xffd], 7, 8, 9, bytes[0x1001]]);
    let first = inner.make_mut(&mut space, &mut frames, page(0)).unwrap();
    assert_eq!(first.start_address().as_u64(), 0x10_2000);
    assert_eq!(inner.copy_to(&mut space, &mut frames, VirtAddr::new(0x5000), &[1]), Err(LoadError::PageNotMapped));
    assert_eq!(inner.copy_to(&mut space, &mut frames, VirtAddr::new(u64::MAX), &[1, 2]), Err(LoadError::PageNotMapped));
    assert_eq!(inner.copy_from(&space, VirtAddr::new(0x2ffe), 3).unwrap_err(), LoadError::PageNotMapped);
    assert_eq!(inner.copy_from(&space, VirtAddr::new(u64::MAX - 1), 3).unwrap_err(), LoadError::AddressOutOfRange);
    assert_eq!(inner.copy_from(&space, VirtAddr::new(0x7fff_ffff_fffe), 0).unwrap(), Vec::<u8>::new());
    assert_eq!(bytes[0xffe], image(2, None, false)[0xffe]);
    assert_eq!(inner.remove_copied_flags(&mut space, &vec![]), Ok(()));
    assert!(flags(&space, 0).copied);
}

#[test]
fn a_page_of_unknown_contents_gets_a_frame_of_its_own() {
    let bytes = image(2, None, false);
    let inner = Inner {
        kernel: &bytes,
        kernel_offset: PhysAddr::new(KERNEL_AT),
        virtual_address_offset: VirtualAddressOffset::zero(),
    };
    let mut space = AddressSpace::new();
    let mut frames = allocator();
    let outside = PhysFrame::from_start_address(PhysAddr::new(0x80_0000)).unwrap();
    space.map_to(page(0x4000), outside, PageFlags::present_writable()).unwrap();
    assert_eq!(inner.copy_from(&space, VirtAddr::new(0x4000), 1).unwrap_err(), LoadError::ContentsUnknown);
    assert_eq!(inner.read_page(&space, page(0x4000)), Some(vec![None; 0x1000]));
    assert_eq!(inner.read_page(&space, page(0x5000)), None);

    let own = inner.make_mut(&mut space, &mut frames, page(0x4000)).unwrap();
    assert_eq!(own.start_address().as_u64(), 0x10_0000);
    assert_eq!(frame(&space, 0x4000), 0x10_0000);
    assert_eq!(flags(&space, 0x4000), PageFlags { present: true, writable: true, no_execute: false, copied: true });
    assert_eq!(space.copy_source(page(0x4000)), Some(outside));
    assert_eq!(space.data(page(0x4000)).unwrap(), &vec![None; 0x1000]);

    let again = inner.make_mut(&mut space, &mut frames, page(0x4000)).unwrap();
    assert_eq!(again, own);
    assert_eq!(space.copy_source(page(0x4000)), Some(outside));

    assert_eq!(inner.copy_to(&mut space, &mut frames, VirtAddr::new(0x4002), &[0xaa, 0xbb]), Ok(()));
    assert_eq!(frame(&space, 0x4000), 0x10_0000);
    assert_eq!(inner.copy_from(&space, VirtAddr::new(0x4002), 2).unwrap(), vec![0xaa, 0xbb]);
    assert_eq!(inner.copy_from(&space, VirtAddr::new(0x4001), 2).unwrap_err(), LoadError::ContentsUnknown);
    assert_eq!(inner.copy_from(&space, VirtAddr::new(0x4fff), 2).unwrap_err(), LoadError::PageNotMapped);
    let data = space.data(page(0x4000)).unwrap();
    assert_eq!((data[1], data[2], data[3], data[4]), (None, Some(0xaa), Some(0xbb), None));
    assert_eq!(frames.allocate_frame().unwrap().start_address().as_u64(), 0x10_1000);

    assert_eq!(inner.make_mut(&mut space, &mut frames, page(0x5000)), Err(LoadError::PageNotMapped));
}

#[test]
fn a_page_of_the_image_gets_a_copy_of_its_frame() {
    let bytes = image(2, None, false);
    let inner = Inner {
        kernel: &bytes,
        kernel_offset: PhysAddr::new(KERNEL_AT),
        virtual_address_offset: VirtualAddressOffset::zero(),
    };
    let mut space = AddressSpace::new();
    let mut frames = allocator();
    let first = PhysFrame::from_start_address(PhysAddr::new(KERNEL_AT)).unwrap();
    space.map_to(page(0x7000), first, PageFlags::present()).unwrap();
    let before = inner.copy_from(&space, VirtAddr::new(0x7000), 0x1000).unwrap();
    assert_eq!(before, bytes[..0x1000].to_vec());
    let own = inner.make_mut(&mut space, &mut frames, page(0x7000)).unwrap();
    assert_eq!(own.start_address().as_u64(), 0x10_0000);
    assert_eq!(space.copy_source(page(0x7000)), Some(first));
    assert_eq!(inner.copy_from(&space, VirtAddr::new(0x7000), 0x1000).unwrap(), before);
    assert_eq!(flags(&space, 0x7000), PageFlags { present: true, writable: false, no_execute: false, copied: true });
}

#[test]
fn no_frame_left_for_a_copy() {
    let bytes = image(2, None, false);
    let inner = Inner {
        kernel: &bytes,
        kernel_offset: PhysAddr::new(KERNEL_AT),
        virtual_address_offset: VirtualAddressOffset::zero(),
    };
    let mut space = AddressSpace::new();
    let mut frames = LegacyFrameAllocator::new(Vec::<UefiMemoryDescriptor>::new());
    let outside = PhysFrame::from_start_address(PhysAddr::new(0x80_0000)).unwrap();
    space.map_to(page(0x4000), outside, PageFlags::present_writable()).unwrap();
    assert_eq!(inner.make_mut(&mut space, &mut frames, page(0x4000)), Err(LoadError::FrameAllocationFailed));
    assert_eq!(frame(&space, 0x4000), 0x80_0000);
    assert!(!flags(&space, 0x4000).copied);
}

#[test]
fn a_kernel_that_is_turned_down_leaves_everything_as_it_was() {
    let bytes = image(3, None, false);
    for start in [KERNEL_AT + 8, KERNEL_AT + 0xfff, 1 << 52, (1 << 52) + 1] {
        let mut space = AddressSpace::new();
        let mut frames = allocator();
        let mut entries = Entries::new();
        entries.get_free_entries(3);
        let before: Vec<bool> = (0..512).map(|i| entries.is_used(initium::addr::PageTableIndex::new(i))).collect();
        assert!(load_kernel(Kernel::parse(&bytes, start), &mut space, &mut frames, &mut entries).is_err());
        let after: Vec<bool> = (0..512).map(|i| entries.is_used(initium::addr::PageTableIndex::new(i))).collect();
        assert_eq!(after, before);
        assert_eq!(before.iter().filter(|used| **used).count(), 4);
        assert_eq!(space.pages(), Vec::<u64>::new());
        assert_eq!(frames.allocate_frame().unwrap().start_address().as_u64(), 0x10_0000);

        let mut entries = Entries::new();
        assert!(Loader::new(Kernel::parse(&bytes, start), &mut entries).is_err());
        assert!((1..512).all(|i| !entries.is_used(initium::addr::PageTableIndex::new(i))));
        assert!(entries.is_used(initium::addr::PageTableIndex::new(0)));
    }
}
