use initium::boot::{select_mode, BootConfig, BootInfo};
use initium::framebuffer::{Framebuffer, FramebufferInfo, PixelFormat};
use initium::memory::{MemoryRegion, MemoryRegionKind, MemoryRegions};
use initium::nukleus::memory::NukleusFrameAllocator;
use initium::optional::Optional;
use initium::tls_template::TlsTemplate;

const CONFIG: BootConfig = BootConfig { framebuffer_width: 1280, framebuffer_height: 720 };

#[test]
fn mode_selection_takes_the_last_mode_that_fits() {
    assert_eq!(select_mode(&vec![], &CONFIG), None);
    assert_eq!(select_mode(&vec![(1920, 1080)], &CONFIG), None);
    assert_eq!(select_mode(&vec![(640, 480), (1920, 1080), (1280, 720), (800, 600)], &CONFIG), Some(2));
    assert_eq!(select_mode(&vec![(1280, 720), (640, 480), (1280, 720), (1281, 720)], &CONFIG), Some(2));
    assert_eq!(select_mode(&vec![(800, 600), (1024, 480)], &CONFIG), Some(1));
    assert_eq!(select_mode(&vec![(1024, 480), (800, 600)], &CONFIG), Some(1));
    assert_eq!(select_mode(&vec![(1024, 600), (800, 480)], &CONFIG), Some(0));
    assert_eq!(select_mode(&vec![(0, 0), (2000, 1)], &CONFIG), Some(0));
}

fn region(start: u64, end: u64, kind: MemoryRegionKind) -> MemoryRegion {
    MemoryRegion { start, end, kind }
}

#[test]
fn kernel_allocator_walks_the_usable_regions() {
    let map = MemoryRegions::from(vec![
        region(0x1000, 0x3000, MemoryRegionKind::Bootloader),
        region(0x3000, 0x5000, MemoryRegionKind::Usable),
        region(0x5000, 0x5000, MemoryRegionKind::Usable),
        region(0x8000, 0x9000, MemoryRegionKind::UnknownUefi(5)),
        region(0xa800, 0xc001, MemoryRegionKind::Usable),
    ]);
    let mut allocator = NukleusFrameAllocator::init(map);
    let mut frames = Vec::new();
    while let Some(frame) = allocator.allocate_frame() {
        frames.push(frame.start_address().as_u64());
    }
    assert_eq!(frames, vec![0x3000, 0x4000, 0xa000, 0xb000]);
    assert!(allocator.allocate_frame().is_none());
}

#[test]
fn memory_region_layout() {
    let usable = region(0x1122_3344_5566_7788, 0x99, MemoryRegionKind::Usable).encode();
    assert_eq!(usable.len(), 24);
    assert_eq!(usable[..8], [0x88, 0x77, 0x66, 0x55, 0x44, 0x33, 0x22, 0x11]);
    assert_eq!(usable[8..16], [0x99, 0, 0, 0, 0, 0, 0, 0]);
    assert_eq!(usable[16..], [0, 0, 0, 0, 0, 0, 0, 0]);
    assert_eq!(region(0, 0, MemoryRegionKind::Bootloader).encode()[16..], [1, 0, 0, 0, 0, 0, 0, 0]);
    assert_eq!(region(0, 0, MemoryRegionKind::UnknownUefi(0x0a0b_0c0d)).encode()[16..], [2, 0, 0, 0, 0x0d, 0x0c, 0x0b, 0x0a]);
}

#[test]
fn boot_info_layout() {
    let regions = vec![region(0x1000, 0x2000, MemoryRegionKind::Usable), region(0x2000, 0x3000, MemoryRegionKind::UnknownUefi(7))];
    let mut info = BootInfo::new(MemoryRegions::from(regions.clone()));
    let empty = info.encode(0xffff_8000_0000_00a8);
    assert_eq!(empty.len(), 168);
    assert_eq!(empty[..8], 0xffff_8000_0000_00a8u64.to_le_bytes());
    assert_eq!(empty[8..16], 2u64.to_le_bytes());
    for tag in [16, 80, 96, 112, 144] {
        assert_eq!(empty[tag..tag + 8], [1, 0, 0, 0, 0, 0, 0, 0]);
    }
    assert_eq!(empty[160..], [0u8; 8]);
    assert_eq!(empty.iter().filter(|b| **b != 0).count(), 4 + 1 + 5);
    info.framebuffer = Optional::Present(Framebuffer::new(
        0x100_0000_0000,
        FramebufferInfo { width: 1280, height: 720, pixel_format: PixelFormat::Bgr, byte_len: 0x38_4000, bytes_per_pixel: 4, stride: 1280 },
    ));
    info.physical_memory_offset = Optional::Present(0x11);
    info.rsdp_address = Optional::Present(0xe_0000);
    info.tls_template = Optional::Present(TlsTemplate { start_address: 0x20_0800, file_size: 0x10, mem_size: 0x40 });
    info.ramdisk_address = Optional::Present(0x180_0000_0000);
    info.ramdisk_len = 0x1234;
    let bytes = info.encode(0xa8);
    let word = |at: usize| u64::from_le_bytes(bytes[at..at + 8].try_into().unwrap());
    let words: Vec<u64> = (0..21).map(|i| word(i * 8)).collect();
    assert_eq!(
        words,
        vec![
            0xa8, 2, 0, 0x100_0000_0000, 1280, 720, 1, 0x38_4000, 4, 1280, 0, 0x11, 0, 0xe_0000, 0, 0x20_0800, 0x10,
            0x40, 0, 0x180_0000_0000, 0x1234
        ]
    );
    let array = info.encode_memory_regions();
    assert_eq!(array.len(), 48);
    assert_eq!(array[..24], regions[0].encode()[..]);
    assert_eq!(array[24..], regions[1].encode()[..]);
    assert_eq!(array[40..], [2, 0, 0, 0, 7, 0, 0, 0]);
}
