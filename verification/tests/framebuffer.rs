use initium::boot::BootInfo;
use initium::framebuffer::writer::FramebufferWriter;
use initium::framebuffer::{Color, Framebuffer, FramebufferInfo, PixelFormat};
use initium::memory::{MemoryRegion, MemoryRegionKind, MemoryRegions};
use initium::optional::Optional;

const RED: Color = Color { red: 1, green: 2, blue: 3 };

fn info(format: PixelFormat) -> FramebufferInfo {
    FramebufferInfo { width: 4, height: 3, pixel_format: format, byte_len: 5 * 3 * 4, bytes_per_pixel: 4, stride: 5 }
}

fn pixels(buffer: &[u8]) -> Vec<(usize, usize)> {
    let mut set = Vec::new();
    for y in 0..3 {
        for x in 0..5 {
            let at = (x + y * 5) * 4;
            if buffer[at..at + 3] != [0, 0, 0] {
                set.push((x, y));
            }
        }
    }
    set
}

#[test]
fn pixel_is_written_in_the_order_of_the_format() {
    let mut buffer = vec![0u8; 60];
    let writer = FramebufferWriter::new(info(PixelFormat::Rgb));
    writer.write_pixel(&mut buffer, 1, 2, RED);
    let at = (1 + 2 * 5) * 4;
    assert_eq!(buffer[at..at + 4], [1, 2, 3, 0]);
    assert_eq!(buffer.iter().filter(|b| **b != 0).count(), 3);
    let mut other = vec![0u8; 60];
    FramebufferWriter::new(info(PixelFormat::Bgr)).write_pixel(&mut other, 1, 2, RED);
    assert_eq!(other[at..at + 4], [3, 2, 1, 0]);
}

#[test]
fn pixel_off_the_screen_is_not_written() {
    let mut buffer = vec![0u8; 60];
    let writer = FramebufferWriter::new(info(PixelFormat::Rgb));
    writer.write_pixel(&mut buffer, 4, 0, RED).write_pixel(&mut buffer, 0, 3, RED);
    writer.write_pixel(&mut buffer, usize::MAX, usize::MAX, RED);
    assert_eq!(buffer, vec![0u8; 60]);
}

#[test]
fn quad_is_clipped_to_the_screen() {
    let mut buffer = vec![0u8; 60];
    let writer = FramebufferWriter::new(info(PixelFormat::Rgb));
    writer.draw_quad(&mut buffer, 2, 1, 5, 1, RED);
    assert_eq!(pixels(&buffer), vec![(2, 1), (3, 1)]);
    writer.draw_quad(&mut buffer, 0, 0, 0, 3, RED).draw_quad(&mut buffer, 0, 0, 3, 0, RED);
    assert_eq!(pixels(&buffer), vec![(2, 1), (3, 1)]);
}

#[test]
fn centered_quad_starts_at_the_edge_when_it_is_too_close() {
    let mut buffer = vec![0u8; 60];
    let writer = FramebufferWriter::new(info(PixelFormat::Rgb));
    writer.draw_centered_quad(&mut buffer, 2, 1, 2, 2, RED);
    assert_eq!(pixels(&buffer), vec![(1, 0), (2, 0), (1, 1), (2, 1)]);
    let mut edge = vec![0u8; 60];
    writer.draw_centered_quad(&mut edge, 0, 0, 4, 2, RED);
    assert_eq!(pixels(&edge), vec![(0, 0), (1, 0), (2, 0), (3, 0), (0, 1), (1, 1), (2, 1), (3, 1)]);
}

#[test]
fn disk_mirrors_a_quarter() {
    let mut buffer = vec![0u8; 60];
    let writer = FramebufferWriter::new(info(PixelFormat::Rgb));
    writer.draw_disk(&mut buffer, 1, 1, 2, RED);
    assert_eq!(pixels(&buffer), vec![(0, 0), (1, 0), (2, 0), (0, 1), (1, 1), (2, 1), (0, 2), (1, 2), (2, 2)]);
    let mut corner = vec![0u8; 60];
    writer.draw_disk(&mut corner, 0, 0, 2, RED);
    assert_eq!(pixels(&corner), vec![(0, 0), (1, 0), (0, 1), (1, 1)]);
    let mut nothing = vec![0u8; 60];
    writer.draw_disk(&mut nothing, 1, 1, 0, RED);
    assert_eq!(nothing, vec![0u8; 60]);
}

#[test]
fn framebuffer_and_boot_info_hold_what_they_are_given() {
    let framebuffer = Framebuffer::new(0x1000, info(PixelFormat::Bgr));
    assert_eq!(framebuffer.start_address, 0x1000);
    assert_eq!(framebuffer.info().stride, 5);
    let regions = vec![MemoryRegion { start: 1, end: 2, kind: MemoryRegionKind::Usable }];
    let map = MemoryRegions::from(regions.clone());
    assert_eq!(map.len(), 1);
    assert_eq!(map.get(0), regions[0]);
    let boot_info = BootInfo::new(map);
    assert_eq!(boot_info.memory_regions.regions, regions);
    assert!(matches!(boot_info.framebuffer, Optional::Absent));
    assert_eq!(boot_info.physical_memory_offset, Optional::Absent);
    assert_eq!(boot_info.rsdp_address, Optional::Absent);
    assert_eq!(boot_info.tls_template, Optional::Absent);
    assert_eq!(boot_info.ramdisk_address, Optional::Absent);
    assert_eq!(boot_info.ramdisk_len, 0);
}

#[test]
fn a_disk_is_drawn_only_where_the_geometry_fits() {
    let writer = FramebufferWriter::new(info(PixelFormat::Rgb));
    assert!(writer.fits(60) && writer.fits(61) && !writer.fits(59));
    let mut buffer = vec![0u8; 60];
    assert!(writer.try_draw_disk(&mut buffer, 1, 1, 2, RED));
    let mut expected = vec![0u8; 60];
    writer.draw_disk(&mut expected, 1, 1, 2, RED);
    assert_eq!(buffer, expected);

    let mut short = vec![0u8; 59];
    assert!(!writer.try_draw_disk(&mut short, 1, 1, 2, RED));
    assert_eq!(short, vec![0u8; 59]);

    let mut far = vec![0u8; 60];
    assert!(!writer.try_draw_disk(&mut far, usize::MAX, 1, 2, RED));
    assert!(!writer.try_draw_disk(&mut far, 1, usize::MAX, 2, RED));
    assert!(!writer.try_draw_disk(&mut far, 1, 1, usize::MAX, RED));
    assert_eq!(far, vec![0u8; 60]);
    assert!(writer.try_draw_disk(&mut far, usize::MAX, usize::MAX, 1, RED));
    assert!(writer.try_draw_disk(&mut far, usize::MAX, usize::MAX, 0, RED));
    assert_eq!(far, vec![0u8; 60]);

    let narrow = FramebufferWriter::new(FramebufferInfo { bytes_per_pixel: 2, ..info(PixelFormat::Rgb) });
    assert!(!narrow.fits(60));
    let crossed = FramebufferWriter::new(FramebufferInfo { stride: 3, ..info(PixelFormat::Rgb) });
    assert!(!crossed.fits(60));
    let huge = FramebufferWriter::new(FramebufferInfo { height: usize::MAX, stride: usize::MAX, ..info(PixelFormat::Rgb) });
    assert!(!huge.fits(usize::MAX));
}

#[test]
fn a_disk_far_to_the_right_is_mirrored_to_the_left() {
    let writer = FramebufferWriter::new(info(PixelFormat::Rgb));
    let mut buffer = vec![0u8; 60];
    writer.draw_disk(&mut buffer, 4, 1, 2, RED);
    assert_eq!(pixels(&buffer), vec![(3, 0), (3, 1), (3, 2)]);
    let mut quad = vec![0u8; 60];
    writer.draw_centered_quad(&mut quad, 3, 2, 2, 2, RED);
    assert_eq!(pixels(&quad), vec![(2, 1), (3, 1), (2, 2), (3, 2)]);
}
