use initium::framebuffer::{Color, FramebufferInfo, PixelFormat};
use initium::nukleus::text_based_interface::{draw_background, FramebufferWriter, Point, Primitive};

const INK: Color = Color { red: 1, green: 2, blue: 3 };

fn screen(format: PixelFormat) -> FramebufferInfo {
    FramebufferInfo { width: 7, height: 7, pixel_format: format, byte_len: 8 * 7 * 4, bytes_per_pixel: 4, stride: 8 }
}

fn blank() -> Vec<u8> {
    vec![0u8; 8 * 7 * 4]
}

/// The pixels that are set, as (column, row of the buffer), row by row.
fn set_pixels(buffer: &[u8]) -> Vec<(usize, usize)> {
    let mut set = Vec::new();
    for row in 0..7 {
        for column in 0..8 {
            let at = (column + row * 8) * 4;
            if buffer[at..at + 3] != [0, 0, 0] {
                set.push((column, row));
            }
        }
    }
    set
}

fn point(x: usize, y: usize) -> Point {
    Point { x, y }
}

#[test]
fn the_origin_is_the_lower_left_corner() {
    let writer = FramebufferWriter::new(screen(PixelFormat::Rgb));
    let mut buffer = blank();
    writer.draw_pixel(&mut buffer, 0, 0, INK);
    assert_eq!(set_pixels(&buffer), vec![(0, 6)]);
    assert_eq!(&buffer[6 * 8 * 4..6 * 8 * 4 + 4], &[1, 2, 3, 0]);
    writer.draw_pixel(&mut buffer, 2, 6, INK);
    assert_eq!(set_pixels(&buffer), vec![(2, 0), (0, 6)]);
    writer.draw_pixel(&mut buffer, 7, 0, INK);
    writer.draw_pixel(&mut buffer, 0, 7, INK);
    writer.draw_pixel(&mut buffer, usize::MAX, usize::MAX, INK);
    assert_eq!(set_pixels(&buffer), vec![(2, 0), (0, 6)]);

    let other = FramebufferWriter::new(screen(PixelFormat::Bgr));
    let mut buffer = blank();
    other.draw_pixel(&mut buffer, 1, 1, INK);
    assert_eq!(&buffer[(1 + 5 * 8) * 4..(1 + 5 * 8) * 4 + 4], &[3, 2, 1, 0]);
}

#[test]
fn a_rectangle_holds_its_first_corner_and_not_its_second() {
    let writer = FramebufferWriter::new(screen(PixelFormat::Rgb));
    let mut buffer = blank();
    writer.draw_quad(&mut buffer, point(1, 2), point(4, 4), INK);
    assert_eq!(set_pixels(&buffer), vec![(1, 3), (2, 3), (3, 3), (1, 4), (2, 4), (3, 4)]);
    let mut edge = blank();
    writer.draw_quad(&mut edge, point(5, 5), point(9, 9), INK);
    assert_eq!(set_pixels(&edge), vec![(5, 0), (6, 0), (5, 1), (6, 1)]);
    let mut empty = blank();
    writer.draw_quad(&mut empty, point(3, 3), point(3, 6), INK);
    assert_eq!(empty, blank());

    let mut tried = blank();
    assert!(writer.try_draw_quad(&mut tried, point(1, 2), point(4, 4), INK));
    assert_eq!(tried, buffer);
    assert!(!writer.try_draw_quad(&mut tried, point(4, 2), point(1, 4), INK));
    assert!(!writer.try_draw_quad(&mut tried, point(1, 4), point(4, 2), INK));
    assert_eq!(tried, buffer);
    let mut short = vec![0u8; 8 * 7 * 4 - 1];
    assert!(!writer.try_draw_quad(&mut short, point(1, 2), point(4, 4), INK));
    assert_eq!(short, vec![0u8; 8 * 7 * 4 - 1]);
}

#[test]
fn the_background_fills_the_screen() {
    let writer = FramebufferWriter::new(screen(PixelFormat::Rgb));
    let mut buffer = blank();
    draw_background(&mut buffer, &writer);
    for row in 0..7 {
        for column in 0..8 {
            let at = (column + row * 8) * 4;
            let expected: [u8; 4] = if column < 7 { [221, 232, 242, 0] } else { [0, 0, 0, 0] };
            assert_eq!(&buffer[at..at + 4], &expected);
        }
    }
}

#[test]
fn a_disk_is_mirrored_from_its_upper_right_quarter() {
    let writer = FramebufferWriter::new(screen(PixelFormat::Rgb));
    let mut buffer = blank();
    writer.draw_disk(&mut buffer, point(3, 3), 2, INK);
    assert_eq!(set_pixels(&buffer), vec![(2, 2), (3, 2), (4, 2), (2, 3), (3, 3), (4, 3), (2, 4), (3, 4), (4, 4)]);
    let mut corner = blank();
    writer.draw_disk(&mut corner, point(0, 0), 2, INK);
    assert_eq!(set_pixels(&corner), vec![(0, 5), (1, 5), (0, 6), (1, 6)]);
    let mut nothing = blank();
    writer.draw_disk(&mut nothing, point(3, 3), 0, INK);
    assert_eq!(nothing, blank());

    let mut tried = blank();
    assert!(writer.try_draw_disk(&mut tried, point(3, 3), 2, INK));
    assert_eq!(tried, buffer);
    assert!(!writer.try_draw_disk(&mut tried, point(usize::MAX, 3), 2, INK));
    assert!(!writer.try_draw_disk(&mut tried, point(3, 3), usize::MAX, INK));
    assert_eq!(tried, buffer);
}

#[test]
fn a_circle_is_drawn_point_by_point() {
    let writer = FramebufferWriter::new(screen(PixelFormat::Rgb));
    let mut buffer = blank();
    writer.draw_circle(&mut buffer, point(3, 3), 2, INK);
    assert_eq!(
        set_pixels(&buffer),
        vec![(2, 1), (3, 1), (4, 1), (1, 2), (5, 2), (1, 3), (5, 3), (1, 4), (5, 4), (2, 5), (3, 5), (4, 5)]
    );
    let mut corner = blank();
    writer.draw_circle(&mut corner, point(0, 0), 1, INK);
    assert_eq!(set_pixels(&corner), vec![(0, 5), (1, 6)]);
    let mut dot = blank();
    writer.draw_circle(&mut dot, point(3, 3), 0, INK);
    assert_eq!(set_pixels(&dot), vec![(3, 3)]);
    let mut wide = blank();
    writer.draw_circle(&mut wide, point(1, 1), 3, INK);
    assert_eq!(set_pixels(&wide), vec![(0, 2), (1, 2), (2, 2), (3, 3), (4, 4), (4, 5), (4, 6)]);

    let mut tried = blank();
    assert!(writer.try_draw_circle(&mut tried, point(3, 3), 2, INK));
    assert_eq!(tried, buffer);
    assert!(!writer.try_draw_circle(&mut tried, point(usize::MAX / 2, 3), 2, INK));
    assert!(!writer.try_draw_circle(&mut tried, point(3, usize::MAX / 2), 2, INK));
    assert!(!writer.try_draw_circle(&mut tried, point(3, 3), usize::MAX / 4, INK));
    assert_eq!(tried, buffer);
}

#[test]
fn a_primitive_is_drawn_or_handed_back() {
    let writer = FramebufferWriter::new(screen(PixelFormat::Rgb));
    let mut buffer = blank();
    assert!(writer.draw_primitive(&mut buffer, Primitive::Quad(point(1, 2), point(4, 4)), INK).is_none());
    assert_eq!(set_pixels(&buffer), vec![(1, 3), (2, 3), (3, 3), (1, 4), (2, 4), (3, 4)]);
    let mut buffer = blank();
    assert!(writer.draw_primitive(&mut buffer, Primitive::Disk(point(0, 0), 2), INK).is_none());
    assert_eq!(set_pixels(&buffer), vec![(0, 5), (1, 5), (0, 6), (1, 6)]);
    let mut buffer = blank();
    assert!(writer.draw_primitive(&mut buffer, Primitive::Circle(point(3, 3), 0), INK).is_none());
    assert_eq!(set_pixels(&buffer), vec![(3, 3)]);

    let mut buffer = blank();
    let line = writer.draw_primitive(&mut buffer, Primitive::Line(point(1, 2), point(3, 4)), INK).unwrap();
    assert_eq!((line.0.x, line.0.y, line.1.x, line.1.y), (1, 2, 3, 4));
    assert!(writer.draw_primitive(&mut buffer, Primitive::Ellipse(point(1, 2), point(3, 4)), INK).is_none());
    assert!(writer.draw_primitive(&mut buffer, Primitive::BezierQuad(point(1, 2), point(3, 4), point(5, 6)), INK).is_none());
    assert!(writer
        .draw_primitive(&mut buffer, Primitive::BezierCubic(point(1, 2), point(3, 4), point(5, 6), point(0, 0)), INK)
        .is_none());
    writer.draw_ellipse(&mut buffer, point(1, 2), point(3, 4), INK);
    assert_eq!(buffer, blank());

    assert_eq!(writer.try_draw_primitive(&mut buffer, Primitive::Circle(point(3, 3), 0), INK).map(|l| l.is_none()), Some(true));
    assert_eq!(set_pixels(&buffer), vec![(3, 3)]);
    let handed = writer.try_draw_primitive(&mut buffer, Primitive::Line(point(1, 2), point(3, 4)), INK).unwrap().unwrap();
    assert_eq!((handed.0.x, handed.1.y), (1, 4));
    assert!(writer.try_draw_primitive(&mut buffer, Primitive::Quad(point(4, 4), point(1, 2)), INK).is_none());
    assert!(writer.try_draw_primitive(&mut buffer, Primitive::Disk(point(3, 3), usize::MAX), INK).is_none());
    assert!(writer.try_draw_primitive(&mut buffer, Primitive::Circle(point(3, 3), usize::MAX), INK).is_none());
    let mut short = vec![0u8; 10];
    assert!(writer.try_draw_primitive(&mut short, Primitive::Line(point(1, 2), point(3, 4)), INK).is_none());
    assert!(writer.try_draw_primitive(&mut short, Primitive::Ellipse(point(1, 2), point(3, 4)), INK).is_none());
    assert!(!writer.fits(10) && writer.fits(8 * 7 * 4));
    assert_eq!(set_pixels(&buffer), vec![(3, 3)]);
}
