use vstd::prelude::*;
use crate::framebuffer::{Color, FramebufferInfo, PixelFormat};

verus! {

/// Draws into a framebuffer of a given geometry.
pub struct FramebufferWriter {
    info: FramebufferInfo,
}

/// The three bytes of a pixel of colour `color`, in the order of `format`.
pub open spec fn channels(format: PixelFormat, color: Color) -> Seq<u8> {
    if format == PixelFormat::Rgb {
        seq![color.red, color.green, color.blue]
    } else {
        seq![color.blue, color.green, color.red]
    }
}

/// Whether the three bytes of the pixel at (`x`, `y`) lie within a buffer of
/// `len` bytes, at an index that can be computed.
pub open spec fn pixel_within(info: FramebufferInfo, len: int, x: int, y: int) -> bool {
    &&& y * info.stride <= usize::MAX
    &&& x + y * info.stride <= usize::MAX
    &&& info.pixel_offset(x, y) + 2 < len
    &&& info.pixel_offset(x, y) + 2 <= usize::MAX
}

/// In a geometry that fits the buffer, every pixel of the screen lies within
/// the buffer.
pub proof fn lemma_fits_within(info: FramebufferInfo, len: int, x: int, y: int)
    requires
        info.fits(len),
        info.on_screen(x, y),
    ensures
        pixel_within(info, len, x, y),
{
    info.lemma_fits_pixel(len, x, y);
    assert(0 <= y * info.stride) by (nonlinear_arith)
        requires
            0 <= y,
            0 <= info.stride,
    ;
}

/// The buffer after the pixel at (`x`, `y`) was set to `color`; the buffer
/// itself where that is no pixel of the screen.
pub open spec fn plot(info: FramebufferInfo, buffer: Seq<u8>, x: int, y: int, color: Color) -> Seq<
    u8,
> {
    if info.on_screen(x, y) {
        let at = info.pixel_offset(x, y);
        let c = channels(info.pixel_format, color);
        buffer.update(at, c[0]).update(at + 1, c[1]).update(at + 2, c[2])
    } else {
        buffer
    }
}

/// The buffer after the first `rows` pixels of column `x` of a rectangle were
/// set, downwards from `y`.
pub open spec fn quad_column(
    info: FramebufferInfo,
    buffer: Seq<u8>,
    x: int,
    y: int,
    rows: nat,
    color: Color,
) -> Seq<u8>
    decreases rows,
{
    if rows == 0 {
        buffer
    } else {
        plot(info, quad_column(info, buffer, x, y, (rows - 1) as nat, color), x, y + rows - 1, color)
    }
}

/// The buffer after the first `columns` columns of a rectangle of `height` rows
/// with its corner at (`x`, `y`) were set.
pub open spec fn quad(
    info: FramebufferInfo,
    buffer: Seq<u8>,
    x: int,
    y: int,
    columns: nat,
    height: nat,
    color: Color,
) -> Seq<u8>
    decreases columns,
{
    if columns == 0 {
        buffer
    } else {
        quad_column(
            info,
            quad(info, buffer, x, y, (columns - 1) as nat, height, color),
            x + columns - 1,
            y,
            height,
            color,
        )
    }
}

/// Whether the pixel at (`x` + `i`, `y` + `j`) has coordinates that can be
/// computed and, where it is on the screen, lies within the buffer.
pub open spec fn quad_point_within(
    info: FramebufferInfo,
    len: int,
    x: int,
    y: int,
    i: int,
    j: int,
) -> bool {
    &&& x + i <= usize::MAX
    &&& y + j <= usize::MAX
    &&& info.on_screen(x + i, y + j) ==> pixel_within(info, len, x + i, y + j)
}

/// Whether that holds of every pixel of a rectangle.
pub open spec fn quad_within(
    info: FramebufferInfo,
    len: int,
    x: int,
    y: int,
    width: int,
    height: int,
) -> bool {
    forall|i: int, j: int|
        0 <= i < width && 0 <= j < height ==> #[trigger] quad_point_within(info, len, x, y, i, j)
}

/// Where a centred rectangle starts along one axis: half its extent before the
/// centre, but not before zero.
pub open spec fn centered_start(center: int, extent: int) -> int {
    if center - extent / 2 >= 0 {
        center - extent / 2
    } else {
        0
    }
}

/// The buffer after the point at distance (`i`, `j`) from the centre of a disk
/// was mirrored into the four quadrants, if it lies within the radius.
pub open spec fn disk_point(
    info: FramebufferInfo,
    buffer: Seq<u8>,
    x: int,
    y: int,
    i: int,
    j: int,
    radius: int,
    color: Color,
) -> Seq<u8> {
    if i * i + j * j <= radius * radius {
        let b1 = plot(info, buffer, x + i, y + j, color);
        let b2 = if x - i >= 0 {
            plot(info, b1, x - i, y + j, color)
        } else {
            b1
        };
        let b3 = if x - i >= 0 && y - j >= 0 {
            plot(info, b2, x - i, y - j, color)
        } else {
            b2
        };
        if y - j >= 0 {
            plot(info, b3, x + i, y - j, color)
        } else {
            b3
        }
    } else {
        buffer
    }
}

/// The buffer after the points (`i`, 0), .., (`i`, `rows` - 1) of a disk were drawn.
pub open spec fn disk_column(
    info: FramebufferInfo,
    buffer: Seq<u8>,
    x: int,
    y: int,
    i: int,
    rows: nat,
    radius: int,
    color: Color,
) -> Seq<u8>
    decreases rows,
{
    if rows == 0 {
        buffer
    } else {
        disk_point(
            info,
            disk_column(info, buffer, x, y, i, (rows - 1) as nat, radius, color),
            x,
            y,
            i,
            rows - 1,
            radius,
            color,
        )
    }
}

/// The buffer after the first `columns` columns of a disk were drawn.
pub open spec fn disk(
    info: FramebufferInfo,
    buffer: Seq<u8>,
    x: int,
    y: int,
    columns: nat,
    radius: int,
    color: Color,
) -> Seq<u8>
    decreases columns,
{
    if columns == 0 {
        buffer
    } else {
        disk_column(
            info,
            disk(info, buffer, x, y, (columns - 1) as nat, radius, color),
            x,
            y,
            columns - 1,
            radius as nat,
            radius,
            color,
        )
    }
}

/// Whether every pixel that a disk may touch lies within the buffer where it
/// is on the screen.
pub open spec fn disk_within(info: FramebufferInfo, len: int, x: int, y: int, radius: int) -> bool {
    forall|px: int, py: int|
        x - radius < px < x + radius && y - radius < py < y + radius && info.on_screen(px, py)
            ==> #[trigger] pixel_within(info, len, px, py)
}

/// Whether the sums and squares that drawing a disk of radius `radius`
/// around (`x`, `y`) takes fit the numbers of the machine.
pub open spec fn disk_drawable(x: int, y: int, radius: int) -> bool {
    radius >= 1 ==> {
        &&& x + (radius - 1) <= usize::MAX
        &&& y + (radius - 1) <= usize::MAX
        &&& radius * radius <= usize::MAX
        &&& 2 * ((radius - 1) * (radius - 1)) <= usize::MAX
    }
}

impl FramebufferWriter {
    pub fn new(info: FramebufferInfo) -> (r: Self)
        ensures
            r.info() == info,
    {
        Self { info }
    }

    /// The geometry that the writer draws for.
    pub closed spec fn info(&self) -> FramebufferInfo {
        self.info
    }

    /// Sets the pixel at (`x`, `y`); does nothing where that is off the screen.
    pub fn write_pixel(&self, buffer: &mut [u8], x: usize, y: usize, color: Color) -> (r: &Self)
        requires
            self.info().on_screen(x as int, y as int) ==> pixel_within(
                self.info(),
                old(buffer)@.len() as int,
                x as int,
                y as int,
            ),
        ensures
            r == self,
            final(buffer)@ == plot(self.info(), old(buffer)@, x as int, y as int, color),
            final(buffer)@.len() == old(buffer)@.len(),
    {
        if x < self.info.width && y < self.info.height {
            let at: usize = (x + y * self.info.stride) * self.info.bytes_per_pixel;
            if self.info.pixel_format == PixelFormat::Rgb {
                buffer[at] = color.red;
                buffer[at + 1] = color.green;
                buffer[at + 2] = color.blue;
            } else {
                buffer[at] = color.blue;
                buffer[at + 1] = color.green;
                buffer[at + 2] = color.red;
            }
        }
        self
    }

    /// Fills the rectangle of `width` by `height` pixels whose corner is (`x`, `y`),
    /// column by column.
    pub fn draw_quad(
        &self,
        buffer: &mut [u8],
        x: usize,
        y: usize,
        width: usize,
        height: usize,
        color: Color,
    ) -> (r: &Self)
        requires
            quad_within(
                self.info(),
                old(buffer)@.len() as int,
                x as int,
                y as int,
                width as int,
                height as int,
            ),
        ensures
            r == self,
            final(buffer)@ == quad(
                self.info(),
                old(buffer)@,
                x as int,
                y as int,
                width as nat,
                height as nat,
                color,
            ),
            final(buffer)@.len() == old(buffer)@.len(),
    {
        let ghost start = buffer@;
        let mut i: usize = 0;
        while i < width
            invariant
                i <= width,
                buffer@.len() == start.len(),
                buffer@ == quad(self.info(), start, x as int, y as int, i as nat, height as nat, color),
                quad_within(
                    self.info(),
                    start.len() as int,
                    x as int,
                    y as int,
                    width as int,
                    height as int,
                ),
            decreases width - i,
        {
            let ghost column_start = buffer@;
            let mut j: usize = 0;
            while j < height
                invariant
                    i < width,
                    j <= height,
                    buffer@.len() == start.len(),
                    buffer@ == quad_column(
                        self.info(),
                        column_start,
                        x + i,
                        y as int,
                        j as nat,
                        color,
                    ),
                    quad_within(
                        self.info(),
                        start.len() as int,
                        x as int,
                        y as int,
                        width as int,
                        height as int,
                    ),
                decreases height - j,
            {
                assert(quad_point_within(
                    self.info(),
                    start.len() as int,
                    x as int,
                    y as int,
                    i as int,
                    j as int,
                ));
                self.write_pixel(buffer, x + i, y + j, color);
                j += 1;
            }
            i += 1;
        }
        self
    }

    /// Fills a rectangle of `width` by `height` pixels around (`x`, `y`); where the
    /// centre is too close to an edge, the rectangle starts at the edge.
    pub fn draw_centered_quad(
        &self,
        buffer: &mut [u8],
        x: usize,
        y: usize,
        width: usize,
        height: usize,
        color: Color,
    ) -> (r: &Self)
        requires
            quad_within(
                self.info(),
                old(buffer)@.len() as int,
                centered_start(x as int, width as int),
                centered_start(y as int, height as int),
                width as int,
                height as int,
            ),
        ensures
            r == self,
            final(buffer)@ == quad(
                self.info(),
                old(buffer)@,
                centered_start(x as int, width as int),
                centered_start(y as int, height as int),
                width as nat,
                height as nat,
                color,
            ),
            final(buffer)@.len() == old(buffer)@.len(),
    {
        let half_width = width / 2;
        let half_height = height / 2;
        let left_x = if x >= half_width {
            x - half_width
        } else {
            0
        };
        let up_y = if y >= half_height {
            y - half_height
        } else {
            0
        };
        self.draw_quad(buffer, left_x, up_y, width, height, color)
    }

    /// Fills the disk of radius `radius` around (`x`, `y`): each point of the
    /// quarter below and right of the centre that lies within the radius is
    /// mirrored into the other three quarters, as far as they have coordinates.
    pub fn draw_disk(&self, buffer: &mut [u8], x: usize, y: usize, radius: usize, color: Color) -> (r:
        &Self)
        requires
            radius >= 1 ==> x + (radius - 1) <= usize::MAX && y + (radius - 1) <= usize::MAX,
            radius * radius <= usize::MAX,
            radius >= 1 ==> 2 * ((radius - 1) * (radius - 1)) <= usize::MAX,
            disk_within(self.info(), old(buffer)@.len() as int, x as int, y as int, radius as int),
        ensures
            r == self,
            final(buffer)@ == disk(
                self.info(),
                old(buffer)@,
                x as int,
                y as int,
                radius as nat,
                radius as int,
                color,
            ),
            final(buffer)@.len() == old(buffer)@.len(),
    {
        let radius_squared = radius * radius;
        let ghost start = buffer@;
        let mut i: usize = 0;
        while i < radius
            invariant
                i <= radius,
                radius >= 1 ==> x + (radius - 1) <= usize::MAX && y + (radius - 1) <= usize::MAX,
                radius >= 1 ==> 2 * ((radius - 1) * (radius - 1)) <= usize::MAX,
                radius_squared == radius * radius,
                buffer@.len() == start.len(),
                buffer@ == disk(self.info(), start, x as int, y as int, i as nat, radius as int, color),
                disk_within(self.info(), start.len() as int, x as int, y as int, radius as int),
            decreases radius - i,
        {
            let ghost column_start = buffer@;
            let mut j: usize = 0;
            while j < radius
                invariant
                    i < radius,
                    j <= radius,
                    radius >= 1 ==> x + (radius - 1) <= usize::MAX && y + (radius - 1) <= usize::MAX,
                    radius >= 1 ==> 2 * ((radius - 1) * (radius - 1)) <= usize::MAX,
                    radius_squared == radius * radius,
                    buffer@.len() == start.len(),
                    buffer@ == disk_column(
                        self.info(),
                        column_start,
                        x as int,
                        y as int,
                        i as int,
                        j as nat,
                        radius as int,
                        color,
                    ),
                    disk_within(self.info(), start.len() as int, x as int, y as int, radius as int),
                decreases radius - j,
            {
                assert(i * i <= (radius - 1) * (radius - 1) && j * j <= (radius - 1) * (radius - 1))
                    by (nonlinear_arith)
                    requires
                        0 <= i < radius,
                        0 <= j < radius,
                ;
                if i * i + j * j <= radius_squared {
                    self.write_pixel(buffer, x + i, y + j, color);
                    if x >= i {
                        self.write_pixel(buffer, x - i, y + j, color);
                    }
                    if x >= i && y >= j {
                        self.write_pixel(buffer, x - i, y - j, color);
                    }
                    if y >= j {
                        self.write_pixel(buffer, x + i, y - j, color);
                    }
                }
                j += 1;
            }
            i += 1;
        }
        self
    }

    /// Whether the geometry fits a buffer of `len` bytes; see `fits`.
    pub fn fits(&self, len: usize) -> (r: bool)
        ensures
            r == self.info().fits(len as int),
    {
        if self.info.bytes_per_pixel < 3 || self.info.width > self.info.stride {
            return false;
        }
        let pixels = match self.info.height.checked_mul(self.info.stride) {
            Some(pixels) => pixels,
            None => {
                assert(self.info.height * self.info.stride * self.info.bytes_per_pixel
                    > usize::MAX) by (nonlinear_arith)
                    requires
                        self.info.height * self.info.stride > usize::MAX,
                        self.info.bytes_per_pixel >= 3,
                ;
                return false;
            },
        };
        match pixels.checked_mul(self.info.bytes_per_pixel) {
            Some(bytes) => bytes <= len,
            None => false,
        }
    }

    /// Fills the disk of radius `radius` around (`x`, `y`) where the geometry
    /// fits the buffer and the numbers of the drawing fit the machine's; draws
    /// nothing otherwise. Says whether it drew.
    pub fn try_draw_disk(&self, buffer: &mut [u8], x: usize, y: usize, radius: usize, color: Color) -> (r:
        bool)
        ensures
            r == (self.info().fits(old(buffer)@.len() as int) && disk_drawable(
                x as int,
                y as int,
                radius as int,
            )),
            r ==> final(buffer)@ == disk(
                self.info(),
                old(buffer)@,
                x as int,
                y as int,
                radius as nat,
                radius as int,
                color,
            ),
            !r ==> final(buffer)@ == old(buffer)@,
    {
        if !self.fits(buffer.len()) {
            return false;
        }
        if radius >= 1 {
            let reach: usize = radius - 1;
            if x.checked_add(reach).is_none() || y.checked_add(reach).is_none() {
                return false;
            }
            let twice = match reach.checked_mul(reach) {
                Some(square) => square.checked_mul(2),
                None => None,
            };
            if twice.is_none() || radius.checked_mul(radius).is_none() {
                return false;
            }
        }
        assert forall|px: int, py: int|
            x - radius < px < x + radius && y - radius < py < y + radius && self.info().on_screen(
                px,
                py,
            ) implies #[trigger] pixel_within(self.info(), buffer@.len() as int, px, py) by {
            lemma_fits_within(self.info(), buffer@.len() as int, px, py);
        }
        self.draw_disk(buffer, x, y, radius, color);
        true
    }
}

} // verus!
