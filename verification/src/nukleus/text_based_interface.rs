use vstd::prelude::*;
use crate::framebuffer::writer::{disk_drawable, lemma_fits_within, pixel_within, plot};
use crate::framebuffer::{Color, FramebufferInfo, PixelFormat};

verus! {

/// A point of the screen, counted from its lower left corner.
#[derive(Clone)]
pub struct Point {
    pub x: usize,
    pub y: usize,
}

/// What can be drawn.
#[derive(Clone)]
pub enum Primitive {
    Line(Point, Point),
    Quad(Point, Point),
    Disk(Point, usize),
    Circle(Point, usize),
    Ellipse(Point, Point),
    BezierQuad(Point, Point, Point),
    BezierCubic(Point, Point, Point, Point),
}

/// Draws into a framebuffer with the origin in the lower left corner of the
/// screen.
pub struct FramebufferWriter {
    pub info: FramebufferInfo,
}

/// The buffer after the pixel at (`x`, `y`), counted from the lower left
/// corner, was set to `color`; the buffer itself where that is no pixel of the
/// screen.
pub open spec fn raised(info: FramebufferInfo, buffer: Seq<u8>, x: int, y: int, color: Color) -> Seq<
    u8,
> {
    if info.on_screen(x, y) {
        plot(info, buffer, x, info.height - 1 - y, color)
    } else {
        buffer
    }
}

/// Whether the pixel at (`x`, `y`), counted from the lower left corner, lies
/// within a buffer of `len` bytes where it is on the screen.
pub open spec fn raised_within(info: FramebufferInfo, len: int, x: int, y: int) -> bool {
    info.on_screen(x, y) ==> pixel_within(info, len, x, info.height - 1 - y)
}

/// The buffer after the first `columns` pixels of the row `y` of a rectangle
/// were set, rightwards from `x`.
pub open spec fn quad_row(
    info: FramebufferInfo,
    buffer: Seq<u8>,
    x: int,
    y: int,
    columns: nat,
    color: Color,
) -> Seq<u8>
    decreases columns,
{
    if columns == 0 {
        buffer
    } else {
        raised(info, quad_row(info, buffer, x, y, (columns - 1) as nat, color), x + columns - 1, y, color)
    }
}

/// The buffer after the first `rows` rows of a rectangle of `width` columns
/// with its corner at (`x`, `y`) were set, upwards.
pub open spec fn quad_rows(
    info: FramebufferInfo,
    buffer: Seq<u8>,
    x: int,
    y: int,
    width: nat,
    rows: nat,
    color: Color,
) -> Seq<u8>
    decreases rows,
{
    if rows == 0 {
        buffer
    } else {
        quad_row(
            info,
            quad_rows(info, buffer, x, y, width, (rows - 1) as nat, color),
            x,
            y + rows - 1,
            width,
            color,
        )
    }
}

/// Whether the pixel at (`x` + `i`, `y` + `j`) lies within the buffer where it
/// is on the screen.
pub open spec fn quad_point_within(
    info: FramebufferInfo,
    len: int,
    x: int,
    y: int,
    i: int,
    j: int,
) -> bool {
    raised_within(info, len, x + i, y + j)
}

/// Whether that holds of every pixel of a rectangle.
pub open spec fn quad_within(
    info: FramebufferInfo,
    len: int,
    x: int,
    y: int,
    width: int,
    height: int,
) -> bool {
    forall|i: int, j: int|
        0 <= i < width && 0 <= j < height ==> #[trigger] quad_point_within(info, len, x, y, i, j)
}

/// The buffer after the point at distance (`i`, `j`) from the centre of a disk
/// was mirrored into the four quadrants, if it lies within the radius.
pub open spec fn disk_point(
    info: FramebufferInfo,
    buffer: Seq<u8>,
    x: int,
    y: int,
    i: int,
    j: int,
    radius: int,
    color: Color,
) -> Seq<u8> {
    if i * i + j * j <= radius * radius {
        let b1 = raised(info, buffer, x + i, y + j, color);
        let b2 = if x - i >= 0 {
            raised(info, b1, x - i, y + j, color)
        } else {
            b1
        };
        let b3 = if x - i >= 0 && y - j >= 0 {
            raised(info, b2, x - i, y - j, color)
        } else {
            b2
        };
        if y - j >= 0 {
            raised(info, b3, x + i, y - j, color)
        } else {
            b3
        }
    } else {
        buffer
    }
}

/// The buffer after the points (`i`, 0), .., (`i`, `rows` - 1) of a disk were drawn.
pub open spec fn disk_column(
    info: FramebufferInfo,
    buffer: Seq<u8>,
    x: int,
    y: int,
    i: int,
    rows: nat,
    radius: int,
    color: Color,
) -> Seq<u8>
    decreases rows,
{
    if rows == 0 {
        buffer
    } else {
        disk_point(
            info,
            disk_column(info, buffer, x, y, i, (rows - 1) as nat, radius, color),
            x,
            y,
            i,
            rows - 1,
            radius,
            color,
        )
    }
}

/// The buffer after the first `columns` columns of a disk were drawn.
pub open spec fn disk(
    info: FramebufferInfo,
    buffer: Seq<u8>,
    x: int,
    y: int,
    columns: nat,
    radius: int,
    color: Color,
) -> Seq<u8>
    decreases columns,
{
    if columns == 0 {
        buffer
    } else {
        disk_column(
            info,
            disk(info, buffer, x, y, (columns - 1) as nat, radius, color),
            x,
            y,
            columns - 1,
            radius as nat,
            radius,
            color,
        )
    }
}

/// Whether every pixel that a disk may touch lies within the buffer where it
/// is on the screen.
pub open spec fn disk_within(info: FramebufferInfo, len: int, x: int, y: int, radius: int) -> bool {
    forall|px: int, py: int|
        x - radius < px < x + radius && y - radius < py < y + radius ==> #[trigger] raised_within(
            info,
            len,
            px,
            py,
        )
}

/// The coordinate that the number `v` stands for: a number below zero stands
/// for the coordinate that lies as far below the number of all coordinates.
pub open spec fn wrapped(v: int) -> int {
    if v < 0 {
        v + usize::MAX + 1
    } else {
        v
    }
}

/// The buffer after the four points of a circle around (`ax`, `ay`) were
/// drawn that belong to the point (`x`, `y`) of its upper left quarter, where
/// `x` is not above zero and `y` not below it.
pub open spec fn circle_points(
    info: FramebufferInfo,
    buffer: Seq<u8>,
    ax: int,
    ay: int,
    x: int,
    y: int,
    color: Color,
) -> Seq<u8> {
    let b1 = raised(info, buffer, ax + y, wrapped(ay + x), color);
    let b2 = raised(info, b1, ax - x, ay + y, color);
    let b3 = if ax - y >= 0 {
        raised(info, b2, ax - y, ay - x, color)
    } else {
        b2
    };
    if ay - y >= 0 {
        raised(info, b3, wrapped(ax + x), ay - y, color)
    } else {
        b3
    }
}

/// The point of the quarter that follows (`x`, `y`), and the error that
/// follows `err`: the distance of the next point from the circle.
pub open spec fn circle_next(x: int, y: int, err: int) -> (int, int, int) {
    let y2 = if err <= y {
        y + 1
    } else {
        y
    };
    let e1 = if err <= y {
        err + 2 * y2 + 1
    } else {
        err
    };
    if err > x || e1 > y2 {
        (x + 1, y2, e1 + 2 * (x + 1) + 1)
    } else {
        (x, y2, e1)
    }
}

/// The buffer after the circle of radius `r` around (`ax`, `ay`) was drawn
/// from the point (`x`, `y`) of its upper left quarter on, point by point,
/// until `x` reaches zero. (The drawing also ends where a step leads no
/// further or above the radius, which no step from the start of a circle
/// does.)
pub open spec fn circle_from(
    info: FramebufferInfo,
    buffer: Seq<u8>,
    ax: int,
    ay: int,
    r: int,
    x: int,
    y: int,
    err: int,
    color: Color,
) -> Seq<u8>
    decreases r - y - x,
{
    let drawn = circle_points(info, buffer, ax, ay, x, y, color);
    let (x2, y2, e2) = circle_next(x, y, err);
    if x2 >= 0 || x2 + y2 <= x + y || y2 > r {
        drawn
    } else {
        circle_from(info, drawn, ax, ay, r, x2, y2, e2, color)
    }
}

/// The buffer after the circle of radius `r` around (`ax`, `ay`) was drawn.
pub open spec fn circle(info: FramebufferInfo, buffer: Seq<u8>, ax: int, ay: int, r: int, color: Color) -> Seq<
    u8,
> {
    circle_from(info, buffer, ax, ay, r, -r, 0, 2 - 2 * r, color)
}

/// Whether the point at distance (`i`, `j`) from (`ax`, `ay`) lies within
/// the buffer where it is on the screen.
pub open spec fn circle_point_within(
    info: FramebufferInfo,
    len: int,
    ax: int,
    ay: int,
    i: int,
    j: int,
) -> bool {
    raised_within(info, len, wrapped(ax + i), wrapped(ay + j))
}

/// Whether that holds of every point that a circle may touch.
pub open spec fn circle_within(info: FramebufferInfo, len: int, ax: int, ay: int, r: int) -> bool {
    forall|i: int, j: int|
        -r <= i <= r && -r <= j <= r ==> #[trigger] circle_point_within(info, len, ax, ay, i, j)
}

/// Whether the sums and squares that drawing a circle of radius `r` around
/// (`ax`, `ay`) takes fit the signed numbers of the machine.
pub open spec fn circle_drawable(ax: int, ay: int, r: int) -> bool {
    &&& ax + r <= isize::MAX
    &&& ay + r <= isize::MAX
    &&& 2 * ((r + 2) * (r + 2)) <= isize::MAX
}

/// The error of the point (`x`, `y`) of a circle of radius `r`: how far the
/// point one step up and to the right lies from the circle.
#[verifier::opaque]
pub open spec fn circle_error(x: int, y: int, r: int) -> int {
    (x + 1) * (x + 1) + (y + 1) * (y + 1) - r * r
}

/// The error at the start of a circle, how it changes with a step up and with
/// a step to the right, and the bounds that the radius gives it. A point
/// whose error is not above its height lies below the radius.
proof fn lemma_circle_error(x: int, y: int, r: int)
    requires
        -r <= x <= 1,
        0 <= y <= r,
    ensures
        circle_error(-r, 0, r) == 2 - 2 * r,
        circle_error(x, y + 1, r) == circle_error(x, y, r) + 2 * (y + 1) + 1,
        circle_error(x + 1, y, r) == circle_error(x, y, r) + 2 * (x + 1) + 1,
        -(2 * ((r + 2) * (r + 2))) <= circle_error(x, y, r) <= 2 * ((r + 2) * (r + 2)),
        2 * r + 5 <= 2 * ((r + 2) * (r + 2)),
        circle_error(x, y, r) <= y ==> y < r,
{
    reveal(circle_error);
    assert((1 - r) * (1 - r) + 1 - r * r == 2 - 2 * r) by (nonlinear_arith);
    assert((x + 1) * (x + 1) + (y + 2) * (y + 2) - r * r == (x + 1) * (x + 1) + (y + 1) * (y + 1)
        - r * r + 2 * (y + 1) + 1) by (nonlinear_arith);
    assert((x + 2) * (x + 2) + (y + 1) * (y + 1) - r * r == (x + 1) * (x + 1) + (y + 1) * (y + 1)
        - r * r + 2 * (x + 1) + 1) by (nonlinear_arith);
    assert(0 <= (x + 1) * (x + 1) <= (r + 2) * (r + 2)) by (nonlinear_arith)
        requires
            -r <= x <= 1,
            0 <= r,
    ;
    assert(0 <= (y + 1) * (y + 1) <= (r + 2) * (r + 2)) by (nonlinear_arith)
        requires
            0 <= y <= r,
    ;
    assert(0 <= r * r <= (r + 2) * (r + 2)) by (nonlinear_arith)
        requires
            0 <= r,
    ;
    assert(2 * r + 5 <= 2 * ((r + 2) * (r + 2))) by (nonlinear_arith)
        requires
            0 <= r,
    ;
    if y >= r {
        assert((y + 1) * (y + 1) - r * r > y) by (nonlinear_arith)
            requires
                y >= r,
                r >= 0,
        ;
    }
}

/// Whether the writer can draw `primitive` into a buffer of `len` bytes: its
/// numbers fit the machine's, and what it touches of the screen lies within
/// the buffer.
pub open spec fn primitive_drawable(info: FramebufferInfo, len: int, primitive: Primitive) -> bool {
    match primitive {
        Primitive::Quad(a, b) => a.x <= b.x && a.y <= b.y && quad_within(
            info,
            len,
            a.x as int,
            a.y as int,
            b.x - a.x,
            b.y - a.y,
        ),
        Primitive::Disk(a, r) => disk_drawable(a.x as int, a.y as int, r as int) && disk_within(
            info,
            len,
            a.x as int,
            a.y as int,
            r as int,
        ),
        Primitive::Circle(a, r) => circle_drawable(a.x as int, a.y as int, r as int)
            && circle_within(info, len, a.x as int, a.y as int, r as int),
        _ => true,
    }
}

/// Whether the writer can draw `primitive` whatever it touches: the geometry
/// fits the buffer, and the numbers of the primitive fit the machine's.
pub open spec fn primitive_fits(info: FramebufferInfo, len: int, primitive: Primitive) -> bool {
    info.fits(len) && match primitive {
        Primitive::Quad(a, b) => a.x <= b.x && a.y <= b.y,
        Primitive::Disk(a, r) => disk_drawable(a.x as int, a.y as int, r as int),
        Primitive::Circle(a, r) => circle_drawable(a.x as int, a.y as int, r as int),
        _ => true,
    }
}

/// The buffer after `primitive` was drawn. A line is not drawn here, and an
/// ellipse and the curves have no drawing yet.
pub open spec fn primitive_drawn(
    info: FramebufferInfo,
    buffer: Seq<u8>,
    primitive: Primitive,
    color: Color,
) -> Seq<u8> {
    match primitive {
        Primitive::Quad(a, b) => quad_rows(
            info,
            buffer,
            a.x as int,
            a.y as int,
            (b.x - a.x) as nat,
            (b.y - a.y) as nat,
            color,
        ),
        Primitive::Disk(a, r) => disk(info, buffer, a.x as int, a.y as int, r as nat, r as int, color),
        Primitive::Circle(a, r) => circle(info, buffer, a.x as int, a.y as int, r as int, color),
        _ => buffer,
    }
}

/// The line that is left for the caller to draw.
pub open spec fn line_of(primitive: Primitive) -> Option<(Point, Point)> {
    match primitive {
        Primitive::Line(a, b) => Some((a, b)),
        _ => None,
    }
}

/// From a point of the upper left quarter of a circle whose error is as
/// `circle_error` says, the next point lies further on and not above the
/// radius, and its error is as `circle_error` says again: the drawing of a
/// circle ends only where it reaches the axis.
pub proof fn lemma_circle_goes_on(x: int, y: int, r: int)
    requires
        -r <= x <= 0,
        0 <= y <= r,
    ensures
        ({
            let (x2, y2, e2) = circle_next(x, y, circle_error(x, y, r));
            &&& x2 + y2 > x + y
            &&& x <= x2 <= x + 1
            &&& y <= y2 <= r
            &&& e2 == circle_error(x2, y2, r)
        }),
{
    lemma_circle_error(x, y, r);
    if circle_error(x, y, r) <= y {
        lemma_circle_error(x, y + 1, r);
    }
}

impl FramebufferWriter {
    pub fn new(info: FramebufferInfo) -> (r: Self)
        ensures
            r.info == info,
    {
        Self { info }
    }

    /// Sets the pixel at (`x`, `y`); does nothing where that is off the screen.
    pub fn draw_pixel(&self, buffer: &mut [u8], x: usize, y: usize, color: Color)
        requires
            raised_within(self.info, old(buffer)@.len() as int, x as int, y as int),
        ensures
            final(buffer)@ == raised(self.info, old(buffer)@, x as int, y as int, color),
            final(buffer)@.len() == old(buffer)@.len(),
    {
        if x < self.info.width && y < self.info.height {
            let at: usize = (x + ((self.info.height - 1) - y) * self.info.stride)
                * self.info.bytes_per_pixel;
            if self.info.pixel_format == PixelFormat::Rgb {
                buffer[at] = color.red;
                buffer[at + 1] = color.green;
                buffer[at + 2] = color.blue;
            } else {
                buffer[at] = color.blue;
                buffer[at + 1] = color.green;
                buffer[at + 2] = color.red;
            }
        }
    }

    /// Fills the rectangle between the corners `a`, which lies in it, and `b`,
    /// which does not, row by row.
    pub fn draw_quad(&self, buffer: &mut [u8], a: Point, b: Point, color: Color)
        requires
            a.x <= b.x,
            a.y <= b.y,
            quad_within(
                self.info,
                old(buffer)@.len() as int,
                a.x as int,
                a.y as int,
                b.x - a.x,
                b.y - a.y,
            ),
        ensures
            final(buffer)@ == quad_rows(
                self.info,
                old(buffer)@,
                a.x as int,
                a.y as int,
                (b.x - a.x) as nat,
                (b.y - a.y) as nat,
                color,
            ),
            final(buffer)@.len() == old(buffer)@.len(),
    {
        let width = b.x - a.x;
        let height = b.y - a.y;
        let ghost start = buffer@;
        let mut j: usize = 0;
        while j < height
            invariant
                j <= height,
                width == b.x - a.x,
                height == b.y - a.y,
                buffer@.len() == start.len(),
                buffer@ == quad_rows(
                    self.info,
                    start,
                    a.x as int,
                    a.y as int,
                    width as nat,
                    j as nat,
                    color,
                ),
                quad_within(
                    self.info,
                    start.len() as int,
                    a.x as int,
                    a.y as int,
                    width as int,
                    height as int,
                ),
            decreases height - j,
        {
            let ghost row_start = buffer@;
            let mut i: usize = 0;
            while i < width
                invariant
                    j < height,
                    i <= width,
                    width == b.x - a.x,
                    height == b.y - a.y,
                    buffer@.len() == start.len(),
                    buffer@ == quad_row(self.info, row_start, a.x as int, a.y + j, i as nat, color),
                    quad_within(
                        self.info,
                        start.len() as int,
                        a.x as int,
                        a.y as int,
                        width as int,
                        height as int,
                    ),
                decreases width - i,
            {
                assert(quad_point_within(
                    self.info,
                    start.len() as int,
                    a.x as int,
                    a.y as int,
                    i as int,
                    j as int,
                ));
                self.draw_pixel(buffer, a.x + i, a.y + j, color);
                i += 1;
            }
            j += 1;
        }
    }

    /// Fills the disk of radius `r` around `a`: each point of the quarter above
    /// and right of the centre that lies within the radius is mirrored into
    /// the other three quarters, as far as they have coordinates.
    pub fn draw_disk(&self, buffer: &mut [u8], a: Point, r: usize, color: Color)
        requires
            disk_drawable(a.x as int, a.y as int, r as int),
            disk_within(self.info, old(buffer)@.len() as int, a.x as int, a.y as int, r as int),
        ensures
            final(buffer)@ == disk(
                self.info,
                old(buffer)@,
                a.x as int,
                a.y as int,
                r as nat,
                r as int,
                color,
            ),
            final(buffer)@.len() == old(buffer)@.len(),
    {
        if r == 0 {
            return ;
        }
        let radius_squared = r * r;
        let x = a.x;
        let y = a.y;
        let ghost start = buffer@;
        let mut i: usize = 0;
        while i < r
            invariant
                i <= r,
                r >= 1,
                x == a.x,
                y == a.y,
                disk_drawable(x as int, y as int, r as int),
                radius_squared == r * r,
                buffer@.len() == start.len(),
                buffer@ == disk(self.info, start, x as int, y as int, i as nat, r as int, color),
                disk_within(self.info, start.len() as int, x as int, y as int, r as int),
            decreases r - i,
        {
            let ghost column_start = buffer@;
            let mut j: usize = 0;
            while j < r
                invariant
                    i < r,
                    j <= r,
                    r >= 1,
                    disk_drawable(x as int, y as int, r as int),
                    radius_squared == r * r,
                    buffer@.len() == start.len(),
                    buffer@ == disk_column(
                        self.info,
                        column_start,
                        x as int,
                        y as int,
                        i as int,
                        j as nat,
                        r as int,
                        color,
                    ),
                    disk_within(self.info, start.len() as int, x as int, y as int, r as int),
                decreases r - j,
            {
                assert(i * i <= (r - 1) * (r - 1) && j * j <= (r - 1) * (r - 1)) by (nonlinear_arith)
                    requires
                        0 <= i < r,
                        0 <= j < r,
                ;
                if i * i + j * j <= radius_squared {
                    assert(raised_within(self.info, start.len() as int, x + i, y + j));
                    self.draw_pixel(buffer, x + i, y + j, color);
                    if x >= i {
                        assert(raised_within(self.info, start.len() as int, x - i, y + j));
                        self.draw_pixel(buffer, x - i, y + j, color);
                    }
                    if x >= i && y >= j {
                        assert(raised_within(self.info, start.len() as int, x - i, y - j));
                        self.draw_pixel(buffer, x - i, y - j, color);
                    }
                    if y >= j {
                        assert(raised_within(self.info, start.len() as int, x + i, y - j));
                        self.draw_pixel(buffer, x + i, y - j, color);
                    }
                }
                j += 1;
            }
            i += 1;
        }
    }

    /// Draws the four points of a circle around `a` that belong to the point
    /// (`x`, `y`) of its upper left quarter; see `circle_points`.
    fn draw_circle_points(&self, buffer: &mut [u8], a: &Point, x: isize, y: isize, color: Color)
        requires
            x <= 0 <= y,
            a.x + y <= isize::MAX,
            a.y + y <= isize::MAX,
            a.x - x <= isize::MAX,
            a.y - x <= isize::MAX,
            -isize::MAX <= x,
            circle_point_within(self.info, old(buffer)@.len() as int, a.x as int, a.y as int, y as int, x as int),
            circle_point_within(self.info, old(buffer)@.len() as int, a.x as int, a.y as int, -x, y as int),
            circle_point_within(self.info, old(buffer)@.len() as int, a.x as int, a.y as int, -y, -x),
            circle_point_within(self.info, old(buffer)@.len() as int, a.x as int, a.y as int, x as int, -y),
        ensures
            final(buffer)@ == circle_points(
                self.info,
                old(buffer)@,
                a.x as int,
                a.y as int,
                x as int,
                y as int,
                color,
            ),
            final(buffer)@.len() == old(buffer)@.len(),
    {
        let ax: isize = a.x as isize;
        let ay: isize = a.y as isize;
        self.draw_pixel(buffer, (ax + y) as usize, a.y.wrapping_add_signed(x), color);
        self.draw_pixel(buffer, (ax - x) as usize, (ay + y) as usize, color);
        if ax - y >= 0 {
            self.draw_pixel(buffer, (ax - y) as usize, (ay - x) as usize, color);
        }
        if ay - y >= 0 {
            self.draw_pixel(buffer, a.x.wrapping_add_signed(x), (ay - y) as usize, color);
        }
    }

    /// Draws the circle of radius `r` around `a`: the points of its upper left
    /// quarter are found one after the other, each from the error of the one
    /// before, and mirrored into the other three quarters.
    pub fn draw_circle(&self, buffer: &mut [u8], a: Point, r: usize, color: Color)
        requires
            circle_drawable(a.x as int, a.y as int, r as int),
            circle_within(self.info, old(buffer)@.len() as int, a.x as int, a.y as int, r as int),
        ensures
            final(buffer)@ == circle(self.info, old(buffer)@, a.x as int, a.y as int, r as int, color),
            final(buffer)@.len() == old(buffer)@.len(),
    {
        proof {
            lemma_circle_error(-(r as int), 0, r as int);
        }
        let radius: isize = r as isize;
        let mut x: isize = -radius;
        let mut y: isize = 0;
        let mut err: isize = 2 - 2 * radius;
        let ghost start = buffer@;
        loop
            invariant_except_break
                -radius <= x <= 0,
                0 <= y <= radius,
                err == circle_error(x as int, y as int, radius as int),
                circle_from(
                    self.info,
                    buffer@,
                    a.x as int,
                    a.y as int,
                    radius as int,
                    x as int,
                    y as int,
                    err as int,
                    color,
                ) == circle(self.info, start, a.x as int, a.y as int, radius as int, color),
            invariant
                radius == r,
                circle_drawable(a.x as int, a.y as int, radius as int),
                circle_within(self.info, start.len() as int, a.x as int, a.y as int, radius as int),
                buffer@.len() == start.len(),
            ensures
                buffer@ == circle(self.info, start, a.x as int, a.y as int, radius as int, color),
            decreases radius - y - x,
        {
            proof {
                assert(circle_point_within(
                    self.info,
                    start.len() as int,
                    a.x as int,
                    a.y as int,
                    y as int,
                    x as int,
                ));
                assert(circle_point_within(
                    self.info,
                    start.len() as int,
                    a.x as int,
                    a.y as int,
                    -x,
                    y as int,
                ));
                assert(circle_point_within(
                    self.info,
                    start.len() as int,
                    a.x as int,
                    a.y as int,
                    -y,
                    -x,
                ));
                assert(circle_point_within(
                    self.info,
                    start.len() as int,
                    a.x as int,
                    a.y as int,
                    x as int,
                    -y,
                ));
                lemma_circle_error(x as int, y as int, radius as int);
            }
            self.draw_circle_points(buffer, &a, x, y, color);
            let ghost (x0, y0, e0) = (x as int, y as int, err as int);
            let rad = err;
            if rad <= y {
                y += 1;
                proof {
                    lemma_circle_error(x as int, y as int, radius as int);
                }
                err += 2 * y + 1;
            }
            proof {
                lemma_circle_error(x as int, y as int, radius as int);
            }
            if rad > x || err > y {
                x += 1;
                proof {
                    lemma_circle_error(x as int, y as int, radius as int);
                }
                err += 2 * x + 1;
            }
            assert(circle_next(x0, y0, e0) == (x as int, y as int, err as int));
            assert(x + y > x0 + y0);
            if x >= 0 {
                break ;
            }
        }
    }

    /// Whether the geometry fits a buffer of `len` bytes; every pixel of the
    /// screen then lies within the buffer.
    pub fn fits(&self, len: usize) -> (r: bool)
        ensures
            r == self.info.fits(len as int),
            r ==> forall|x: int, y: int| #[trigger] raised_within(self.info, len as int, x, y),
    {
        let fits = crate::framebuffer::writer::FramebufferWriter::new(self.info).fits(len);
        proof {
            if fits {
                assert forall|x: int, y: int| #[trigger]
                    raised_within(self.info, len as int, x, y) by {
                    if self.info.on_screen(x, y) {
                        lemma_fits_within(self.info, len as int, x, self.info.height - 1 - y);
                    }
                }
            }
        }
        fits
    }

    /// Fills the rectangle between `a` and `b` where the geometry fits the
    /// buffer and `b` lies neither left of `a` nor below it; draws nothing
    /// otherwise. Says whether it drew.
    pub fn try_draw_quad(&self, buffer: &mut [u8], a: Point, b: Point, color: Color) -> (r: bool)
        ensures
            r == (self.info.fits(old(buffer)@.len() as int) && a.x <= b.x && a.y <= b.y),
            r ==> final(buffer)@ == quad_rows(
                self.info,
                old(buffer)@,
                a.x as int,
                a.y as int,
                (b.x - a.x) as nat,
                (b.y - a.y) as nat,
                color,
            ),
            !r ==> final(buffer)@ == old(buffer)@,
    {
        if !self.fits(buffer.len()) || a.x > b.x || a.y > b.y {
            return false;
        }
        assert forall|i: int, j: int| 0 <= i < b.x - a.x && 0 <= j < b.y - a.y implies #[trigger] quad_point_within(
            self.info,
            buffer@.len() as int,
            a.x as int,
            a.y as int,
            i,
            j,
        ) by {
            assert(raised_within(self.info, buffer@.len() as int, a.x + i, a.y + j));
        }
        self.draw_quad(buffer, a, b, color);
        true
    }

    /// Fills the disk of radius `r` around `a` where the geometry fits the
    /// buffer and the numbers of the drawing fit the machine's; draws nothing
    /// otherwise. Says whether it drew.
    pub fn try_draw_disk(&self, buffer: &mut [u8], a: Point, r: usize, color: Color) -> (drawn: bool)
        ensures
            drawn == (self.info.fits(old(buffer)@.len() as int) && disk_drawable(
                a.x as int,
                a.y as int,
                r as int,
            )),
            drawn ==> final(buffer)@ == disk(
                self.info,
                old(buffer)@,
                a.x as int,
                a.y as int,
                r as nat,
                r as int,
                color,
            ),
            !drawn ==> final(buffer)@ == old(buffer)@,
    {
        if !self.fits(buffer.len()) {
            return false;
        }
        if r >= 1 {
            let reach: usize = r - 1;
            if a.x.checked_add(reach).is_none() || a.y.checked_add(reach).is_none() {
                return false;
            }
            let twice = match reach.checked_mul(reach) {
                Some(square) => square.checked_mul(2),
                None => None,
            };
            if twice.is_none() || r.checked_mul(r).is_none() {
                return false;
            }
        }
        self.draw_disk(buffer, a, r, color);
        true
    }

    /// Draws the circle of radius `r` around `a` where the geometry fits the
    /// buffer and the numbers of the drawing fit the machine's; draws nothing
    /// otherwise. Says whether it drew.
    pub fn try_draw_circle(&self, buffer: &mut [u8], a: Point, r: usize, color: Color) -> (drawn: bool)
        ensures
            drawn == (self.info.fits(old(buffer)@.len() as int) && circle_drawable(
                a.x as int,
                a.y as int,
                r as int,
            )),
            drawn ==> final(buffer)@ == circle(
                self.info,
                old(buffer)@,
                a.x as int,
                a.y as int,
                r as int,
                color,
            ),
            !drawn ==> final(buffer)@ == old(buffer)@,
    {
        if !self.fits(buffer.len()) {
            return false;
        }
        let limit: usize = (usize::MAX - 1) / 2;
        assert(limit == isize::MAX);
        let fits = match (a.x.checked_add(r), a.y.checked_add(r), r.checked_add(2)) {
            (Some(right), Some(top), Some(side)) => right <= limit && top <= limit
                && match side.checked_mul(side) {
                Some(square) => match square.checked_mul(2) {
                    Some(twice) => twice <= limit,
                    None => false,
                },
                None => false,
            },
            _ => false,
        };
        if !fits {
            return false;
        }
        assert forall|i: int, j: int| -r <= i <= r && -r <= j <= r implies #[trigger] circle_point_within(
            self.info,
            buffer@.len() as int,
            a.x as int,
            a.y as int,
            i,
            j,
        ) by {
            assert(raised_within(
                self.info,
                buffer@.len() as int,
                wrapped(a.x + i),
                wrapped(a.y + j),
            ));
        }
        self.draw_circle(buffer, a, r, color);
        true
    }

    /// Draws `primitive`. A line is not drawn but handed back for the caller
    /// to draw: its slope is followed in floating point, which this library
    /// does not have.
    pub fn draw_primitive(&self, buffer: &mut [u8], primitive: Primitive, color: Color) -> (r: Option<
        (Point, Point),
    >)
        requires
            primitive_drawable(self.info, old(buffer)@.len() as int, primitive),
        ensures
            final(buffer)@ == primitive_drawn(self.info, old(buffer)@, primitive, color),
            r == line_of(primitive),
    {
        match primitive {
            Primitive::Line(a, b) => Some((a, b)),
            Primitive::Quad(a, b) => {
                self.draw_quad(buffer, a, b, color);
                None
            },
            Primitive::Disk(a, r) => {
                self.draw_disk(buffer, a, r, color);
                None
            },
            Primitive::Circle(a, r) => {
                self.draw_circle(buffer, a, r, color);
                None
            },
            Primitive::Ellipse(a, b) => {
                self.draw_ellipse(buffer, a, b, color);
                None
            },
            Primitive::BezierQuad(_, _, _) => None,
            Primitive::BezierCubic(_, _, _, _) => None,
        }
    }

    /// Draws `primitive` where the geometry fits the buffer and the numbers of
    /// the primitive fit the machine's, and hands back the line that is left to
    /// draw, if any; draws nothing and gives none otherwise.
    pub fn try_draw_primitive(&self, buffer: &mut [u8], primitive: Primitive, color: Color) -> (r:
        Option<Option<(Point, Point)>>)
        ensures
            r.is_some() == primitive_fits(self.info, old(buffer)@.len() as int, primitive),
            r matches Some(line) ==> line == line_of(primitive) && final(buffer)@ == primitive_drawn(
                self.info,
                old(buffer)@,
                primitive,
                color,
            ),
            r.is_none() ==> final(buffer)@ == old(buffer)@,
    {
        let drawn = match primitive {
            Primitive::Line(a, b) => {
                if self.fits(buffer.len()) {
                    return Some(Some((a, b)));
                } else {
                    return None;
                }
            },
            Primitive::Quad(a, b) => self.try_draw_quad(buffer, a, b, color),
            Primitive::Disk(a, r) => self.try_draw_disk(buffer, a, r, color),
            Primitive::Circle(a, r) => self.try_draw_circle(buffer, a, r, color),
            _ => self.fits(buffer.len()),
        };
        if drawn {
            Some(None)
        } else {
            None
        }
    }

    /// Draws nothing: an ellipse has no drawing yet.
    pub fn draw_ellipse(&self, buffer: &mut [u8], a: Point, b: Point, color: Color)
        ensures
            final(buffer)@ == old(buffer)@,
    {
    }
}

/// Fills the screen with the colour of the background.
pub fn draw_background(buffer: &mut [u8], writer: &FramebufferWriter)
    requires
        quad_within(
            writer.info,
            old(buffer)@.len() as int,
            0,
            0,
            writer.info.width as int,
            writer.info.height as int,
        ),
    ensures
        final(buffer)@ == quad_rows(
            writer.info,
            old(buffer)@,
            0,
            0,
            writer.info.width as nat,
            writer.info.height as nat,
            Color { red: 221, green: 232, blue: 242 },
        ),
        final(buffer)@.len() == old(buffer)@.len(),
{
    let info = writer.info;
    writer.draw_quad(
        buffer,
        Point { x: 0, y: 0 },
        Point { x: info.width, y: info.height },
        Color { red: 221, green: 232, blue: 242 },
    );
}

} // verus!
