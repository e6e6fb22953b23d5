use vstd::prelude::*;

pub mod writer;

verus! {

/// The order of the colour channels within a pixel.
#[derive(Debug, Clone, Copy, PartialEq, Eq, Structural)]
pub enum PixelFormat {
    Rgb,
    Bgr,
}

#[derive(Debug, Clone, Copy, PartialEq, Eq, Structural)]
pub struct Color {
    pub red: u8,
    pub green: u8,
    pub blue: u8,
}

/// The geometry of a framebuffer.
#[derive(Debug, Clone, Copy)]
pub struct FramebufferInfo {
    /// Pixels per line that are shown.
    pub width: usize,
    /// Number of lines.
    pub height: usize,
    pub pixel_format: PixelFormat,
    /// Size of the whole buffer in bytes.
    pub byte_len: usize,
    pub bytes_per_pixel: usize,
    /// Pixels per line in memory; at least `width`.
    pub stride: usize,
}

impl FramebufferInfo {
    /// The index in the buffer of the first byte of the pixel at (`x`, `y`).
    pub open spec fn pixel_offset(self, x: int, y: int) -> int {
        (x + y * self.stride) * self.bytes_per_pixel
    }

    /// Whether (`x`, `y`) is a pixel of the screen.
    pub open spec fn on_screen(self, x: int, y: int) -> bool {
        0 <= x < self.width && 0 <= y < self.height
    }

    /// A geometry whose every pixel has three bytes of its own within a buffer of
    /// `len` bytes.
    pub open spec fn fits(self, len: int) -> bool {
        &&& self.bytes_per_pixel >= 3
        &&& self.width <= self.stride
        &&& self.height * self.stride * self.bytes_per_pixel <= len
        &&& len <= usize::MAX
    }

    /// In a geometry that fits the buffer, every pixel of the screen lies within it.
    pub proof fn lemma_fits_pixel(self, len: int, x: int, y: int)
        requires
            self.fits(len),
            self.on_screen(x, y),
        ensures
            0 <= x + y * self.stride <= usize::MAX,
            0 <= self.pixel_offset(x, y),
            self.pixel_offset(x, y) + 2 < len,
    {
        let s = self.stride as int;
        let b = self.bytes_per_pixel as int;
        let h = self.height as int;
        assert(y * s + s <= h * s) by (nonlinear_arith)
            requires 0 <= y < h, 0 <= s;
        assert(0 <= y * s) by (nonlinear_arith)
            requires 0 <= y, 0 <= s;
        assert((x + y * s) * b + b <= (h * s) * b) by (nonlinear_arith)
            requires 0 <= x + y * s, x + y * s + 1 <= h * s, 0 <= b;
        assert(0 <= (x + y * s) * b) by (nonlinear_arith)
            requires 0 <= x + y * s, 0 <= b;
        assert(x + y * s <= (h * s) * b) by (nonlinear_arith)
            requires 0 <= x + y * s, x + y * s + 1 <= h * s, 3 <= b;
    }
}

/// A framebuffer as the kernel receives it: where it is mapped, and its geometry.
pub struct Framebuffer {
    pub start_address: u64,
    pub info: FramebufferInfo,
}

impl Framebuffer {
    /// A framebuffer at `start_address`. The caller vouches that the address is
    /// that of a mapped buffer of `info.byte_len` bytes.
    pub fn new(start_address: u64, info: FramebufferInfo) -> (r: Self)
        ensures
            r.start_address == start_address,
            r.info == info,
    {
        Framebuffer { start_address, info }
    }

    pub fn info(&self) -> (r: FramebufferInfo)
        ensures
            r == self.info,
    {
        self.info
    }
}

} // verus!
