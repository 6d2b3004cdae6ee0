//! The framebuffer: a row-major grid of packed RGB pixels with a current drawing colour.

use vstd::prelude::*;

verus! {

/// The largest width or height of a framebuffer.
pub const SCREEN_MAX: usize = 0x7fff_ffff;

/// A `width` × `height` grid of packed RGB pixels, stored row by row.
pub struct Framebuffer {
    pub width: usize,
    pub height: usize,
    pub buffer: Vec<u32>,
    pub background_color: u32,
    pub current_color: u32,
}

/// The index of pixel (`x`, `y`) in a row-major buffer of the given width.
pub open spec fn pixel_index(width: int, x: int, y: int) -> int {
    y * width + x
}

/// The index of a pixel inside the grid lies inside the buffer.
pub proof fn lemma_pixel_index_bounds(width: int, height: int, x: int, y: int)
    by (nonlinear_arith)
    requires
        0 <= x < width,
        0 <= y < height,
    ensures
        0 <= pixel_index(width, x, y) < width * height,
{
}

/// Two pixels of the grid with the same index are the same pixel.
pub proof fn lemma_pixel_index_injective(width: int, x1: int, y1: int, x2: int, y2: int)
    by (nonlinear_arith)
    requires
        0 <= x1 < width,
        0 <= x2 < width,
        0 <= y1,
        0 <= y2,
        pixel_index(width, x1, y1) == pixel_index(width, x2, y2),
    ensures
        x1 == x2,
        y1 == y2,
{
}

/// Whether pixel (`u`, `v`) lies in the rectangle of the given size whose
/// top left corner is (`x`, `y`).
pub open spec fn in_rect(x: int, y: int, width: int, height: int, u: int, v: int) -> bool {
    x <= u < x + width && y <= v < y + height
}

/// Whether pixel (`u`, `v`) lies in the square of the given size whose top
/// left corner is (`x`, `y`).
pub open spec fn in_square(x: int, y: int, size: int, u: int, v: int) -> bool {
    in_rect(x, y, size, size, u, v)
}

impl Framebuffer {
    /// The buffer holds exactly one entry per pixel, and both sides fit `SCREEN_MAX`.
    pub open spec fn wf(self) -> bool {
        &&& self.width <= SCREEN_MAX
        &&& self.height <= SCREEN_MAX
        &&& self.buffer@.len() == self.width * self.height
    }

    /// Whether (`x`, `y`) is a pixel of the grid.
    pub open spec fn contains(self, x: int, y: int) -> bool {
        0 <= x < self.width && 0 <= y < self.height
    }

    /// The colour of pixel (`x`, `y`).
    pub open spec fn pixel(self, x: int, y: int) -> u32 {
        self.buffer@[pixel_index(self.width as int, x, y)]
    }

    /// Same size and colours as `other`; the pixels may differ.
    pub open spec fn same_frame(self, other: Framebuffer) -> bool {
        &&& self.width == other.width
        &&& self.height == other.height
        &&& self.background_color == other.background_color
        &&& self.current_color == other.current_color
    }

    /// Whether the buffer holds exactly one entry per pixel, and both sides
    /// fit `SCREEN_MAX`.
    pub fn is_wf(&self) -> (b: bool)
        ensures
            b == self.wf(),
    {
        if self.width > SCREEN_MAX || self.height > SCREEN_MAX {
            return false;
        }
        assert(self.width * self.height <= 0x7fff_ffff * 0x7fff_ffff) by (nonlinear_arith)
            requires
                0 <= self.width <= 0x7fff_ffff,
                0 <= self.height <= 0x7fff_ffff,
        ;
        self.buffer.len() as u64 == self.width as u64 * self.height as u64
    }

    /// A framebuffer of the given size, every pixel black, drawing in white.
    pub fn new(width: usize, height: usize) -> (fb: Framebuffer)
        requires
            width <= SCREEN_MAX,
            height <= SCREEN_MAX,
            width * height <= usize::MAX,
        ensures
            fb.wf(),
            fb.width == width,
            fb.height == height,
            fb.background_color == 0x000000,
            fb.current_color == 0xFFFFFF,
            forall|x: int, y: int| fb.contains(x, y) ==> #[trigger] fb.pixel(x, y) == 0x000000,
    {
        let buffer: Vec<u32> = vec![0x000000u32; width * height];
        let fb = Framebuffer {
            width,
            height,
            buffer,
            background_color: 0x000000,
            current_color: 0xFFFFFF,
        };
        assert forall|x: int, y: int| fb.contains(x, y) implies #[trigger] fb.pixel(x, y)
            == 0x000000 by {
            lemma_pixel_index_bounds(width as int, height as int, x, y);
        }
        fb
    }

    /// Paints every pixel in the background colour.
    pub fn clear(&mut self)
        requires
            old(self).wf(),
        ensures
            final(self).wf(),
            final(self).same_frame(*old(self)),
            forall|x: int, y: int|
                final(self).contains(x, y) ==> #[trigger] final(self).pixel(x, y) == old(
                    self,
                ).background_color,
    {
        let n = self.buffer.len();
        let mut i: usize = 0;
        while i < n
            invariant
                0 <= i <= n,
                n == self.buffer@.len(),
                self.wf(),
                self.same_frame(*old(self)),
                forall|j: int| 0 <= j < i ==> self.buffer@[j] == self.background_color,
            decreases n - i,
        {
            self.buffer.set(i, self.background_color);
            i += 1;
        }
        assert forall|x: int, y: int| self.contains(x, y) implies #[trigger] self.pixel(x, y)
            == old(self).background_color by {
            lemma_pixel_index_bounds(self.width as int, self.height as int, x, y);
        }
    }

    /// Sets the colour that `clear` paints.
    pub fn set_background_color(&mut self, color: u32)
        ensures
            final(self).background_color == color,
            final(self).width == old(self).width,
            final(self).height == old(self).height,
            final(self).buffer == old(self).buffer,
            final(self).current_color == old(self).current_color,
    {
        self.background_color = color;
    }

    /// Sets the colour that `point` paints.
    pub fn set_current_color(&mut self, color: u32)
        ensures
            final(self).current_color == color,
            final(self).width == old(self).width,
            final(self).height == old(self).height,
            final(self).buffer == old(self).buffer,
            final(self).background_color == old(self).background_color,
    {
        self.current_color = color;
    }

    /// Paints pixel (`x`, `y`) in `color`. A position outside the grid is skipped.
    pub fn paint(&mut self, x: usize, y: usize, color: u32)
        requires
            old(self).wf(),
        ensures
            final(self).wf(),
            final(self).same_frame(*old(self)),
            !old(self).contains(x as int, y as int) ==> final(self).buffer == old(self).buffer,
            forall|u: int, v: int|
                final(self).contains(u, v) ==> #[trigger] final(self).pixel(u, v) == (if u == x
                    && v == y {
                    color
                } else {
                    old(self).pixel(u, v)
                }),
    {
        if x < self.width && y < self.height {
            proof {
                lemma_pixel_index_bounds(
                    self.width as int,
                    self.height as int,
                    x as int,
                    y as int,
                );
            }
            assert(self.width * self.height == self.buffer.len());
            let index = y * self.width + x;
            self.buffer.set(index, color);
            assert forall|u: int, v: int| self.contains(u, v) implies #[trigger] self.pixel(u, v)
                == (if u == x && v == y {
                color
            } else {
                old(self).pixel(u, v)
            }) by {
                lemma_pixel_index_bounds(self.width as int, self.height as int, u, v);
                if !(u == x && v == y) {
                    if pixel_index(self.width as int, u, v) == pixel_index(
                        self.width as int,
                        x as int,
                        y as int,
                    ) {
                        lemma_pixel_index_injective(self.width as int, u, v, x as int, y as int);
                    }
                }
            }
        }
    }

    /// Paints pixel (`x`, `y`) in the current colour. A position outside the
    /// grid is skipped.
    pub fn point(&mut self, x: usize, y: usize)
        requires
            old(self).wf(),
        ensures
            final(self).wf(),
            final(self).same_frame(*old(self)),
            !old(self).contains(x as int, y as int) ==> final(self).buffer == old(self).buffer,
            forall|u: int, v: int|
                final(self).contains(u, v) ==> #[trigger] final(self).pixel(u, v) == (if u == x
                    && v == y {
                    old(self).current_color
                } else {
                    old(self).pixel(u, v)
                }),
    {
        let color = self.current_color;
        self.paint(x, y, color);
    }

    /// Paints in `color` the rectangle of the given size whose top left
    /// corner is (`x`, `y`), as far as it lies inside the grid.
    pub fn fill_rect(&mut self, x: usize, y: usize, width: usize, height: usize, color: u32)
        requires
            old(self).wf(),
        ensures
            final(self).wf(),
            final(self).same_frame(*old(self)),
            forall|u: int, v: int|
                final(self).contains(u, v) ==> #[trigger] final(self).pixel(u, v) == (
                if in_rect(x as int, y as int, width as int, height as int, u, v) {
                    color
                } else {
                    old(self).pixel(u, v)
                }),
    {
        if x >= self.width || y >= self.height {
            return ;
        }
        let end_x: usize = if width > self.width - x {
            self.width
        } else {
            x + width
        };
        let end_y: usize = if height > self.height - y {
            self.height
        } else {
            y + height
        };
        let mut u: usize = x;
        while u < end_x
            invariant
                x <= u <= end_x <= self.width,
                y <= end_y <= self.height,
                end_x == self.width || end_x == x + width,
                end_y == self.height || end_y == y + height,
                end_x <= x + width,
                end_y <= y + height,
                self.wf(),
                self.same_frame(*old(self)),
                forall|a: int, b: int|
                    self.contains(a, b) ==> #[trigger] self.pixel(a, b) == (if a < u && in_rect(
                        x as int,
                        y as int,
                        width as int,
                        height as int,
                        a,
                        b,
                    ) {
                        color
                    } else {
                        old(self).pixel(a, b)
                    }),
            decreases end_x - u,
        {
            let mut v: usize = y;
            while v < end_y
                invariant
                    x <= u < end_x <= self.width,
                    y <= v <= end_y <= self.height,
                    end_x == self.width || end_x == x + width,
                    end_y == self.height || end_y == y + height,
                    end_x <= x + width,
                    end_y <= y + height,
                    self.wf(),
                    self.same_frame(*old(self)),
                    forall|a: int, b: int|
                        self.contains(a, b) ==> #[trigger] self.pixel(a, b) == (if (a < u || (a
                            == u && b < v)) && in_rect(
                            x as int,
                            y as int,
                            width as int,
                            height as int,
                            a,
                            b,
                        ) {
                            color
                        } else {
                            old(self).pixel(a, b)
                        }),
                decreases end_y - v,
            {
                self.paint(u, v, color);
                v += 1;
            }
            u += 1;
        }
    }

    /// Paints in `color` the square of the given size whose top left corner
    /// is (`x`, `y`), as far as it lies inside the grid.
    pub fn fill_square(&mut self, x: usize, y: usize, size: usize, color: u32)
        requires
            old(self).wf(),
        ensures
            final(self).wf(),
            final(self).same_frame(*old(self)),
            forall|u: int, v: int|
                final(self).contains(u, v) ==> #[trigger] final(self).pixel(u, v) == (
                if in_square(x as int, y as int, size as int, u, v) {
                    color
                } else {
                    old(self).pixel(u, v)
                }),
    {
        self.fill_rect(x, y, size, size, color);
    }

    /// The colour of pixel (`x`, `y`).
    pub fn get(&self, x: usize, y: usize) -> (color: u32)
        requires
            self.wf(),
            self.contains(x as int, y as int),
        ensures
            color == self.pixel(x as int, y as int),
    {
        proof {
            lemma_pixel_index_bounds(self.width as int, self.height as int, x as int, y as int);
            assert(self.width * self.height == self.buffer.len());
        }
        self.buffer[y * self.width + x]
    }
}

} // verus!
