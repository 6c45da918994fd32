//! The pixel buffer that the renderers paint into.

use vstd::prelude::*;

verus! {

/// A colour of four channels: red, green, blue and opacity.
#[derive(Clone, Copy, Debug, PartialEq, Eq, Structural)]
pub struct Color {
    pub r: u8,
    pub g: u8,
    pub b: u8,
    pub a: u8,
}

impl Color {
    /// The colour with the given channels.
    pub fn new(r: u8, g: u8, b: u8, a: u8) -> (c: Color)
        ensures
            c == (Color { r, g, b, a }),
    {
        Color { r, g, b, a }
    }

    /// Opaque black.
    pub open spec fn spec_black() -> Color {
        Color { r: 0, g: 0, b: 0, a: 255 }
    }

    /// Opaque black.
    #[verifier::when_used_as_spec(spec_black)]
    pub fn black() -> (c: Color)
        ensures
            c == Color::spec_black(),
    {
        Color { r: 0, g: 0, b: 0, a: 255 }
    }

    /// Opaque white.
    pub open spec fn spec_white() -> Color {
        Color { r: 255, g: 255, b: 255, a: 255 }
    }

    /// Opaque white.
    #[verifier::when_used_as_spec(spec_white)]
    pub fn white() -> (c: Color)
        ensures
            c == Color::spec_white(),
    {
        Color { r: 255, g: 255, b: 255, a: 255 }
    }
}

/// A rectangle of pixels with a background colour, which `clear` fills it
/// with, and a current colour, which `set_pixel` paints with. Column `x` of
/// row `y` is the pixel `(x, y)`; row 0 is the top row.
pub struct Framebuffer {
    width: u32,
    height: u32,
    pixels: Vec<Color>,
    background_color: Color,
    current_color: Color,
}

/// The most pixels that a buffer can have in a row, and the most rows: the
/// coordinates that `set_pixel` takes reach no further.
pub const MAX_SIDE: u32 = 0x7fff_ffff;

/// The place of the pixel `(x, y)` in a buffer that is `w` pixels wide and
/// stored row after row.
spec fn offset(w: int, x: int, y: int) -> int {
    y * w + x
}

/// Within a buffer of `w` by `h` pixels every pixel has a place of its own.
proof fn lemma_offset(w: int, h: int, x: int, y: int)
    requires
        0 <= x < w,
        0 <= y < h,
    ensures
        0 <= offset(w, x, y) < w * h,
        offset(w, x, y) / w == y,
        offset(w, x, y) % w == x,
{
    assert(0 <= y * w <= (h - 1) * w) by (nonlinear_arith)
        requires
            0 <= y <= h - 1,
            0 < w,
    ;
    assert((h - 1) * w == w * h - w) by (nonlinear_arith);
    vstd::arithmetic::div_mod::lemma_fundamental_div_mod_converse(y * w + x, w, y, x);
}

impl Framebuffer {
    #[verifier::type_invariant]
    spec fn well_formed(&self) -> bool {
        &&& self.width <= MAX_SIDE
        &&& self.height <= MAX_SIDE
        &&& self.pixels@.len() == self.width * self.height
        &&& self.width * self.height <= usize::MAX
    }

    /// The number of pixels in a row.
    pub closed spec fn spec_width(&self) -> u32 {
        self.width
    }

    /// The number of rows.
    pub closed spec fn spec_height(&self) -> u32 {
        self.height
    }

    /// The colour that `clear` fills the buffer with.
    pub closed spec fn spec_background_color(&self) -> Color {
        self.background_color
    }

    /// The colour that `set_pixel` paints with.
    pub closed spec fn spec_current_color(&self) -> Color {
        self.current_color
    }

    /// Whether `(x, y)` is a pixel of the buffer.
    pub open spec fn holds(&self, x: int, y: int) -> bool {
        0 <= x < self.spec_width() && 0 <= y < self.spec_height()
    }

    /// The colour of the pixel `(x, y)`.
    pub closed spec fn pixel(&self, x: int, y: int) -> Color {
        self.pixels@[offset(self.width as int, x, y)]
    }

    /// A buffer of `width` by `height` black pixels, with black as its
    /// background and white as its current colour.
    pub fn new(width: u32, height: u32) -> (fb: Self)
        requires
            width <= MAX_SIDE,
            height <= MAX_SIDE,
            width * height <= usize::MAX,
        ensures
            fb.spec_width() == width,
            fb.spec_height() == height,
            fb.spec_background_color() == Color::black(),
            fb.spec_current_color() == Color::white(),
            forall|x: int, y: int| fb.holds(x, y) ==> fb.pixel(x, y) == Color::black(),
    {
        let n: usize = (width as usize) * (height as usize);
        let mut pixels: Vec<Color> = Vec::new();
        let mut i: usize = 0;
        while i < n
            invariant
                i <= n,
                pixels@.len() == i,
                forall|k: int| 0 <= k < i ==> pixels@[k] == Color::black(),
            decreases n - i,
        {
            pixels.push(Color::black());
            i += 1;
        }
        let fb = Framebuffer {
            width,
            height,
            pixels,
            background_color: Color::black(),
            current_color: Color::white(),
        };
        proof {
            assert forall|x: int, y: int| fb.holds(x, y) implies fb.pixel(x, y)
                == Color::black() by {
                lemma_offset(width as int, height as int, x, y);
            }
        }
        fb
    }

    /// The number of pixels in a row.
    #[verifier::when_used_as_spec(spec_width)]
    pub fn width(&self) -> (w: u32)
        ensures
            w == self.spec_width(),
            w <= MAX_SIDE,
    {
        proof {
            use_type_invariant(self);
        }
        self.width
    }

    /// The number of rows.
    #[verifier::when_used_as_spec(spec_height)]
    pub fn height(&self) -> (h: u32)
        ensures
            h == self.spec_height(),
            h <= MAX_SIDE,
    {
        proof {
            use_type_invariant(self);
        }
        self.height
    }

    /// The colour that `clear` fills the buffer with.
    #[verifier::when_used_as_spec(spec_background_color)]
    pub fn background_color(&self) -> (c: Color)
        ensures
            c == self.spec_background_color(),
    {
        self.background_color
    }

    /// The colour that `set_pixel` paints with.
    #[verifier::when_used_as_spec(spec_current_color)]
    pub fn current_color(&self) -> (c: Color)
        ensures
            c == self.spec_current_color(),
    {
        self.current_color
    }

    /// The colour of the pixel `(x, y)`, if the buffer has such a pixel.
    pub fn get_pixel(&self, x: u32, y: u32) -> (c: Option<Color>)
        ensures
            c == (if self.holds(x as int, y as int) {
                Some(self.pixel(x as int, y as int))
            } else {
                None
            }),
    {
        if x < self.width && y < self.height {
            proof {
                use_type_invariant(self);
                lemma_offset(self.width as int, self.height as int, x as int, y as int);
            }
            Some(self.pixels[y as usize * self.width as usize + x as usize])
        } else {
            None
        }
    }

    /// Sets the colour that `clear` fills the buffer with.
    pub fn set_background_color(&mut self, c: Color)
        ensures
            final(self).spec_background_color() == c,
            final(self).spec_current_color() == old(self).spec_current_color(),
            final(self).spec_width() == old(self).spec_width(),
            final(self).spec_height() == old(self).spec_height(),
            forall|x: int, y: int| final(self).pixel(x, y) == old(self).pixel(x, y),
    {
        proof {
            use_type_invariant(&*self);
        }
        self.background_color = c;
    }

    /// Sets the colour that `set_pixel` paints with.
    pub fn set_current_color(&mut self, c: Color)
        ensures
            final(self).spec_current_color() == c,
            final(self).spec_background_color() == old(self).spec_background_color(),
            final(self).spec_width() == old(self).spec_width(),
            final(self).spec_height() == old(self).spec_height(),
            forall|x: int, y: int| final(self).pixel(x, y) == old(self).pixel(x, y),
    {
        proof {
            use_type_invariant(&*self);
        }
        self.current_color = c;
    }

    /// Paints the pixel `(x, y)` in the current colour. Coordinates outside
    /// the buffer are ignored.
    pub fn set_pixel(&mut self, x: i32, y: i32)
        ensures
            final(self).spec_background_color() == old(self).spec_background_color(),
            final(self).spec_current_color() == old(self).spec_current_color(),
            final(self).spec_width() == old(self).spec_width(),
            final(self).spec_height() == old(self).spec_height(),
            old(self).holds(x as int, y as int) ==> final(self).pixel(x as int, y as int) == old(
                self,
            ).spec_current_color(),
            forall|i: int, j: int|
                old(self).holds(i, j) && !(i == x && j == y) ==> final(self).pixel(i, j) == old(
                    self,
                ).pixel(i, j),
            !old(self).holds(x as int, y as int) ==> *final(self) == *old(self),
    {
        proof {
            use_type_invariant(&*self);
        }
        if x >= 0 && y >= 0 && (x as u32) < self.width && (y as u32) < self.height {
            let ghost w = self.width as int;
            let ghost h = self.height as int;
            proof {
                lemma_offset(w, h, x as int, y as int);
            }
            let at: usize = y as usize * self.width as usize + x as usize;
            let c = self.current_color;
            self.pixels[at] = c;
            proof {
                assert forall|i: int, j: int|
                    old(self).holds(i, j) && !(i == x && j == y) implies self.pixel(i, j) == old(
                    self,
                ).pixel(i, j) by {
                    lemma_offset(w, h, i, j);
                }
            }
        }
    }

    /// Fills the whole buffer with the background colour.
    pub fn clear(&mut self)
        ensures
            final(self).spec_background_color() == old(self).spec_background_color(),
            final(self).spec_current_color() == old(self).spec_current_color(),
            final(self).spec_width() == old(self).spec_width(),
            final(self).spec_height() == old(self).spec_height(),
            forall|x: int, y: int|
                final(self).holds(x, y) ==> final(self).pixel(x, y) == old(
                    self,
                ).spec_background_color(),
    {
        proof {
            use_type_invariant(&*self);
        }
        let n = self.pixels.len();
        let c = self.background_color;
        let mut i: usize = 0;
        while i < n
            invariant
                i <= n,
                n == self.pixels@.len(),
                n == self.width * self.height,
                self.width <= MAX_SIDE,
                self.height <= MAX_SIDE,
                c == self.background_color,
                self.background_color == old(self).background_color,
                self.current_color == old(self).current_color,
                self.width == old(self).width,
                self.height == old(self).height,
                forall|k: int| 0 <= k < i ==> self.pixels@[k] == c,
            decreases n - i,
        {
            self.pixels[i] = c;
            i += 1;
        }
        proof {
            assert forall|x: int, y: int| self.holds(x, y) implies self.pixel(x, y) == c by {
                lemma_offset(self.width as int, self.height as int, x, y);
            }
        }
    }

    /// Paints in the current colour every pixel `(x, y)` of the buffer with
    /// `x0 <= x < x1` and `y0 <= y < y1`.
    pub fn fill_rect(&mut self, x0: i128, y0: i128, x1: i128, y1: i128)
        ensures
            final(self).spec_background_color() == old(self).spec_background_color(),
            final(self).spec_current_color() == old(self).spec_current_color(),
            final(self).spec_width() == old(self).spec_width(),
            final(self).spec_height() == old(self).spec_height(),
            forall|x: int, y: int|
                old(self).holds(x, y) ==> #[trigger] final(self).pixel(x, y) == (if x0 <= x < x1
                    && y0 <= y < y1 {
                    old(self).spec_current_color()
                } else {
                    old(self).pixel(x, y)
                }),
    {
        let w = self.width() as i128;
        let h = self.height() as i128;
        let left = if x0 < 0 {
            0
        } else {
            x0
        };
        let right = if x1 > w {
            w
        } else {
            x1
        };
        let top = if y0 < 0 {
            0
        } else {
            y0
        };
        let bottom = if y1 > h {
            h
        } else {
            y1
        };
        if left >= right || top >= bottom {
            return ;
        }
        let ghost paint = self.spec_current_color();
        let mut y = top;
        while y < bottom
            invariant
                0 <= left < right <= w <= MAX_SIDE,
                0 <= top <= y <= bottom <= h <= MAX_SIDE,
                w == self.spec_width(),
                h == self.spec_height(),
                self.spec_width() == old(self).spec_width(),
                self.spec_height() == old(self).spec_height(),
                self.spec_background_color() == old(self).spec_background_color(),
                self.spec_current_color() == old(self).spec_current_color(),
                paint == self.spec_current_color(),
                forall|i: int, j: int|
                    old(self).holds(i, j) ==> #[trigger] self.pixel(i, j) == (if left <= i < right
                        && top <= j < y {
                        paint
                    } else {
                        old(self).pixel(i, j)
                    }),
            decreases bottom - y,
        {
            let mut x = left;
            while x < right
                invariant
                    0 <= left <= x <= right <= w <= MAX_SIDE,
                    0 <= top <= y < bottom <= h <= MAX_SIDE,
                    w == self.spec_width(),
                    h == self.spec_height(),
                    self.spec_width() == old(self).spec_width(),
                    self.spec_height() == old(self).spec_height(),
                    self.spec_background_color() == old(self).spec_background_color(),
                    self.spec_current_color() == old(self).spec_current_color(),
                    paint == self.spec_current_color(),
                    forall|i: int, j: int|
                        old(self).holds(i, j) ==> #[trigger] self.pixel(i, j) == (if left <= i
                            < right && (top <= j < y || (j == y && i < x)) {
                            paint
                        } else {
                            old(self).pixel(i, j)
                        }),
                decreases right - x,
            {
                self.set_pixel(x as i32, y as i32);
                x += 1;
            }
            y += 1;
        }
    }
}

} // verus!
