use vstd::prelude::*;

verus! {

/// A colour packed as `0xRRGGBB` in the low 24 bits of a `u32`.
pub struct Color(pub u32);

/// Position of pixel `(x, y)` in a row-major buffer whose rows are `width` long.
pub open spec fn pixel_index(width: int, x: int, y: int) -> int {
    y * width + x
}

/// Every pixel of a `width` x `height` image has its own slot in the buffer.
pub proof fn lemma_pixel_index_in_range(width: int, height: int, x: int, y: int)
    requires
        0 <= x < width,
        0 <= y < height,
    ensures
        0 <= pixel_index(width, x, y) < width * height,
{
    assert(0 <= y * width + x < width * height) by (nonlinear_arith)
        requires
            0 <= x < width,
            0 <= y < height,
    ;
}

/// Two different pixels of the same row width never share a slot.
pub proof fn lemma_pixel_index_injective(width: int, x1: int, y1: int, x2: int, y2: int)
    requires
        0 <= x1 < width,
        0 <= x2 < width,
        0 <= y1,
        0 <= y2,
        x1 != x2 || y1 != y2,
    ensures
        pixel_index(width, x1, y1) != pixel_index(width, x2, y2),
{
    if y1 < y2 {
        assert(y1 * width + x1 < y2 * width + x2) by (nonlinear_arith)
            requires
                0 <= x1 < width,
                0 <= x2,
                y1 < y2,
        ;
    } else if y2 < y1 {
        assert(y2 * width + x2 < y1 * width + x1) by (nonlinear_arith)
            requires
                0 <= x2 < width,
                0 <= x1,
                y2 < y1,
        ;
    }
}

/// A non-negative `i32` below `size as i32` is below `size` itself: the cast
/// only ever wraps to a smaller or negative value.
pub proof fn lemma_below_truncated_size(g: i32, size: usize)
    requires
        0 <= g,
        g < size as i32,
    ensures
        (g as int) < (size as int),
{
    assert((g as usize) < size) by (bit_vector)
        requires
            0 <= g,
            g < size as i32,
    ;
}

/// Pixel `p` of a rendered glyph lies on a `width` x `height` image, by the
/// signed comparison that text drawing makes.
pub open spec fn glyph_pixel_visible(p: (i32, i32), width: usize, height: usize) -> bool {
    0 <= p.0 && p.0 < (width as i32) && 0 <= p.1 && p.1 < (height as i32)
}

/// Some visible pixel among the first `n` of `pixels` is `(x, y)`.
pub open spec fn glyph_covers(
    pixels: Seq<(i32, i32)>,
    n: int,
    width: usize,
    height: usize,
    x: int,
    y: int,
) -> bool {
    exists|k: int|
        0 <= k < n && glyph_pixel_visible(#[trigger] pixels[k], width, height) && pixels[k].0 == x
            && pixels[k].1 == y
}

/// What a framebuffer shows: its size, its pixels row by row, the colour
/// that `clear` paints and the colour that `point` paints.
pub struct FramebufferView {
    pub width: usize,
    pub height: usize,
    pub pixels: Seq<u32>,
    pub background: u32,
    pub current: u32,
}

impl FramebufferView {
    /// There is exactly one entry per pixel.
    pub open spec fn wf(&self) -> bool {
        self.pixels.len() == self.width * self.height
    }

    pub open spec fn in_bounds(&self, x: int, y: int) -> bool {
        0 <= x < self.width && 0 <= y < self.height
    }

    /// The colour of pixel `(x, y)`.
    pub open spec fn pixel(&self, x: int, y: int) -> u32 {
        self.pixels[pixel_index(self.width as int, x, y)]
    }
}

/// A `width` x `height` image stored row by row, with the colour that
/// `clear` paints and the colour that `point` paints.
pub struct Framebuffer {
    pub width: usize,
    pub height: usize,
    pub buffer: Vec<u32>,
    background_color: u32,
    current_color: u32,
}

impl View for Framebuffer {
    type V = FramebufferView;

    closed spec fn view(&self) -> FramebufferView {
        FramebufferView {
            width: self.width,
            height: self.height,
            pixels: self.buffer@,
            background: self.background_color,
            current: self.current_color,
        }
    }
}

impl Framebuffer {
    /// The image's width: the view's width.
    pub fn width(&self) -> (w: usize)
        ensures
            w == self@.width,
    {
        self.width
    }

    /// The image's height: the view's height.
    pub fn height(&self) -> (h: usize)
        ensures
            h == self@.height,
    {
        self.height
    }

    /// The pixels row by row, as a window shows them: the view's pixels.
    pub fn buffer(&self) -> (b: &Vec<u32>)
        ensures
            b@ == self@.pixels,
    {
        &self.buffer
    }

    /// A black `width` x `height` image; the background is black and the
    /// drawing colour white.
    pub fn new(width: usize, height: usize) -> (fb: Self)
        requires
            width * height <= usize::MAX,
        ensures
            fb@.wf(),
            fb@.width == width,
            fb@.height == height,
            forall|i: int| 0 <= i < fb@.pixels.len() ==> #[trigger] fb@.pixels[i] == 0,
            fb@.background == 0x000000,
            fb@.current == 0xFFFFFF,
    {
        let n: usize = width * height;
        let mut buffer: Vec<u32> = Vec::with_capacity(n);
        let mut i: usize = 0;
        while i < n
            invariant
                0 <= i <= n,
                buffer@.len() == i,
                forall|k: int| 0 <= k < i ==> #[trigger] buffer@[k] == 0,
            decreases n - i,
        {
            buffer.push(0);
            i = i + 1;
        }
        Framebuffer {
            width,
            height,
            buffer,
            background_color: 0x000000,
            current_color: 0xFFFFFF,
        }
    }

    /// Paints every entry of the buffer with the background colour.
    pub fn clear(&mut self)
        ensures
            final(self)@.width == old(self)@.width,
            final(self)@.height == old(self)@.height,
            final(self)@.background == old(self)@.background,
            final(self)@.current == old(self)@.current,
            final(self)@.pixels == Seq::new(old(self)@.pixels.len(), |i: int| old(self)@.background),
    {
        let n = self.buffer.len();
        let bg = self.background_color;
        let mut i: usize = 0;
        while i < n
            invariant
                0 <= i <= n,
                n == old(self)@.pixels.len(),
                self@.pixels.len() == n,
                bg == old(self)@.background,
                self@.width == old(self)@.width,
                self@.height == old(self)@.height,
                self.background_color == old(self).background_color,
                self.current_color == old(self).current_color,
                forall|k: int| 0 <= k < i ==> #[trigger] self@.pixels[k] == bg,
            decreases n - i,
        {
            self.buffer.set(i, bg);
            i = i + 1;
        }
        assert(self@.pixels =~= Seq::new(n as nat, |i: int| bg));
    }

    /// Paints pixel `(x, y)` with the current colour; a point outside the
    /// image changes nothing.
    pub fn point(&mut self, x: usize, y: usize)
        requires
            old(self)@.wf(),
        ensures
            final(self)@.wf(),
            final(self)@.width == old(self)@.width,
            final(self)@.height == old(self)@.height,
            final(self)@.background == old(self)@.background,
            final(self)@.current == old(self)@.current,
            final(self)@.pixels == if old(self)@.in_bounds(x as int, y as int) {
                old(self)@.pixels.update(
                    pixel_index(old(self)@.width as int, x as int, y as int),
                    old(self)@.current,
                )
            } else {
                old(self)@.pixels
            },
            forall|px: int, py: int|
                old(self)@.in_bounds(px, py) ==> #[trigger] final(self)@.pixel(px, py) == if px == x
                    && py == y {
                    old(self)@.current
                } else {
                    old(self)@.pixel(px, py)
                },
    {
        // The buffer's length is a `usize`, which bounds the index below.
        let len = self.buffer.len();
        if x < self.width && y < self.height {
            proof {
                lemma_pixel_index_in_range(self@.width as int, self@.height as int, x as int, y as int);
                assert(y * self.width + x < len);
            }
            let idx = y * self.width + x;
            self.buffer.set(idx, self.current_color);
            assert forall|px: int, py: int| old(self)@.in_bounds(px, py) implies #[trigger] self@.pixel(
                px,
                py,
            ) == if px == x && py == y {
                old(self)@.current
            } else {
                old(self)@.pixel(px, py)
            } by {
                lemma_pixel_index_in_range(self@.width as int, self@.height as int, px, py);
                if px != x || py != y {
                    lemma_pixel_index_injective(self@.width as int, px, py, x as int, y as int);
                }
            }
        }
    }

    /// Paints, in `color`, each pixel of a rendered text whose coordinates
    /// fall on the image; the others are dropped. Coverage is decided by the
    /// caller: `pixels` lists the glyph pixels that are ink.
    pub fn draw_glyph_pixels(&mut self, pixels: &Vec<(i32, i32)>, color: Color)
        requires
            old(self)@.wf(),
        ensures
            final(self)@.wf(),
            final(self)@.width == old(self)@.width,
            final(self)@.height == old(self)@.height,
            final(self)@.background == old(self)@.background,
            final(self)@.current == old(self)@.current,
            forall|x: int, y: int|
                old(self)@.in_bounds(x, y) ==> #[trigger] final(self)@.pixel(x, y) == if glyph_covers(
                    pixels@,
                    pixels@.len() as int,
                    old(self)@.width,
                    old(self)@.height,
                    x,
                    y,
                ) {
                    color.0
                } else {
                    old(self)@.pixel(x, y)
                },
    {
        let n = self.buffer.len();
        let wi = self.width as i32;
        let hi = self.height as i32;
        let mut k: usize = 0;
        while k < pixels.len()
            invariant
                0 <= k <= pixels@.len(),
                self@.wf(),
                n == self@.pixels.len(),
                wi == old(self)@.width as i32,
                hi == old(self)@.height as i32,
                self@.width == old(self)@.width,
                self@.height == old(self)@.height,
                self.background_color == old(self).background_color,
                self.current_color == old(self).current_color,
                forall|x: int, y: int|
                    old(self)@.in_bounds(x, y) ==> #[trigger] self@.pixel(x, y) == if glyph_covers(
                        pixels@,
                        k as int,
                        old(self)@.width,
                        old(self)@.height,
                        x,
                        y,
                    ) {
                        color.0
                    } else {
                        old(self)@.pixel(x, y)
                    },
            decreases pixels@.len() - k,
        {
            let (gx, gy) = pixels[k];
            let ghost before = *self;
            if gx >= 0 && gx < wi && gy >= 0 && gy < hi {
                proof {
                    lemma_below_truncated_size(gx, self@.width);
                    lemma_below_truncated_size(gy, self@.height);
                    lemma_pixel_index_in_range(
                        self@.width as int,
                        self@.height as int,
                        gx as int,
                        gy as int,
                    );
                }
                let idx = (gy as usize) * self.width + (gx as usize);
                self.buffer.set(idx, color.0);
            }
            assert forall|x: int, y: int| old(self)@.in_bounds(x, y) implies #[trigger] self@.pixel(
                x,
                y,
            ) == if glyph_covers(pixels@, k + 1, old(self)@.width, old(self)@.height, x, y) {
                color.0
            } else {
                old(self)@.pixel(x, y)
            } by {
                lemma_pixel_index_in_range(self@.width as int, self@.height as int, x, y);
                assert(before@.pixel(x, y) == if glyph_covers(
                    pixels@,
                    k as int,
                    old(self)@.width,
                    old(self)@.height,
                    x,
                    y,
                ) {
                    color.0
                } else {
                    old(self)@.pixel(x, y)
                });
                let hit = glyph_pixel_visible(pixels@[k as int], self.width, self.height)
                    && pixels@[k as int].0 == x && pixels@[k as int].1 == y;
                if hit {
                    assert(glyph_covers(pixels@, k + 1, self@.width, self@.height, x, y));
                } else {
                    if glyph_pixel_visible(pixels@[k as int], self@.width, self@.height) {
                        lemma_below_truncated_size(gx, self@.width);
                        lemma_below_truncated_size(gy, self@.height);
                        lemma_pixel_index_injective(
                            self@.width as int,
                            x,
                            y,
                            gx as int,
                            gy as int,
                        );
                    }
                    assert(glyph_covers(pixels@, k + 1, self@.width, self@.height, x, y)
                        == glyph_covers(pixels@, k as int, self@.width, self@.height, x, y)) by {
                        if glyph_covers(pixels@, k + 1, self@.width, self@.height, x, y) {
                            let j = choose|j: int|
                                0 <= j < k + 1 && glyph_pixel_visible(
                                    #[trigger] pixels@[j],
                                    self@.width,
                                    self@.height,
                                ) && pixels@[j].0 == x && pixels@[j].1 == y;
                            assert(j != k);
                        }
                    }
                }
            }
            k = k + 1;
        }
    }

    /// Sets the colour that `clear` paints with.
    pub fn set_background_color(&mut self, color: Color)
        ensures
            final(self)@.width == old(self)@.width,
            final(self)@.height == old(self)@.height,
            final(self)@.pixels == old(self)@.pixels,
            final(self)@.background == color.0,
            final(self)@.current == old(self)@.current,
    {
        self.background_color = color.0;
    }

    /// Sets the colour that `point` paints with.
    pub fn set_current_color(&mut self, color: Color)
        ensures
            final(self)@.width == old(self)@.width,
            final(self)@.height == old(self)@.height,
            final(self)@.pixels == old(self)@.pixels,
            final(self)@.background == old(self)@.background,
            final(self)@.current == color.0,
    {
        self.current_color = color.0;
    }
}

} // verus!
