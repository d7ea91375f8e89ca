use vstd::prelude::*;

use crate::framebuffer::lemma_pixel_index_in_range;

verus! {

/// The error the `image` crate reports when it cannot decode an image.
#[verifier::external_type_specification]
#[verifier::external_body]
pub struct ExImageError(image::ImageError);

/// What the `image` crate makes of the bytes of an image file whose path is
/// `path`: the image's width and height and its pixels as RGBA8 bytes, or
/// nothing when the path's extension names no format it decodes or the bytes
/// do not decode in that format.
pub uninterp spec fn decoded_rgba8(bytes: Seq<u8>, path: Seq<char>) -> Option<(u32, u32, Seq<u8>)>;

/// Decodes an image file's bytes with the `image` crate: the format comes
/// from the extension of `path` (`ImageFormat::from_path`), the bytes are
/// decoded in it (`load_from_memory_with_format`), and the result's
/// `dimensions` and `to_rgba8` pixels are returned. The contract claims that
/// the result is `decoded_rgba8` of the arguments, that the call fails
/// exactly when that is nothing, and that the pixels are four bytes for each
/// of the `width * height` pixels; which error comes back is not stated.
#[verifier::external_body]
fn decode_rgba8(bytes: &Vec<u8>, path: &str) -> (r: Result<(u32, u32, Vec<u8>), image::ImageError>)
    ensures
        r is Err <==> decoded_rgba8(bytes@, path@) is None,
        r matches Ok((w, h, px)) ==> decoded_rgba8(bytes@, path@) == Some((w, h, px@)),
        r matches Ok((w, h, px)) ==> px@.len() == 4 * (w * h),
{
    let format = image::ImageFormat::from_path(path)?;
    let img = image::load_from_memory_with_format(bytes, format)?;
    let (width, height) = image::GenericImageView::dimensions(&img);
    Ok((width, height, img.to_rgba8().into_raw()))
}

/// Why a texture could not be made from an image file.
pub enum TextureError {
    /// The `image` crate could not decode the file.
    Decode(image::ImageError),
}

/// The colour with red `r`, green `g` and blue `b`, laid out as `0xRRGGBB`.
pub open spec fn pack_rgb_spec(r: u32, g: u32, b: u32) -> u32 {
    (r << 16) | (g << 8) | b
}

/// The red, green and blue bytes of a colour laid out as `0xRRGGBB`.
pub open spec fn channels_spec(c: u32) -> (u32, u32, u32) {
    ((c >> 16) & 0xFF, (c >> 8) & 0xFF, c & 0xFF)
}

/// Lays out three channels as `(r << 16) | (g << 8) | b`; for channels that
/// fit in a byte that is `r * 65536 + g * 256 + b`.
pub fn pack_rgb(r: u32, g: u32, b: u32) -> (c: u32)
    ensures
        c == pack_rgb_spec(r, g, b),
        r < 256 && g < 256 && b < 256 ==> c == r * 65536 + g * 256 + b,
{
    let c = (r << 16) | (g << 8) | b;
    proof {
        if r < 256 && g < 256 && b < 256 {
            assert(((r << 16) | (g << 8) | b) == r * 65536 + g * 256 + b) by (bit_vector)
                requires
                    r < 256,
                    g < 256,
                    b < 256,
            ;
        }
    }
    c
}

/// Splits a colour into its red, green and blue bytes (bits 16..24, 8..16
/// and 0..8).
pub fn channels(c: u32) -> (rgb: (u32, u32, u32))
    ensures
        rgb == channels_spec(c),
        rgb.0 < 256 && rgb.1 < 256 && rgb.2 < 256,
        rgb.0 == (c / 65536) % 256,
        rgb.1 == (c / 256) % 256,
        rgb.2 == c % 256,
{
    let r = (c >> 16) & 0xFF;
    let g = (c >> 8) & 0xFF;
    let b = c & 0xFF;
    assert(((c >> 16) & 0xFF) < 256 && ((c >> 8) & 0xFF) < 256 && (c & 0xFF) < 256) by (bit_vector);
    assert(((c >> 16) & 0xFF) == (c / 65536) % 256) by (bit_vector);
    assert(((c >> 8) & 0xFF) == (c / 256) % 256) by (bit_vector);
    assert((c & 0xFF) == c % 256) by (bit_vector);
    (r, g, b)
}

/// Splitting a packed colour gives back the three bytes it was packed from.
pub proof fn lemma_channels_of_packed(r: u32, g: u32, b: u32)
    requires
        r < 256,
        g < 256,
        b < 256,
    ensures
        channels_spec(pack_rgb_spec(r, g, b)) == (r, g, b),
{
    assert(((((r << 16) | (g << 8) | b) >> 16) & 0xFF) == r) by (bit_vector)
        requires
            r < 256,
            g < 256,
            b < 256,
    ;
    assert(((((r << 16) | (g << 8) | b) >> 8) & 0xFF) == g) by (bit_vector)
        requires
            r < 256,
            g < 256,
            b < 256,
    ;
    assert((((r << 16) | (g << 8) | b) & 0xFF) == b) by (bit_vector)
        requires
            r < 256,
            g < 256,
            b < 256,
    ;
}

/// Packing the bytes of a colour gives back its low 24 bits.
pub proof fn lemma_packed_of_channels(c: u32)
    ensures
        pack_rgb_spec(channels_spec(c).0, channels_spec(c).1, channels_spec(c).2) == c & 0xFFFFFF,
{
    assert(((((c >> 16) & 0xFF) << 16) | (((c >> 8) & 0xFF) << 8) | (c & 0xFF)) == c & 0xFFFFFF)
        by (bit_vector);
}

/// A `width` x `height` image of packed `0xRRGGBB` colours, stored row by row.
pub struct Texture {
    pub width: usize,
    pub height: usize,
    pub buffer: Vec<u32>,
}

/// The colour of pixel `i` of an RGBA8 byte stream: its red, green and blue
/// bytes packed, its alpha byte dropped.
pub open spec fn rgba_pixel(rgba: Seq<u8>, i: int) -> u32 {
    pack_rgb_spec(rgba[4 * i] as u32, rgba[4 * i + 1] as u32, rgba[4 * i + 2] as u32)
}

impl Texture {
    /// The buffer holds exactly one colour per pixel.
    pub open spec fn wf(&self) -> bool {
        self.buffer@.len() == self.width * self.height
    }

    /// The colour at column `x` of row `y`.
    pub open spec fn texel_spec(&self, x: int, y: int) -> u32 {
        self.buffer@[y * self.width + x]
    }

    /// A texture from an image's dimensions and its pixels as RGBA8 bytes,
    /// four per pixel, row by row; each pixel keeps its red, green and blue
    /// bytes as `0xRRGGBB`.
    pub fn from_rgba8(width: u32, height: u32, rgba: &Vec<u8>) -> (t: Texture)
        ensures
            t.width == width as usize,
            t.height == height as usize,
            t.buffer@.len() == rgba@.len() / 4,
            forall|i: int|
                0 <= i < t.buffer@.len() ==> #[trigger] t.buffer@[i] == rgba_pixel(rgba@, i),
            forall|i: int|
                0 <= i < t.buffer@.len() ==> #[trigger] t.buffer@[i] == rgba@[4 * i] * 65536
                    + rgba@[4 * i + 1] * 256 + rgba@[4 * i + 2],
            rgba@.len() == 4 * (width * height) ==> t.wf(),
    {
        let len = rgba.len();
        let n = len / 4;
        let mut buffer: Vec<u32> = Vec::with_capacity(n);
        let mut i: usize = 0;
        while i < n
            invariant
                0 <= i <= n,
                n == rgba@.len() / 4,
                len == rgba@.len(),
                buffer@.len() == i,
                forall|k: int| 0 <= k < i ==> #[trigger] buffer@[k] == rgba_pixel(rgba@, k),
                forall|k: int|
                    0 <= k < i ==> #[trigger] buffer@[k] == rgba@[4 * k] * 65536 + rgba@[4 * k + 1]
                        * 256 + rgba@[4 * k + 2],
            decreases n - i,
        {
            assert(4 * i + 3 < len) by (nonlinear_arith)
                requires
                    i < n,
                    n == len / 4,
            ;
            let r = rgba[4 * i] as u32;
            let g = rgba[4 * i + 1] as u32;
            let b = rgba[4 * i + 2] as u32;
            buffer.push(pack_rgb(r, g, b));
            i = i + 1;
        }
        Texture { width: width as usize, height: height as usize, buffer }
    }

    /// A texture from the bytes of an image file whose path is `path`: the
    /// image is decoded as `decoded_rgba8` states, and its RGBA8 pixels become
    /// the texture as in `from_rgba8`. Fails exactly when the image does not
    /// decode.
    pub fn from_image_bytes(bytes: &Vec<u8>, path: &str) -> (r: Result<Texture, TextureError>)
        ensures
            r is Ok <==> decoded_rgba8(bytes@, path@) is Some,
            r matches Ok(t) ==> ({
                let (w, h, px) = decoded_rgba8(bytes@, path@).unwrap();
                &&& t.width == w as usize
                &&& t.height == h as usize
                &&& t.buffer@.len() == px.len() / 4
                &&& forall|i: int|
                    0 <= i < t.buffer@.len() ==> #[trigger] t.buffer@[i] == rgba_pixel(px, i)
                &&& t.wf()
            }),
    {
        match decode_rgba8(bytes, path) {
            Ok((width, height, rgba)) => Ok(Texture::from_rgba8(width, height, &rgba)),
            Err(e) => Err(TextureError::Decode(e)),
        }
    }

    /// The colour at column `tex_x` of row `tex_y`, read from the buffer at
    /// `tex_y * width + tex_x`.
    pub fn texel(&self, tex_x: usize, tex_y: usize) -> (c: u32)
        requires
            tex_y * self.width + tex_x < self.buffer@.len(),
        ensures
            c == self.texel_spec(tex_x as int, tex_y as int),
    {
        // The buffer's length is a `usize`, which bounds the index below.
        let len = self.buffer.len();
        assert(tex_y * self.width + tex_x < len);
        self.buffer[tex_y * self.width + tex_x]
    }

    /// The four colours around `(x1, y1)` for bilinear filtering, as
    /// `(c11, c12, c21, c22)`: `c11` at `(x1, y1)`, `c12` at `(x1, y2)`,
    /// `c21` at `(x2, y1)` and `c22` at `(x2, y2)`, where `x2` and `y2` are
    /// the next column and row, held at the last ones (see `next_or_last`).
    pub fn corner_colors(&self, x1: usize, y1: usize) -> (c: (u32, u32, u32, u32))
        requires
            self.width >= 1,
            self.height >= 1,
            x1 < usize::MAX,
            y1 < usize::MAX,
            self.reads_inside(x1 as int, y1 as int),
            self.reads_inside(x1 as int, next_or_last(y1 as int, self.height as int)),
            self.reads_inside(next_or_last(x1 as int, self.width as int), y1 as int),
            self.reads_inside(
                next_or_last(x1 as int, self.width as int),
                next_or_last(y1 as int, self.height as int),
            ),
        ensures
            ({
                let x2 = next_or_last(x1 as int, self.width as int);
                let y2 = next_or_last(y1 as int, self.height as int);
                c == (
                    self.texel_spec(x1 as int, y1 as int),
                    self.texel_spec(x1 as int, y2),
                    self.texel_spec(x2, y1 as int),
                    self.texel_spec(x2, y2),
                )
            }),
    {
        let x2 = if x1 + 1 < self.width - 1 {
            x1 + 1
        } else {
            self.width - 1
        };
        let y2 = if y1 + 1 < self.height - 1 {
            y1 + 1
        } else {
            self.height - 1
        };
        let c11 = self.texel(x1, y1);
        let c12 = self.texel(x1, y2);
        let c21 = self.texel(x2, y1);
        let c22 = self.texel(x2, y2);
        (c11, c12, c21, c22)
    }

    /// Reading column `x` of row `y` stays inside the buffer.
    pub open spec fn reads_inside(&self, x: int, y: int) -> bool {
        y * self.width + x < self.buffer@.len()
    }

    /// On a well-formed texture, the four reads of bilinear filtering around
    /// any pixel stay inside the buffer.
    pub proof fn lemma_corner_reads_inside(&self, x1: int, y1: int)
        requires
            self.wf(),
            0 <= x1 < self.width,
            0 <= y1 < self.height,
        ensures
            self.reads_inside(x1, y1),
            self.reads_inside(x1, next_or_last(y1, self.height as int)),
            self.reads_inside(next_or_last(x1, self.width as int), y1),
            self.reads_inside(
                next_or_last(x1, self.width as int),
                next_or_last(y1, self.height as int),
            ),
    {
        let w = self.width as int;
        let h = self.height as int;
        lemma_pixel_index_in_range(w, h, x1, y1);
        lemma_pixel_index_in_range(w, h, x1, next_or_last(y1, h));
        lemma_pixel_index_in_range(w, h, next_or_last(x1, w), y1);
        lemma_pixel_index_in_range(w, h, next_or_last(x1, w), next_or_last(y1, h));
    }
}

/// The index after `v` among `n` indices, held at the last one, `n - 1`.
pub open spec fn next_or_last(v: int, n: int) -> int {
    if v + 1 < n - 1 {
        v + 1
    } else {
        n - 1
    }
}

} // verus!
