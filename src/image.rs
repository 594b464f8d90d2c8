//! Owned pixel buffers with value semantics, and the in-place operations on them.
use vstd::prelude::*;
use crate::pixel::{PixelLayout, Rgba, bpp, channel, stored, blend, blend_pixel};
use crate::RasterError;
use crate::filter::{Filter, FilterView, filtered};
use crate::codec::{decoded, png_encoded, resized_nearest, decode_image, encode_png, resize_nearest};

verus! {

/// The mathematical content of an image: its size, its layout and its pixels
/// in row-major order (pixels of an RGB image read back as opaque).
#[verifier::ext_equal]
pub struct ImageView {
    pub width: nat,
    pub height: nat,
    pub layout: PixelLayout,
    pub pixels: Seq<Rgba>,
}

impl ImageView {
    /// The pixel at column `x` and row `y`.
    pub open spec fn at(self, x: int, y: int) -> Rgba {
        self.pixels[y * self.width + x]
    }

    pub open spec fn in_bounds(self, x: int, y: int) -> bool {
        0 <= x < self.width && 0 <= y < self.height
    }
}

/// Reads pixel `i` of a byte buffer.
pub open spec fn decode_px(bytes: Seq<u8>, layout: PixelLayout, i: int) -> Rgba {
    let o = i * bpp(layout);
    match layout {
        PixelLayout::Rgb8 => Rgba { r: bytes[o], g: bytes[o + 1], b: bytes[o + 2], a: 255 },
        PixelLayout::Rgba8 => Rgba { r: bytes[o], g: bytes[o + 1], b: bytes[o + 2], a: bytes[o + 3] },
    }
}

/// A `width` x `height` bitmap whose pixels are stored row-major, `bpp` bytes each.
pub struct Image {
    width: u32,
    height: u32,
    layout: PixelLayout,
    pixels: Vec<u8>,
}

impl View for Image {
    type V = ImageView;

    closed spec fn view(&self) -> ImageView {
        ImageView {
            width: self.width as nat,
            height: self.height as nat,
            layout: self.layout,
            pixels: Seq::new(
                (self.width * self.height) as nat,
                |i: int| decode_px(self.pixels@, self.layout, i),
            ),
        }
    }
}

proof fn lemma_px_in_buffer(i: int, n: int, b: int)
    requires
        0 <= i < n,
        b > 0,
    ensures
        i * b + b <= n * b,
        0 <= i * b,
{
    assert(i * b + b <= n * b) by (nonlinear_arith)
        requires
            0 <= i < n,
            b > 0,
    ;
    assert(0 <= i * b) by (nonlinear_arith)
        requires
            0 <= i,
            b > 0,
    ;
}

proof fn lemma_px_separate(i: int, j: int, b: int)
    requires
        i != j,
        b > 0,
    ensures
        j * b + b <= i * b || i * b + b <= j * b,
{
    if i < j {
        assert(i * b + b <= j * b) by (nonlinear_arith)
            requires
                i < j,
                b > 0,
        ;
    } else {
        assert(j * b + b <= i * b) by (nonlinear_arith)
            requires
                j < i,
                b > 0,
        ;
    }
}

/// Row-major index of `(x, y)` and back.
pub proof fn lemma_coords(i: int, w: int, x: int, y: int)
    requires
        w > 0,
        0 <= x < w,
        0 <= y,
        0 <= i,
    ensures
        (i == y * w + x) <==> (i / w == y && i % w == x),
{
    if i == y * w + x {
        vstd::arithmetic::div_mod::lemma_fundamental_div_mod_converse(i, w, y, x);
    }
    if i / w == y && i % w == x {
        vstd::arithmetic::div_mod::lemma_fundamental_div_mod(i, w);
        assert(i == w * (i / w) + i % w);
        assert(w * y == y * w) by (nonlinear_arith);
    }
}

proof fn lemma_row_major_bound(w: int, h: int, x: int, y: int)
    requires
        0 <= x < w,
        0 <= y < h,
    ensures
        0 <= y * w + x < w * h,
{
    assert(0 <= y * w + x < w * h) by (nonlinear_arith)
        requires
            0 <= x < w,
            0 <= y < h,
    ;
}

/// Pixel `i` of `dst` once `src` is pasted with its top-left corner at
/// `(px, py)`: blended where a pixel of `src` lands on it, else unchanged.
pub open spec fn pasted_px(dst: ImageView, src: ImageView, px: int, py: int, i: int) -> Rgba {
    let x = i % (dst.width as int);
    let y = i / (dst.width as int);
    if src.in_bounds(x - px, y - py) {
        stored(dst.layout, blend(src.at(x - px, y - py), dst.pixels[i]))
    } else {
        dst.pixels[i]
    }
}

/// `src` pasted onto `dst` at `(px, py)`; pixels of `src` that land outside
/// `dst` are dropped.
pub open spec fn pasted(dst: ImageView, src: ImageView, px: int, py: int) -> ImageView {
    ImageView {
        pixels: Seq::new(dst.pixels.len(), |i: int| pasted_px(dst, src, px, py, i)),
        ..dst
    }
}

/// Every pixel remapped through the filter's tables.
pub open spec fn filtered_image(v: ImageView, f: FilterView) -> ImageView {
    ImageView {
        pixels: Seq::new(v.pixels.len(), |i: int| stored(v.layout, filtered(f, v.pixels[i]))),
        ..v
    }
}

/// The pixel that nearest-neighbour sampling reads at the integer point
/// `(sx, sy)`: the source pixel there, or transparent black outside the source.
pub open spec fn sample_at(src: ImageView, sx: int, sy: int) -> Rgba {
    if src.in_bounds(sx, sy) {
        src.at(sx, sy)
    } else {
        Rgba { r: 0, g: 0, b: 0, a: 0 }
    }
}

/// A `width` x `height` RGBA image whose pixel `i` is sampled from `src` at
/// `points[i]`.
pub open spec fn sampled(src: ImageView, width: nat, height: nat, points: Seq<(i64, i64)>) -> ImageView {
    ImageView {
        width,
        height,
        layout: PixelLayout::Rgba8,
        pixels: Seq::new(
            width * height,
            |i: int| sample_at(src, points[i].0 as int, points[i].1 as int),
        ),
    }
}

/// The sample points of the identity mapping: pixel `i` reads itself.
pub open spec fn identity_points(width: nat, height: nat) -> Seq<(i64, i64)> {
    Seq::new(width * height, |i: int| ((i % (width as int)) as i64, (i / (width as int)) as i64))
}

/// The region that cropping at `(x, y)` with size `(w, h)` keeps: the corner
/// is clamped into the image, the size to what remains right of and below it.
pub open spec fn crop_rect(v: ImageView, x: int, y: int, w: int, h: int) -> (int, int, int, int) {
    let cx = if x < v.width { x } else { v.width as int };
    let cy = if y < v.height { y } else { v.height as int };
    let cw = if w < v.width - cx { w } else { v.width - cx };
    let ch = if h < v.height - cy { h } else { v.height - cy };
    (cx, cy, cw, ch)
}

/// The sub-image of `crop_rect`.
pub open spec fn cropped(v: ImageView, x: int, y: int, w: int, h: int) -> ImageView {
    let (cx, cy, cw, ch) = crop_rect(v, x, y, w, h);
    ImageView {
        width: cw as nat,
        height: ch as nat,
        layout: v.layout,
        pixels: Seq::new((cw * ch) as nat, |i: int| v.at(cx + i % cw, cy + i / cw)),
    }
}

/// The canvas after pasting each `(image, x, y)` of `elements` in order.
pub open spec fn composited(canvas: ImageView, elements: Seq<(ImageView, int, int)>) -> ImageView
    decreases elements.len(),
{
    if elements.len() == 0 {
        canvas
    } else {
        let e = elements.last();
        pasted(composited(canvas, elements.drop_last()), e.0, e.1, e.2)
    }
}

/// Whether the paste loop has written pixel `i`: the rows `y0..y` of the
/// target rectangle, and the columns `x0..x` of row `y`.
spec fn paste_done(i: int, w: int, x0: int, x1: int, y0: int, y: int, x: int) -> bool {
    let (cx, cy) = (i % w, i / w);
    (y0 <= cy < y && x0 <= cx < x1) || (cy == y && x0 <= cx < x)
}

pub proof fn lemma_index_split(i: int, w: int, h: int)
    requires
        w > 0,
        0 <= i < w * h,
    ensures
        0 <= i % w < w,
        0 <= i / w < h,
        i == (i / w) * w + i % w,
{
    vstd::arithmetic::div_mod::lemma_fundamental_div_mod(i, w);
    let q = i / w;
    let r = i % w;
    assert(0 <= q < h) by (nonlinear_arith)
        requires
            i == w * q + r,
            0 <= r < w,
            0 <= i < w * h,
            w > 0,
    ;
    assert(w * q == q * w) by (nonlinear_arith);
}

/// Identity law of resampling: sampling every pixel at its own position
/// gives back the image's pixels and size.
pub proof fn lemma_identity_sampling(img: &Image)
    requires
        img.wf(),
    ensures
        sampled(img@, img@.width, img@.height, identity_points(img@.width, img@.height)).pixels
            == img@.pixels,
{
    let v = img@;
    let w = v.width as int;
    let h = v.height as int;
    let s = sampled(v, v.width, v.height, identity_points(v.width, v.height));
    assert forall|i: int| 0 <= i < w * h implies #[trigger] s.pixels[i] == v.pixels[i] by {
        lemma_index_split(i, w, h);
        lemma_coords(i, w, i % w, i / w);
    }
    assert(s.pixels =~= v.pixels);
}

/// Pasting a fully opaque source pixel stores exactly that pixel; pasting a
/// fully transparent one leaves the destination pixel as it was.
pub proof fn lemma_paste_opaque_and_clear(dst: &Image, src: &Image, px: int, py: int, x: int, y: int)
    requires
        dst.wf(),
        src.wf(),
        dst@.in_bounds(x, y),
        src@.in_bounds(x - px, y - py),
    ensures
        src@.at(x - px, y - py).a == 255 ==> pasted(dst@, src@, px, py).at(x, y) == stored(
            dst@.layout,
            src@.at(x - px, y - py),
        ),
        src@.at(x - px, y - py).a == 0 ==> pasted(dst@, src@, px, py).at(x, y) == dst@.at(x, y),
{
    let w = dst@.width as int;
    let i = y * w + x;
    lemma_row_major_bound(w, dst@.height as int, x, y);
    lemma_coords(i, w, x, y);
}

impl Image {
    /// The buffer holds exactly `width * height` pixels of the layout.
    pub closed spec fn wf(&self) -> bool {
        self.pixels@.len() == self.width * self.height * bpp(self.layout)
    }

    /// The stored bytes.
    pub closed spec fn bytes(&self) -> Seq<u8> {
        self.pixels@
    }

    /// The bytes of a buffer are the channels of its pixels, in order.
    pub open spec fn bytes_match(v: ImageView, bytes: Seq<u8>) -> bool {
        &&& bytes.len() == v.width * v.height * bpp(v.layout)
        &&& forall|i: int, c: int|
            0 <= i < v.width * v.height && 0 <= c < bpp(v.layout) ==> #[trigger] bytes[i * bpp(
                v.layout,
            ) + c] == channel(v.pixels[i], c)
    }

    /// The pixel count fits in the buffer, and so in `usize`.
    fn pixel_count(&self) -> (r: usize)
        requires
            self.wf(),
        ensures
            r == self.width * self.height,
            r * bpp(self.layout) == self.pixels@.len(),
            self.pixels@.len() <= usize::MAX,
    {
        let len = self.pixels.len();
        let ghost b = bpp(self.layout) as int;
        assert(self.width * self.height <= self.width * self.height * b) by (nonlinear_arith)
            requires
                b >= 1,
                self.width * self.height >= 0,
        ;
        (self.width as usize) * (self.height as usize)
    }

    /// A well-formed image has one pixel per position.
    pub proof fn lemma_pixel_count(&self)
        requires
            self.wf(),
        ensures
            self@.pixels.len() == self@.width * self@.height,
    {
    }

    proof fn lemma_view_len(&self)
        requires
            self.wf(),
        ensures
            self@.pixels.len() == self@.width * self@.height,
            self@.width == self.width,
            self@.height == self.height,
            self@.layout == self.layout,
    {
    }

    proof fn lemma_bytes_match(&self)
        requires
            self.wf(),
        ensures
            Self::bytes_match(self@, self.bytes()),
    {
        let b = bpp(self.layout) as int;
        assert forall|i: int, c: int|
            0 <= i < self@.width * self@.height && 0 <= c < b implies #[trigger] self.pixels@[i * b
            + c] == channel(self@.pixels[i], c) by {
            lemma_px_in_buffer(i, self.width * self.height, b);
        }
    }

    pub fn width(&self) -> (r: u32)
        ensures
            r == self@.width,
    {
        self.width
    }

    pub fn height(&self) -> (r: u32)
        ensures
            r == self@.height,
    {
        self.height
    }

    pub fn layout(&self) -> (r: PixelLayout)
        ensures
            r == self@.layout,
    {
        self.layout
    }

    /// Bytes per pixel: 4 for RGBA, 3 for RGB.
    pub fn pixel_size(&self) -> (r: usize)
        ensures
            r == bpp(self@.layout),
    {
        match self.layout {
            PixelLayout::Rgb8 => 3,
            PixelLayout::Rgba8 => 4,
        }
    }

    /// Name of the layout: `"RGBA"` or `"RGB"`.
    pub fn pixelformat(&self) -> (r: &'static str)
        ensures
            self@.layout == PixelLayout::Rgba8 ==> r@ == "RGBA"@,
            self@.layout == PixelLayout::Rgb8 ==> r@ == "RGB"@,
    {
        match self.layout {
            PixelLayout::Rgb8 => "RGB",
            PixelLayout::Rgba8 => "RGBA",
        }
    }

    /// The raw pixel bytes, row-major, `pixel_size()` bytes per pixel.
    pub fn as_bytes(&self) -> (r: &[u8])
        requires
            self.wf(),
        ensures
            r@ == self.bytes(),
            Self::bytes_match(self@, r@),
    {
        proof {
            self.lemma_bytes_match();
        }
        self.pixels.as_slice()
    }
}

/// Number of bytes that a `width` x `height` buffer of `layout` holds, if it fits.
pub fn buffer_len(width: u32, height: u32, layout: PixelLayout) -> (r: Option<usize>)
    ensures
        r matches Some(n) ==> n == width * height * bpp(layout),
        r is None ==> width * height * bpp(layout) > usize::MAX,
{
    let b: usize = match layout {
        PixelLayout::Rgb8 => 3,
        PixelLayout::Rgba8 => 4,
    };
    match (width as usize).checked_mul(height as usize) {
        Some(n) => n.checked_mul(b),
        None => {
            assert(width * height * b >= width * height) by (nonlinear_arith)
                requires
                    b >= 1,
                    width * height >= 0,
            ;
            None
        },
    }
}

impl Image {
    /// A fully transparent (all bytes zero) image.
    pub fn new(width: u32, height: u32, layout: PixelLayout) -> (r: Result<Image, RasterError>)
        ensures
            r is Err <==> width * height * bpp(layout) > usize::MAX,
            r matches Ok(img) ==> img.wf() && img@.width == width && img@.height == height
                && img@.layout == layout && forall|i: int|
                0 <= i < width * height ==> #[trigger] img@.pixels[i] == stored(
                    layout,
                    Rgba { r: 0, g: 0, b: 0, a: 0 },
                ),
    {
        match buffer_len(width, height, layout) {
            None => Err(RasterError::Validation),
            Some(n) => {
                let pixels: Vec<u8> = vec![0u8; n];
                let img = Image { width, height, layout, pixels };
                proof {
                    let b = bpp(layout) as int;
                    assert forall|i: int| 0 <= i < width * height implies #[trigger] img@.pixels[i]
                        == stored(layout, Rgba { r: 0, g: 0, b: 0, a: 0 }) by {
                        lemma_px_in_buffer(i, width * height, b);
                    }
                }
                Ok(img)
            },
        }
    }

    /// Wraps raw bytes as an image. Fails when fewer than `width * height *
    /// bpp(layout)` bytes are given; bytes beyond that are dropped.
    pub fn from_raw(bytes: Vec<u8>, width: u32, height: u32, layout: PixelLayout) -> (r: Result<
        Image,
        RasterError,
    >)
        ensures
            r is Err <==> bytes@.len() < width * height * bpp(layout),
            r matches Ok(img) ==> img.wf() && img@.width == width && img@.height == height
                && img@.layout == layout && img.bytes() == bytes@.take(
                (width * height * bpp(layout)) as int,
            ),
    {
        let len = bytes.len();
        match buffer_len(width, height, layout) {
            None => Err(RasterError::Validation),
            Some(n) => {
                if len < n {
                    Err(RasterError::Validation)
                } else {
                    let mut pixels = bytes;
                    pixels.truncate(n);
                    Ok(Image { width, height, layout, pixels })
                }
            },
        }
    }

    /// Wraps RGBA bytes, 4 per pixel.
    pub fn from_rgba(bytes: Vec<u8>, width: u32, height: u32) -> (r: Result<Image, RasterError>)
        ensures
            r is Err <==> bytes@.len() < width * height * 4,
            r matches Ok(img) ==> img.wf() && img@.width == width && img@.height == height
                && img@.layout == PixelLayout::Rgba8 && img.bytes() == bytes@.take(
                (width * height * 4) as int,
            ),
    {
        Self::from_raw(bytes, width, height, PixelLayout::Rgba8)
    }

    /// Wraps RGB bytes, 3 per pixel.
    pub fn from_rgb(bytes: Vec<u8>, width: u32, height: u32) -> (r: Result<Image, RasterError>)
        ensures
            r is Err <==> bytes@.len() < width * height * 3,
            r matches Ok(img) ==> img.wf() && img@.width == width && img@.height == height
                && img@.layout == PixelLayout::Rgb8 && img.bytes() == bytes@.take(
                (width * height * 3) as int,
            ),
    {
        Self::from_raw(bytes, width, height, PixelLayout::Rgb8)
    }

    /// Decodes an image file held in memory (PNG, or another format the
    /// decoder recognises). Fails with `Decode` when the bytes are not an
    /// image, or the decoded buffer does not hold exactly its pixels.
    pub fn open(data: &[u8]) -> (r: Result<Image, RasterError>)
        ensures
            r is Ok <==> (decoded(data@) matches Some(d) && d.3.len() == d.0 * d.1 * (if d.2 {
                4int
            } else {
                3int
            })),
            r is Err ==> r == Err::<Image, RasterError>(RasterError::Decode),
            r matches Ok(img) ==> img.wf() && decoded(data@) == Some(
                (
                    img@.width as u32,
                    img@.height as u32,
                    img@.layout == PixelLayout::Rgba8,
                    img.bytes(),
                ),
            ),
    {
        match decode_image(data) {
            None => Err(RasterError::Decode),
            Some((width, height, alpha, pixels)) => {
                let layout = if alpha {
                    PixelLayout::Rgba8
                } else {
                    PixelLayout::Rgb8
                };
                let len = pixels.len();
                match buffer_len(width, height, layout) {
                    Some(n) => {
                        if len == n {
                            Ok(Image { width, height, layout, pixels })
                        } else {
                            Err(RasterError::Decode)
                        }
                    },
                    None => Err(RasterError::Decode),
                }
            },
        }
    }

    /// The image as a PNG file. Fails with `Encode` when the encoder does.
    pub fn save_png_bytes(&self) -> (r: Result<Vec<u8>, RasterError>)
        requires
            self.wf(),
        ensures
            r matches Ok(v) ==> png_encoded(
                self@.width as u32,
                self@.height as u32,
                self@.layout == PixelLayout::Rgba8,
                self.bytes(),
            ) == Some(v@),
            r is Err <==> png_encoded(
                self@.width as u32,
                self@.height as u32,
                self@.layout == PixelLayout::Rgba8,
                self.bytes(),
            ) is None,
            r is Err ==> r == Err::<Vec<u8>, RasterError>(RasterError::Encode),
    {
        let alpha = match self.layout {
            PixelLayout::Rgb8 => false,
            PixelLayout::Rgba8 => true,
        };
        match encode_png(self.pixels.as_slice(), self.width, self.height, alpha) {
            Some(v) => Ok(v),
            None => Err(RasterError::Encode),
        }
    }

    /// A copy scaled with nearest-neighbour sampling to fit within `width` x
    /// `height`, keeping the aspect ratio and the layout. Fails with
    /// `Validation` when the scaler's output does not hold exactly its pixels.
    pub fn resize(&self, width: u32, height: u32) -> (r: Result<Image, RasterError>)
        requires
            self.wf(),
        ensures
            r is Ok <==> (resized_nearest(
                self@.width as u32,
                self@.height as u32,
                self@.layout == PixelLayout::Rgba8,
                self.bytes(),
                width,
                height,
            ) matches Some(t) && t.2.len() == t.0 * t.1 * bpp(self@.layout)),
            r matches Ok(img) ==> img.wf() && img@.layout == self@.layout && resized_nearest(
                self@.width as u32,
                self@.height as u32,
                self@.layout == PixelLayout::Rgba8,
                self.bytes(),
                width,
                height,
            ) == Some((img@.width as u32, img@.height as u32, img.bytes())),
            r is Err ==> r == Err::<Image, RasterError>(RasterError::Validation),
    {
        let alpha = match self.layout {
            PixelLayout::Rgb8 => false,
            PixelLayout::Rgba8 => true,
        };
        match resize_nearest(self.pixels.as_slice(), self.width, self.height, alpha, width, height) {
            None => Err(RasterError::Validation),
            Some((w, h, pixels)) => {
                let len = pixels.len();
                match buffer_len(w, h, self.layout) {
                    Some(n) => {
                        if len == n {
                            Ok(Image { width: w, height: h, layout: self.layout, pixels })
                        } else {
                            Err(RasterError::Validation)
                        }
                    },
                    None => Err(RasterError::Validation),
                }
            },
        }
    }

    /// A deep copy with its own buffer.
    pub fn clone(&self) -> (r: Image)
        requires
            self.wf(),
        ensures
            r.wf(),
            r@ == self@,
            r.bytes() == self.bytes(),
    {
        Image {
            width: self.width,
            height: self.height,
            layout: self.layout,
            pixels: self.pixels.clone(),
        }
    }

    fn read_px(&self, i: usize) -> (r: Rgba)
        requires
            self.wf(),
            i < self.width * self.height,
        ensures
            r == self@.pixels[i as int],
    {
        let b: usize = self.pixel_size();
        let _ = self.pixel_count();
        proof {
            lemma_px_in_buffer(i as int, self.width * self.height, b as int);
        }
        let o: usize = i * b;
        match self.layout {
            PixelLayout::Rgb8 => Rgba {
                r: self.pixels[o],
                g: self.pixels[o + 1],
                b: self.pixels[o + 2],
                a: 255,
            },
            PixelLayout::Rgba8 => Rgba {
                r: self.pixels[o],
                g: self.pixels[o + 1],
                b: self.pixels[o + 2],
                a: self.pixels[o + 3],
            },
        }
    }

    fn write_px(&mut self, i: usize, p: Rgba)
        requires
            old(self).wf(),
            i < old(self).width * old(self).height,
        ensures
            final(self).wf(),
            final(self).width == old(self).width,
            final(self).height == old(self).height,
            final(self).layout == old(self).layout,
            final(self)@.pixels == old(self)@.pixels.update(i as int, stored(old(self).layout, p)),
    {
        let b: usize = self.pixel_size();
        let ghost n = self.width * self.height;
        let ghost old_bytes = self.pixels@;
        let _ = self.pixel_count();
        proof {
            lemma_px_in_buffer(i as int, n, b as int);
        }
        let o: usize = i * b;
        self.pixels[o] = p.r;
        self.pixels[o + 1] = p.g;
        self.pixels[o + 2] = p.b;
        if b == 4 {
            self.pixels[o + 3] = p.a;
        }
        proof {
            assert forall|j: int| 0 <= j < n && j != i implies decode_px(
                self.pixels@,
                self.layout,
                j,
            ) == decode_px(old_bytes, self.layout, j) by {
                lemma_px_in_buffer(j, n, b as int);
                lemma_px_separate(i as int, j, b as int);
            }
            assert(self@.pixels =~= old(self)@.pixels.update(i as int, stored(self.layout, p)));
        }
    }

    /// The pixel at `(x, y)` as RGBA, or `None` outside the image.
    pub fn get_pixel(&self, x: u32, y: u32) -> (r: Option<Rgba>)
        requires
            self.wf(),
        ensures
            r is None <==> !self@.in_bounds(x as int, y as int),
            r matches Some(p) ==> p == self@.at(x as int, y as int),
    {
        if x >= self.width || y >= self.height {
            None
        } else {
            let _ = self.pixel_count();
            proof {
                lemma_row_major_bound(self.width as int, self.height as int, x as int, y as int);
            }
            let i: usize = (y as usize) * (self.width as usize) + (x as usize);
            Some(self.read_px(i))
        }
    }

    /// Overwrites the pixel at `(x, y)` with the `pixel_size()` channel bytes
    /// given. Fails, leaving the image as it was, when `(x, y)` is outside the
    /// image or the number of bytes is not the pixel size.
    pub fn put_pixel(&mut self, x: u32, y: u32, pixel: &[u8]) -> (r: Result<(), RasterError>)
        requires
            old(self).wf(),
        ensures
            final(self).wf(),
            r is Err <==> !old(self)@.in_bounds(x as int, y as int) || pixel@.len() != bpp(
                old(self)@.layout,
            ),
            r is Err ==> final(self)@ == old(self)@,
            r is Ok ==> final(self)@ == (ImageView {
                pixels: old(self)@.pixels.update(
                    y * old(self)@.width + x,
                    stored(
                        old(self)@.layout,
                        Rgba {
                            r: pixel@[0],
                            g: pixel@[1],
                            b: pixel@[2],
                            a: if pixel@.len() == 4 {
                                pixel@[3]
                            } else {
                                255
                            },
                        },
                    ),
                ),
                ..old(self)@
            }),
    {
        if x >= self.width || y >= self.height {
            return Err(RasterError::Validation);
        }
        if pixel.len() != self.pixel_size() {
            return Err(RasterError::Validation);
        }
        let _ = self.pixel_count();
        proof {
            lemma_row_major_bound(self.width as int, self.height as int, x as int, y as int);
        }
        let i: usize = (y as usize) * (self.width as usize) + (x as usize);
        let a: u8 = if pixel.len() == 4 {
            pixel[3]
        } else {
            255
        };
        let p = Rgba { r: pixel[0], g: pixel[1], b: pixel[2], a };
        self.write_px(i, p);
        Ok(())
    }

    /// Remaps R, G, B and, for RGBA images, A of every pixel through the
    /// filter's tables.
    pub fn apply_filter(&mut self, filter: &Filter)
        requires
            old(self).wf(),
            filter.wf(),
        ensures
            final(self).wf(),
            final(self)@ == filtered_image(old(self)@, filter@),
    {
        let ghost start = self@;
        let n: usize = self.pixel_count();
        proof {
            self.lemma_view_len();
        }
        let mut i: usize = 0;
        while i < n
            invariant
                self.wf(),
                filter.wf(),
                n == self.width * self.height,
                self@.width == start.width,
                self@.height == start.height,
                self@.layout == start.layout,
                start.pixels.len() == n,
                i <= n,
                forall|j: int|
                    0 <= j < n ==> #[trigger] self@.pixels[j] == if j < i {
                        stored(start.layout, filtered(filter@, start.pixels[j]))
                    } else {
                        start.pixels[j]
                    },
            decreases n - i,
        {
            let p = self.read_px(i);
            let q = filter.lookup(p);
            self.write_px(i, q);
            i = i + 1;
        }
        proof {
            assert(self@ =~= filtered_image(start, filter@));
        }
    }

    /// Nearest-neighbour resampling: a new `width` x `height` RGBA image whose
    /// pixel `i` (row-major) is this image's pixel at `points[i]`, or
    /// transparent where that point lies outside this image. Fails when
    /// `points` does not hold one point per pixel, or the size does not fit
    /// in memory.
    pub fn sample_nearest(&self, width: u32, height: u32, points: &Vec<(i64, i64)>) -> (r: Result<
        Image,
        RasterError,
    >)
        requires
            self.wf(),
        ensures
            r is Err <==> (points@.len() != width * height || width * height * 4 > usize::MAX),
            r matches Ok(img) ==> img.wf() && img@ == sampled(
                self@,
                width as nat,
                height as nat,
                points@,
            ),
    {
        let mut out = match Image::new(width, height, PixelLayout::Rgba8) {
            Ok(img) => img,
            Err(e) => {
                return Err(e);
            },
        };
        let n: usize = out.pixel_count();
        if points.len() != n {
            return Err(RasterError::Validation);
        }
        let _ = self.pixel_count();
        proof {
            out.lemma_view_len();
            self.lemma_view_len();
        }
        let sw: i64 = self.width as i64;
        let sh: i64 = self.height as i64;
        let mut i: usize = 0;
        while i < n
            invariant
                self.wf(),
                out.wf(),
                out@.width == width,
                out@.height == height,
                out@.layout == PixelLayout::Rgba8,
                n == width * height,
                points@.len() == n,
                sw == self@.width,
                sh == self@.height,
                self.width * self.height <= usize::MAX,
                i <= n,
                forall|j: int|
                    0 <= j < n ==> #[trigger] out@.pixels[j] == if j < i {
                        sample_at(self@, points@[j].0 as int, points@[j].1 as int)
                    } else {
                        Rgba { r: 0, g: 0, b: 0, a: 0 }
                    },
            decreases n - i,
        {
            let (sx, sy) = points[i];
            if 0 <= sx && sx < sw && 0 <= sy && sy < sh {
                proof {
                    lemma_row_major_bound(sw as int, sh as int, sx as int, sy as int);
                }
                let si: usize = (sy as usize) * (sw as usize) + (sx as usize);
                let p = self.read_px(si);
                out.write_px(i, p);
            }
            i = i + 1;
        }
        proof {
            assert(out@ =~= sampled(self@, width as nat, height as nat, points@));
        }
        Ok(out)
    }

    /// A copy of the region at `(x, y)` of size `width` x `height`, clamped
    /// to the image as `crop_rect` says.
    pub fn crop(&self, x: u32, y: u32, width: u32, height: u32) -> (r: Image)
        requires
            self.wf(),
        ensures
            r.wf(),
            r@ == cropped(self@, x as int, y as int, width as int, height as int),
    {
        let _ = self.pixel_count();
        proof {
            self.lemma_view_len();
        }
        let cx: u32 = if x < self.width {
            x
        } else {
            self.width
        };
        let cy: u32 = if y < self.height {
            y
        } else {
            self.height
        };
        let cw: u32 = if width < self.width - cx {
            width
        } else {
            self.width - cx
        };
        let ch: u32 = if height < self.height - cy {
            height
        } else {
            self.height - cy
        };
        assert(cw * ch <= self.width * self.height) by (nonlinear_arith)
            requires
                cw <= self.width,
                ch <= self.height,
        ;
        assert(cw * ch * bpp(self.layout) <= self.width * self.height * bpp(self.layout))
            by (nonlinear_arith)
            requires
                cw * ch <= self.width * self.height,
        ;
        let mut out = match Image::new(cw, ch, self.layout) {
            Ok(img) => img,
            Err(_) => {
                proof {
                    assert(false);
                }
                return self.clone();
            },
        };
        let n: usize = out.pixel_count();
        proof {
            out.lemma_view_len();
        }
        let ghost v = self@;
        if n > 0 {
            assert(cw > 0 && ch > 0) by (nonlinear_arith)
                requires
                    n == cw * ch,
                    n > 0,
            ;
        }
        let mut i: usize = 0;
        let mut ox: u32 = 0;
        let mut oy: u32 = 0;
        while i < n
            invariant
                self.wf(),
                self@ == v,
                out.wf(),
                out@.width == cw,
                out@.height == ch,
                out@.layout == v.layout,
                n == cw * ch,
                cx + cw <= v.width,
                cy + ch <= v.height,
                self.width * self.height <= usize::MAX,
                i <= n,
                i == oy * cw + ox,
                i < n ==> ox < cw && oy < ch,
                forall|j: int|
                    0 <= j < n ==> #[trigger] out@.pixels[j] == if j < i {
                        v.at(cx + j % (cw as int), cy + j / (cw as int))
                    } else {
                        stored(v.layout, Rgba { r: 0, g: 0, b: 0, a: 0 })
                    },
            decreases n - i,
        {
            proof {
                lemma_row_major_bound(
                    v.width as int,
                    v.height as int,
                    (cx + ox) as int,
                    (cy + oy) as int,
                );
                lemma_coords(i as int, cw as int, ox as int, oy as int);
            }
            let si: usize = ((cy + oy) as usize) * (self.width as usize) + ((cx + ox) as usize);
            let p = self.read_px(si);
            out.write_px(i, p);
            proof {
                assert(stored(v.layout, p) == p);
            }
            i = i + 1;
            if ox + 1 < cw {
                ox = ox + 1;
            } else {
                assert(i == (oy + 1) * cw) by (nonlinear_arith)
                    requires
                        i == oy * cw + ox + 1,
                        ox + 1 == cw,
                ;
                ox = 0;
                oy = oy + 1;
                proof {
                    if i < n {
                        assert(oy < ch) by (nonlinear_arith)
                            requires
                                i == oy * cw + ox,
                                i < n,
                                n == cw * ch,
                                ox == 0,
                        ;
                    }
                }
            }
        }
        proof {
            assert(out@ =~= cropped(v, x as int, y as int, width as int, height as int));
        }
        out
    }

    /// Pastes each `(image, x, y)` of `elements`, in order, onto `canvas`.
    pub fn composite(canvas: Image, elements: Vec<(Image, i64, i64)>) -> (r: Image)
        requires
            canvas.wf(),
            forall|i: int| 0 <= i < elements@.len() ==> (#[trigger] elements@[i]).0.wf(),
        ensures
            r.wf(),
            r@ == composited(
                canvas@,
                elements@.map_values(|e: (Image, i64, i64)| (e.0@, e.1 as int, e.2 as int)),
            ),
    {
        let ghost all = elements@.map_values(
            |e: (Image, i64, i64)| (e.0@, e.1 as int, e.2 as int),
        );
        let mut out = canvas;
        let mut rest = elements;
        let ghost k: int = 0;
        while rest.len() > 0
            invariant
                out.wf(),
                0 <= k <= all.len(),
                rest@.len() == all.len() - k,
                forall|i: int| 0 <= i < rest@.len() ==> (#[trigger] rest@[i]).0.wf(),
                forall|i: int|
                    0 <= i < rest@.len() ==> all[k + i] == ((#[trigger] rest@[i]).0@, rest@[i].1 as int, rest@[i].2 as int),
                out@ == composited(canvas@, all.take(k)),
            decreases rest@.len(),
        {
            let (img, x, y) = rest.remove(0);
            proof {
                assert(all.take(k + 1).drop_last() =~= all.take(k));
                assert(all.take(k + 1).last() == all[k]);
            }
            out.paste(img, x, y);
            proof {
                k = k + 1;
            }
        }
        proof {
            assert(all.take(k) =~= all);
        }
        out
    }

    /// Alpha-composites `other` over this image with its top-left corner at
    /// the signed offset `(px, py)`. Pixels of `other` that fall outside this
    /// image are clipped.
    pub fn paste(&mut self, other: Image, px: i64, py: i64)
        requires
            old(self).wf(),
            other.wf(),
        ensures
            final(self).wf(),
            final(self)@ == pasted(old(self)@, other@, px as int, py as int),
    {
        let ghost dst = self@;
        let ghost src = other@;
        let n: usize = self.pixel_count();
        let on: usize = other.pixel_count();
        let w: i64 = self.width as i64;
        let h: i64 = self.height as i64;
        let ow: i64 = other.width as i64;
        let oh: i64 = other.height as i64;
        proof {
            self.lemma_view_len();
            other.lemma_view_len();
        }
        if px >= w || py >= h || w == 0 {
            proof {
                assert forall|j: int| 0 <= j < n implies #[trigger] self@.pixels[j] == pasted_px(
                    dst, src, px as int, py as int, j) by {
                    if w > 0 {
                        lemma_index_split(j, w as int, h as int);
                    } else {
                        assert(false) by (nonlinear_arith)
                            requires
                                w == 0,
                                n == w * h,
                                0 <= j < n,
                        ;
                    }
                }
                assert(self@ =~= pasted(dst, src, px as int, py as int));
            }
            return;
        }
        let x0: i64 = if px > 0 {
            px
        } else {
            0
        };
        let y0: i64 = if py > 0 {
            py
        } else {
            0
        };
        let x1: i64 = if px + ow < w {
            px + ow
        } else {
            w
        };
        let y1: i64 = if py + oh < h {
            py + oh
        } else {
            h
        };
        if x0 >= x1 || y0 >= y1 {
            proof {
                assert forall|j: int| 0 <= j < n implies #[trigger] self@.pixels[j] == pasted_px(
                    dst, src, px as int, py as int, j) by {
                    lemma_index_split(j, w as int, h as int);
                }
                assert(self@ =~= pasted(dst, src, px as int, py as int));
            }
            return;
        }
        let mut y: i64 = y0;
        while y < y1
            invariant
                self.wf(),
                self.width == dst.width,
                self.height == dst.height,
                self.layout == dst.layout,
                other.wf(),
                other@ == src,
                n == w * h,
                on == ow * oh,
                w == dst.width,
                h == dst.height,
                ow == src.width,
                oh == src.height,
                w > 0,
                0 <= x0 && 0 <= y0,
                x0 < x1 <= w,
                y0 < y1 <= h,
                x1 == if px + ow < w { px + ow } else { w as int },
                x0 == if px > 0 { px } else { 0 },
                y1 == if py + oh < h { py + oh } else { h as int },
                y0 == if py > 0 { py } else { 0 },
                y0 <= y,
                y <= y1,
                forall|i: int|
                    0 <= i < n ==> #[trigger] self@.pixels[i] == if paste_done(
                        i,
                        w as int,
                        x0 as int,
                        x1 as int,
                        y0 as int,
                        y as int,
                        x0 as int,
                    ) {
                        pasted_px(dst, src, px as int, py as int, i)
                    } else {
                        dst.pixels[i]
                    },
            decreases y1 - y,
        {
            let mut x: i64 = x0;
            while x < x1
                invariant
                    self.wf(),
                    self.width == dst.width,
                    self.height == dst.height,
                    self.layout == dst.layout,
                    other.wf(),
                    other@ == src,
                    n == w * h,
                    on == ow * oh,
                    w == dst.width,
                    h == dst.height,
                    ow == src.width,
                    oh == src.height,
                    w > 0,
                    0 <= x0 && 0 <= y0,
                    x0 < x1 <= w,
                    x1 == if px + ow < w { px + ow } else { w as int },
                    x0 == if px > 0 { px } else { 0 },
                    y1 == if py + oh < h { py + oh } else { h as int },
                    y0 == if py > 0 { py } else { 0 },
                    y0 <= y < y1,
                    y1 <= h,
                    x0 <= x,
                    x <= x1,
                    forall|i: int|
                        0 <= i < n ==> #[trigger] self@.pixels[i] == if paste_done(
                            i,
                            w as int,
                            x0 as int,
                            x1 as int,
                            y0 as int,
                            y as int,
                            x as int,
                        ) {
                            pasted_px(dst, src, px as int, py as int, i)
                        } else {
                            dst.pixels[i]
                        },
                decreases x1 - x,
            {
                proof {
                    lemma_row_major_bound(w as int, h as int, x as int, y as int);
                    lemma_row_major_bound(
                        ow as int,
                        oh as int,
                        (x - px) as int,
                        (y - py) as int,
                    );
                }
                let i: usize = (y as usize) * (w as usize) + (x as usize);
                let si: usize = ((y - py) as usize) * (ow as usize) + ((x - px) as usize);
                let ghost prev = self@;
                proof {
                    lemma_coords(i as int, w as int, x as int, y as int);
                }
                let s = other.read_px(si);
                let d = self.read_px(i);
                let p = blend_pixel(s, d);
                self.write_px(i, p);
                proof {
                    assert forall|j: int| 0 <= j < n implies #[trigger] self@.pixels[j] == if paste_done(
                        j,
                        w as int,
                        x0 as int,
                        x1 as int,
                        y0 as int,
                        y as int,
                        x + 1,
                    ) {
                        pasted_px(dst, src, px as int, py as int, j)
                    } else {
                        dst.pixels[j]
                    } by {
                        lemma_coords(j, w as int, x as int, y as int);
                        if j == i {
                            assert(prev.pixels[j] == dst.pixels[j]);
                        } else {
                            assert(self@.pixels[j] == prev.pixels[j]);
                        }
                    }
                }
                x = x + 1;
            }
            proof {
                assert forall|j: int| 0 <= j < n implies #[trigger] self@.pixels[j] == if paste_done(
                    j,
                    w as int,
                    x0 as int,
                    x1 as int,
                    y0 as int,
                    y + 1,
                    x0 as int,
                ) {
                    pasted_px(dst, src, px as int, py as int, j)
                } else {
                    dst.pixels[j]
                } by {
                    assert(paste_done(j, w as int, x0 as int, x1 as int, y0 as int, y as int, x as int)
                        == paste_done(j, w as int, x0 as int, x1 as int, y0 as int, y + 1, x0 as int));
                }
            }
            y = y + 1;
        }
        proof {
            assert forall|j: int| 0 <= j < n implies #[trigger] self@.pixels[j] == pasted_px(
                dst,
                src,
                px as int,
                py as int,
                j,
            ) by {
                lemma_index_split(j, w as int, h as int);
            }
            assert(self@ =~= pasted(dst, src, px as int, py as int));
        }
    }
}

} // verus!
