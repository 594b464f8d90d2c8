//! Decoding and encoding of image files, done by the `image` crate.
use vstd::prelude::*;

verus! {

/// What decoding `data` gives: `(width, height, has_alpha, pixel bytes)`
/// with 8-bit channels, or `None` when the bytes are not a readable image.
pub uninterp spec fn decoded(data: Seq<u8>) -> Option<(u32, u32, bool, Seq<u8>)>;

/// The PNG file that encodes a `width` x `height` buffer of 8-bit RGB
/// (`has_alpha` false) or RGBA pixels, or `None` when encoding fails.
pub uninterp spec fn png_encoded(width: u32, height: u32, has_alpha: bool, pixels: Seq<u8>) -> Option<Seq<u8>>;

/// What resizing a `width` x `height` buffer of 8-bit RGB (`has_alpha`
/// false) or RGBA pixels to fit within `nwidth` x `nheight`, keeping its
/// aspect ratio, with nearest-neighbour filtering gives: `(width, height,
/// pixel bytes)`; `None` when the buffer is too short for its size.
pub uninterp spec fn resized_nearest(
    width: u32,
    height: u32,
    has_alpha: bool,
    pixels: Seq<u8>,
    nwidth: u32,
    nheight: u32,
) -> Option<(u32, u32, Seq<u8>)>;

/// Relies on image::load_from_memory, which guesses the format from the
/// leading bytes and decodes them. 8-bit RGB and RGBA results are kept as
/// they are; any other colour type is converted with
/// DynamicImage::into_rgba8.
#[verifier::external_body]
pub(crate) fn decode_image(data: &[u8]) -> (r: Option<(u32, u32, bool, Vec<u8>)>)
    ensures
        r matches Some(t) ==> decoded(data@) == Some((t.0, t.1, t.2, t.3@)),
        r is None ==> decoded(data@) is None,
{
    match image::load_from_memory(data) {
        Ok(image::DynamicImage::ImageRgb8(b)) => Some((b.width(), b.height(), false, b.into_raw())),
        Ok(image::DynamicImage::ImageRgba8(b)) => Some((b.width(), b.height(), true, b.into_raw())),
        Ok(other) => {
            let b = other.into_rgba8();
            Some((b.width(), b.height(), true, b.into_raw()))
        },
        Err(_) => None,
    }
}

/// Relies on image::write_buffer_with_format, writing PNG into an in-memory
/// cursor; its error becomes `None`.
#[verifier::external_body]
pub(crate) fn encode_png(pixels: &[u8], width: u32, height: u32, has_alpha: bool) -> (r: Option<
    Vec<u8>,
>)
    requires
        pixels@.len() == width * height * (if has_alpha {
            4int
        } else {
            3int
        }),
    ensures
        r matches Some(v) ==> png_encoded(width, height, has_alpha, pixels@) == Some(v@),
        r is None ==> png_encoded(width, height, has_alpha, pixels@) is None,
{
    let color = if has_alpha {
        image::ColorType::Rgba8
    } else {
        image::ColorType::Rgb8
    };
    let mut out = std::io::Cursor::new(Vec::new());
    match image::write_buffer_with_format(&mut out, pixels, width, height, color, image::ImageFormat::Png) {
        Ok(()) => Some(out.into_inner()),
        Err(_) => None,
    }
}

/// Relies on ImageBuffer::from_raw, to wrap the bytes, and on
/// DynamicImage::resize with FilterType::Nearest, which keeps the aspect
/// ratio and the colour type.
#[verifier::external_body]
pub(crate) fn resize_nearest(
    pixels: &[u8],
    width: u32,
    height: u32,
    has_alpha: bool,
    nwidth: u32,
    nheight: u32,
) -> (r: Option<(u32, u32, Vec<u8>)>)
    ensures
        r matches Some(t) ==> resized_nearest(width, height, has_alpha, pixels@, nwidth, nheight)
            == Some((t.0, t.1, t.2@)),
        r is None ==> resized_nearest(width, height, has_alpha, pixels@, nwidth, nheight) is None,
{
    let img = if has_alpha {
        image::RgbaImage::from_raw(width, height, pixels.to_vec()).map(image::DynamicImage::ImageRgba8)
    } else {
        image::RgbImage::from_raw(width, height, pixels.to_vec()).map(image::DynamicImage::ImageRgb8)
    };
    img.map(|i| i.resize(nwidth, nheight, image::imageops::FilterType::Nearest)).map(
        |o| (o.width(), o.height(), o.into_bytes()),
    )
}

} // verus!
