use anim_raster::filter::Filter;
use anim_raster::image::Image;
use anim_raster::pixel::{blend_pixel, PixelLayout, Rgba};
use anim_raster::RasterError;

fn rgba(r: u8, g: u8, b: u8, a: u8) -> Rgba {
    Rgba { r, g, b, a }
}

fn solid(w: u32, h: u32, p: [u8; 4]) -> Image {
    let mut bytes = Vec::new();
    for _ in 0..(w * h) {
        bytes.extend_from_slice(&p);
    }
    Image::from_rgba(bytes, w, h).unwrap()
}

#[test]
fn golden_paste_overlap() {
    let mut canvas = Image::new(4, 4, PixelLayout::Rgba8).unwrap();
    canvas.paste(solid(2, 2, [255, 0, 0, 128]), 0, 0);
    canvas.paste(solid(2, 2, [0, 0, 255, 255]), 1, 1);
    assert_eq!(canvas.get_pixel(1, 1), Some(rgba(0, 0, 255, 255)));
    assert_eq!(canvas.get_pixel(0, 0), Some(rgba(255, 0, 0, 128)));
    assert_eq!(canvas.get_pixel(1, 0), Some(rgba(255, 0, 0, 128)));
    assert_eq!(canvas.get_pixel(0, 1), Some(rgba(255, 0, 0, 128)));
    assert_eq!(canvas.get_pixel(2, 2), Some(rgba(0, 0, 255, 255)));
    assert_eq!(canvas.get_pixel(3, 3), Some(rgba(0, 0, 0, 0)));
    assert_eq!(canvas.get_pixel(3, 0), Some(rgba(0, 0, 0, 0)));
}

#[test]
fn paste_opaque_and_clear_sources() {
    let mut canvas = solid(3, 3, [10, 20, 30, 40]);
    canvas.paste(solid(1, 1, [1, 2, 3, 255]), 1, 1);
    canvas.paste(solid(1, 1, [9, 9, 9, 0]), 0, 0);
    assert_eq!(canvas.get_pixel(1, 1), Some(rgba(1, 2, 3, 255)));
    assert_eq!(canvas.get_pixel(0, 0), Some(rgba(10, 20, 30, 40)));
}

#[test]
fn paste_partial_alpha_exact() {
    let mut canvas = solid(1, 1, [0, 0, 255, 255]);
    canvas.paste(solid(1, 1, [255, 0, 0, 128]), 0, 0);
    assert_eq!(canvas.get_pixel(0, 0), Some(rgba(128, 0, 127, 255)));
    assert_eq!(blend_pixel(rgba(10, 200, 30, 64), rgba(100, 50, 250, 200)), rgba(73, 95, 184, 214));
}

#[test]
fn paste_clips_negative_and_far_offsets() {
    let mut canvas = Image::new(2, 2, PixelLayout::Rgba8).unwrap();
    canvas.paste(solid(2, 2, [5, 6, 7, 255]), -1, -1);
    assert_eq!(canvas.get_pixel(0, 0), Some(rgba(5, 6, 7, 255)));
    assert_eq!(canvas.get_pixel(1, 0), Some(rgba(0, 0, 0, 0)));
    canvas.paste(solid(2, 2, [1, 1, 1, 255]), 5, 5);
    canvas.paste(solid(2, 2, [1, 1, 1, 255]), i64::MIN, i64::MAX);
    assert_eq!(canvas.get_pixel(1, 1), Some(rgba(0, 0, 0, 0)));
}

#[test]
fn paste_onto_rgb_drops_alpha() {
    let mut canvas = Image::from_rgb(vec![0, 0, 0], 1, 1).unwrap();
    canvas.paste(solid(1, 1, [255, 0, 0, 128]), 0, 0);
    assert_eq!(canvas.as_bytes(), &[128u8, 0, 0][..]);
    assert_eq!(canvas.get_pixel(0, 0), Some(rgba(128, 0, 0, 255)));
}

#[test]
fn composite_pastes_in_order() {
    let canvas = Image::new(2, 1, PixelLayout::Rgba8).unwrap();
    let out = Image::composite(
        canvas,
        vec![(solid(1, 1, [1, 1, 1, 255]), 0, 0), (solid(2, 1, [2, 2, 2, 255]), 1, 0)],
    );
    assert_eq!(out.as_bytes(), &[1u8, 1, 1, 255, 2, 2, 2, 255][..]);
}

#[test]
fn identity_sampling_reproduces_image() {
    let bytes: Vec<u8> = (0..(3 * 2 * 4)).map(|v| v as u8).collect();
    let img = Image::from_rgba(bytes.clone(), 3, 2).unwrap();
    let mut points = Vec::new();
    for y in 0..2i64 {
        for x in 0..3i64 {
            points.push((x, y));
        }
    }
    let out = img.sample_nearest(3, 2, &points).unwrap();
    assert_eq!(out.as_bytes(), &bytes[..]);
}

#[test]
fn sampling_outside_is_transparent() {
    let img = solid(1, 1, [9, 8, 7, 6]);
    let out = img.sample_nearest(2, 1, &vec![(0, 0), (-1, 0)]).unwrap();
    assert_eq!(out.as_bytes(), &[9u8, 8, 7, 6, 0, 0, 0, 0][..]);
    assert_eq!(img.sample_nearest(2, 2, &vec![(0, 0)]).err(), Some(RasterError::Validation));
}

#[test]
fn from_raw_validates_length() {
    assert_eq!(Image::from_rgba(vec![0; 7], 2, 1).err(), Some(RasterError::Validation));
    assert_eq!(Image::from_rgb(vec![0; 5], 2, 1).err(), Some(RasterError::Validation));
    let img = Image::from_rgb(vec![1, 2, 3, 4, 5, 6, 7], 2, 1).unwrap();
    assert_eq!(img.as_bytes(), &[1u8, 2, 3, 4, 5, 6][..]);
    assert_eq!(img.pixel_size(), 3);
    assert_eq!(img.pixelformat(), "RGB");
    assert_eq!(solid(1, 1, [0, 0, 0, 0]).pixelformat(), "RGBA");
}

#[test]
fn get_and_put_pixel_bounds() {
    let mut img = Image::new(2, 2, PixelLayout::Rgba8).unwrap();
    assert_eq!(img.get_pixel(2, 0), None);
    assert_eq!(img.put_pixel(0, 2, &[1, 2, 3, 4]), Err(RasterError::Validation));
    assert_eq!(img.put_pixel(0, 0, &[1, 2, 3]), Err(RasterError::Validation));
    assert_eq!(img.put_pixel(1, 1, &[1, 2, 3, 4]), Ok(()));
    assert_eq!(img.get_pixel(1, 1), Some(rgba(1, 2, 3, 4)));
}

#[test]
fn clone_is_independent() {
    let a = solid(1, 1, [1, 2, 3, 4]);
    let mut b = a.clone();
    b.put_pixel(0, 0, &[9, 9, 9, 9]).unwrap();
    assert_eq!(a.get_pixel(0, 0), Some(rgba(1, 2, 3, 4)));
}

#[test]
fn crop_clamps_to_image() {
    let bytes: Vec<u8> = (0..(3 * 3 * 4)).map(|v| v as u8).collect();
    let img = Image::from_rgba(bytes, 3, 3).unwrap();
    let c = img.crop(1, 1, 5, 1);
    assert_eq!((c.width(), c.height()), (2, 1));
    assert_eq!(c.as_bytes(), &[16u8, 17, 18, 19, 20, 21, 22, 23][..]);
    let e = img.crop(7, 0, 1, 1);
    assert_eq!((e.width(), e.height()), (0, 1));
}

#[test]
fn filter_remaps_channels() {
    let f = Filter::build(
        |i: u32| -> Result<u8, ()> { Ok(255 - i as u8) },
        |i: u32| -> Result<u8, ()> { Ok(i as u8) },
        |_i: u32| -> Result<u8, ()> { Ok(7) },
        |i: u32| -> Result<u8, ()> { Ok((i / 2) as u8) },
    )
    .unwrap();
    let mut img = solid(1, 1, [10, 20, 30, 200]);
    img.apply_filter(&f);
    assert_eq!(img.get_pixel(0, 0), Some(rgba(245, 20, 7, 100)));
    let mut rgb = Image::from_rgb(vec![10, 20, 30], 1, 1).unwrap();
    rgb.apply_filter(&f);
    assert_eq!(rgb.as_bytes(), &[245u8, 20, 7][..]);
}

#[test]
fn filter_build_reports_error() {
    let r = Filter::build(
        |i: u32| -> Result<u8, u32> { Ok(i as u8) },
        |i: u32| -> Result<u8, u32> { if i == 3 { Err(i) } else { Ok(0) } },
        |i: u32| -> Result<u8, u32> { Ok(i as u8) },
        |i: u32| -> Result<u8, u32> { Ok(i as u8) },
    );
    assert_eq!(r.err(), Some(3));
}

#[test]
fn png_round_trip() {
    let img = solid(2, 3, [1, 2, 3, 4]);
    let png = img.save_png_bytes().unwrap();
    assert_eq!(&png[1..4], b"PNG");
    let back = Image::open(&png).unwrap();
    assert_eq!((back.width(), back.height(), back.layout()), (2, 3, PixelLayout::Rgba8));
    assert_eq!(back.as_bytes(), img.as_bytes());
    assert_eq!(Image::open(&[1, 2, 3]).err(), Some(RasterError::Decode));
}

#[test]
fn resize_keeps_aspect_ratio() {
    let img = solid(4, 2, [1, 2, 3, 4]);
    let out = img.resize(2, 2).unwrap();
    assert_eq!((out.width(), out.height(), out.layout()), (2, 1, PixelLayout::Rgba8));
    assert_eq!(out.as_bytes(), &[1u8, 2, 3, 4, 1, 2, 3, 4][..]);
    let rgb = Image::from_rgb(vec![5; 12], 2, 2).unwrap();
    let big = rgb.resize(4, 4).unwrap();
    assert_eq!((big.width(), big.height(), big.layout()), (4, 4, PixelLayout::Rgb8));
}

#[test]
fn empty_and_oversized_images() {
    assert_eq!(Image::new(u32::MAX, u32::MAX, PixelLayout::Rgba8).err(), Some(RasterError::Validation));
    let mut empty = Image::new(0, 3, PixelLayout::Rgba8).unwrap();
    empty.paste(solid(1, 1, [1, 1, 1, 255]), 0, 0);
    assert_eq!(empty.as_bytes().len(), 0);
    let out = solid(1, 1, [1, 2, 3, 4]).sample_nearest(0, 0, &vec![]).unwrap();
    assert_eq!((out.width(), out.height()), (0, 0));
    let mut canvas = solid(1, 1, [1, 2, 3, 4]);
    canvas.paste(Image::new(0, 0, PixelLayout::Rgba8).unwrap(), 0, 0);
    assert_eq!(canvas.get_pixel(0, 0), Some(rgba(1, 2, 3, 4)));
}
