//! Trusted boundary to the raster crates: pixel buffers, PNG decoding,
//! overlay compositing and rectangle fills.
//!
//! A pixel buffer is modelled as a mapping from coordinates to colors
//! (`raster_pixels`) together with its dimensions; the names below are the
//! only facts Verus has about it, each stated from the raster crates'
//! sources. Alpha compositing of one translucent pixel over another is kept
//! abstract as `blend_of`; its two exact cases (fully opaque, fully
//! transparent) are the ones the compositor's proofs rely on, and both are
//! explicit in the blending source.

use vstd::prelude::*;
use crate::layout::Color;
use crate::error::PrintError;

verus! {

/// An RGBA pixel buffer of the raster crate, held opaquely: Verus sees a
/// `Raster` only through the names and wrappers below.
#[verifier::external_body]
pub struct Raster {
    inner: image::RgbaImage,
}

/// What a pixel buffer holds: the color at each in-bounds coordinate.
pub uninterp spec fn raster_pixels(img: Raster) -> Map<(int, int), Color>;

/// The pixel width of a buffer.
pub uninterp spec fn raster_width(img: Raster) -> u32;

/// The pixel height of a buffer.
pub uninterp spec fn raster_height(img: Raster) -> u32;

/// What alpha compositing one pixel over another yields.
pub uninterp spec fn blend_of(under: Color, over: Color) -> Color;

/// What decoding a PNG byte stream yields: whether it decodes at all, and
/// if so its dimensions and pixels. A function of the bytes alone.
pub struct PngData {
    pub ok: bool,
    pub width: u32,
    pub height: u32,
    pub pixels: Map<(int, int), Color>,
}

pub uninterp spec fn png_of(bytes: Seq<u8>) -> PngData;

/// What flattening a pixel mapping of the given dimensions to opaque
/// 8-bit-per-channel bytes yields. A function of dimensions and pixels alone.
pub uninterp spec fn rgb_flat_of(width: u32, height: u32, pixels: Map<(int, int), Color>) -> Seq<u8>;

/// The coordinate grid of a `width` × `height` buffer.
pub open spec fn grid_dom(width: int, height: int) -> Set<(int, int)> {
    Set::new(|p: (int, int)| 0 <= p.0 < width && 0 <= p.1 < height)
}

/// A buffer of the given dimensions filled with one color.
pub open spec fn fill_map(width: int, height: int, c: Color) -> Map<(int, int), Color> {
    Map::new(|p: (int, int)| 0 <= p.0 < width && 0 <= p.1 < height, |p: (int, int)| c)
}

/// One pixel drawn over another: the blend, with its two exact cases.
pub open spec fn blended(under: Color, over: Color) -> Color {
    if over.a == 255 {
        over
    } else if over.a == 0 {
        under
    } else {
        blend_of(under, over)
    }
}

/// A base buffer with a top buffer of dimensions `tw` × `th` composited
/// over it at offset `(x, y)`, the top lying fully inside the base.
pub open spec fn overlay_map(
    base: Map<(int, int), Color>,
    top: Map<(int, int), Color>,
    tw: int,
    th: int,
    x: int,
    y: int,
) -> Map<(int, int), Color> {
    Map::new(
        |p: (int, int)| base.dom().contains(p),
        |p: (int, int)|
            if x <= p.0 < x + tw && y <= p.1 < y + th {
                blended(base[p], top[(p.0 - x, p.1 - y)])
            } else {
                base[p]
            },
    )
}

/// A buffer with the rectangle at `(x, y)` of size `w` × `h` set to `c`.
pub open spec fn fill_rect_map(
    base: Map<(int, int), Color>,
    x: int,
    y: int,
    w: int,
    h: int,
    c: Color,
) -> Map<(int, int), Color> {
    Map::new(
        |p: (int, int)| base.dom().contains(p),
        |p: (int, int)|
            if x <= p.0 < x + w && y <= p.1 < y + h {
                c
            } else {
                base[p]
            },
    )
}

/// Relies on `image::ImageBuffer::from_pixel`: a `width` × `height` buffer
/// with every pixel set to the given value. Panics only when the buffer
/// byte length overflows `usize`, which the precondition rules out.
#[verifier::external_body]
pub fn img_filled(width: u32, height: u32, c: Color) -> (r: Raster)
    requires
        1 <= width,
        1 <= height,
        width * height * 4 <= usize::MAX,
    ensures
        raster_width(r) == width,
        raster_height(r) == height,
        raster_pixels(r) == fill_map(width as int, height as int, c),
{
    Raster { inner: image::RgbaImage::from_pixel(width, height, image::Rgba([c.r, c.g, c.b, c.a])) }
}

/// Relies on `image::ImageBuffer::dimensions`: the buffer's width and height.
#[verifier::external_body]
pub fn img_dims(img: &Raster) -> (r: (u32, u32))
    ensures
        r.0 == raster_width(*img),
        r.1 == raster_height(*img),
{
    img.inner.dimensions()
}

/// Relies on `image::imageops::overlay`: every pixel of `top` is alpha
/// composited (`Rgba::blend`) onto the base pixel under it; a fully opaque
/// top pixel replaces the base pixel and a fully transparent one leaves it.
/// The precondition keeps `top` inside `base`, so nothing is cropped.
#[verifier::external_body]
pub fn img_overlay(base: &mut Raster, top: &Raster, x: i64, y: i64)
    requires
        0 <= x,
        0 <= y,
        x + raster_width(*top) <= raster_width(*old(base)),
        y + raster_height(*top) <= raster_height(*old(base)),
    ensures
        raster_width(*final(base)) == raster_width(*old(base)),
        raster_height(*final(base)) == raster_height(*old(base)),
        raster_pixels(*final(base)) == overlay_map(
            raster_pixels(*old(base)),
            raster_pixels(*top),
            raster_width(*top) as int,
            raster_height(*top) as int,
            x as int,
            y as int,
        ),
        forall|p: (int, int)|
            raster_pixels(*old(base)).dom().contains(p)
            && x <= p.0 < x + raster_width(*top)
            && y <= p.1 < y + raster_height(*top)
            && 0 < raster_pixels(*top)[(p.0 - x, p.1 - y)].a < 255
            ==> raster_pixels(*final(base))[p]
                == blend_of(raster_pixels(*old(base))[p], raster_pixels(*top)[(p.0 - x, p.1 - y)]),
{
    image::imageops::overlay(&mut base.inner, &top.inner, x, y)
}

/// Relies on `imageproc::drawing::draw_filled_rect_mut` with the canvas
/// implementation for images, which overwrites pixels: every pixel in the
/// rectangle is set to the color, every other pixel is untouched. The
/// precondition keeps the rectangle inside the buffer and its coordinates
/// inside `i32`, so the crate's intersection arithmetic cannot overflow and
/// `of_size` cannot be handed a zero side.
#[verifier::external_body]
pub fn img_draw_rect(img: &mut Raster, x: i32, y: i32, w: u32, h: u32, c: Color)
    requires
        0 <= x,
        0 <= y,
        1 <= w,
        1 <= h,
        x + w <= raster_width(*old(img)),
        y + h <= raster_height(*old(img)),
        raster_width(*old(img)) <= i32::MAX,
        raster_height(*old(img)) <= i32::MAX,
    ensures
        raster_width(*final(img)) == raster_width(*old(img)),
        raster_height(*final(img)) == raster_height(*old(img)),
        raster_pixels(*final(img)) == fill_rect_map(
            raster_pixels(*old(img)),
            x as int,
            y as int,
            w as int,
            h as int,
            c,
        ),
{
    let rect = imageproc::rect::Rect::at(x, y).of_size(w, h);
    imageproc::drawing::draw_filled_rect_mut(&mut img.inner, rect, image::Rgba([c.r, c.g, c.b, c.a]))
}

/// Relies on `image::codecs::png::PngDecoder` and
/// `image::DynamicImage::from_decoder`: decoding is a function of the bytes
/// alone; a successful decode yields a buffer whose pixels cover exactly
/// its coordinate grid.
#[verifier::external_body]
pub fn decode_png(bytes: &Vec<u8>) -> (r: Result<Raster, PrintError>)
    ensures
        (r is Ok) == png_of(bytes@).ok,
        r matches Ok(img) ==> {
            &&& raster_width(img) == png_of(bytes@).width
            &&& raster_height(img) == png_of(bytes@).height
            &&& raster_pixels(img) == png_of(bytes@).pixels
            &&& raster_pixels(img).dom() == grid_dom(raster_width(img) as int, raster_height(img) as int)
        },
        r matches Err(e) ==> e == PrintError::DecodeFailure,
{
    let reader = std::io::Cursor::new(bytes.as_slice());
    let decoder = match image::codecs::png::PngDecoder::new(reader) {
        Ok(d) => d,
        Err(_) => return Err(PrintError::DecodeFailure),
    };
    match image::DynamicImage::from_decoder(decoder) {
        Ok(img) => Ok(Raster { inner: img.into_rgba8() }),
        Err(_) => Err(PrintError::DecodeFailure),
    }
}

/// Relies on `image::DynamicImage::into_rgb8` and
/// `image::ImageBuffer::into_raw`: flattening to opaque RGB bytes is a
/// function of the buffer's dimensions and pixels, and an 8-bit RGB buffer
/// holds exactly three bytes per pixel.
#[verifier::external_body]
pub fn rgb_bytes(img: Raster) -> (r: Vec<u8>)
    ensures
        r@ == rgb_flat_of(raster_width(img), raster_height(img), raster_pixels(img)),
        r@.len() == 3 * raster_width(img) * raster_height(img),
{
    image::DynamicImage::ImageRgba8(img.inner).into_rgb8().into_raw()
}

} // verus!
