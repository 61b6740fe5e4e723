use vstd::prelude::*;

use crate::frame::Color;

verus! {

/// A decoded bitmap of the `bmp` crate, carried through opaquely.
#[verifier::external_type_specification]
#[verifier::external_body]
pub struct ExImage(bmp::Image);

/// The width in pixels that `bmp::Image::get_width` reports.
pub uninterp spec fn image_width(img: bmp::Image) -> u32;

/// The height in pixels that `bmp::Image::get_height` reports.
pub uninterp spec fn image_height(img: bmp::Image) -> u32;

/// What the image holds: the (red, green, blue) value at each (column, row),
/// row 0 at the top, as `bmp::Image::get_pixel` reports it.
pub uninterp spec fn image_pixels(img: bmp::Image) -> Map<(u32, u32), (u8, u8, u8)>;

/// Relies on `bmp::Image::get_width`, which returns the stored width.
#[verifier::external_body]
pub(crate) fn image_width_of(img: &bmp::Image) -> (r: u32)
    ensures
        r == image_width(*img),
{
    img.get_width()
}

/// Relies on `bmp::Image::get_height`, which returns the stored height.
#[verifier::external_body]
pub(crate) fn image_height_of(img: &bmp::Image) -> (r: u32)
    ensures
        r == image_height(*img),
{
    img.get_height()
}

/// Relies on `bmp::Image::get_pixel`: the pixel at (`x`, `y`). Where width times
/// height fits in a `u32`, the image holds exactly that many pixels and the
/// index `get_pixel` computes neither overflows nor runs past them.
#[verifier::external_body]
pub(crate) fn image_pixel(img: &bmp::Image, x: u32, y: u32) -> (r: Color)
    requires
        x < image_width(*img),
        y < image_height(*img),
        image_width(*img) * image_height(*img) <= u32::MAX,
    ensures
        (r.0, r.1, r.2) == image_pixels(*img)[(x, y)],
{
    let p = img.get_pixel(x, y);
    Color(p.r, p.g, p.b)
}

} // verus!
