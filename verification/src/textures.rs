//! Decoded images of the `image` crate, read through four trusted
//! accessors, and the wall textures among them.

use vstd::prelude::*;
use image::DynamicImage;
use crate::maze::GOAL;

verus! {

/// `image::DynamicImage`, a decoded image, held as an opaque value.
#[verifier::external_type_specification]
#[verifier::external_body]
pub struct ExDynamicImage(DynamicImage);

/// Width in pixels of a decoded image.
pub uninterp spec fn image_width(img: DynamicImage) -> u32;

/// Height in pixels of a decoded image.
pub uninterp spec fn image_height(img: DynamicImage) -> u32;

/// The pixel in column `x` of row `y` of a decoded image, as red, green,
/// blue and alpha.
pub uninterp spec fn image_pixel(img: DynamicImage, x: u32, y: u32) -> (u8, u8, u8, u8);

/// Calls `image::DynamicImage::width`. Trusted: the result is the width
/// that `image_width` names.
#[verifier::external_body]
pub(crate) fn width_of(img: &DynamicImage) -> (w: u32)
    ensures
        w == image_width(*img),
{
    img.width()
}

/// Calls `image::DynamicImage::height`. Trusted: the result is the height
/// that `image_height` names.
#[verifier::external_body]
pub(crate) fn height_of(img: &DynamicImage) -> (h: u32)
    ensures
        h == image_height(*img),
{
    img.height()
}

/// Calls `image::GenericImageView::get_pixel` on a `DynamicImage`, which
/// panics outside the image. Trusted: inside the image the result is the
/// pixel that `image_pixel` names, channel by channel.
#[verifier::external_body]
pub(crate) fn pixel_of(img: &DynamicImage, x: u32, y: u32) -> (p: (u8, u8, u8, u8))
    requires
        x < image_width(*img),
        y < image_height(*img),
    ensures
        p == image_pixel(*img, x, y),
{
    let image::Rgba([r, g, b, a]) = image::GenericImageView::get_pixel(img, x, y);
    (r, g, b, a)
}

/// The pixel in column `x` of row `y` of a decoded image after its
/// conversion to red, green, blue and alpha of 8 bits each.
pub uninterp spec fn rgba8_pixel(img: DynamicImage, x: u32, y: u32) -> (u8, u8, u8, u8);

/// Calls `image::DynamicImage::to_rgba8` and holds the copy as a
/// `DynamicImage` again. Trusted: the copy has the size of the image, and
/// its pixels are those that `rgba8_pixel` names.
#[verifier::external_body]
pub(crate) fn rgba8_copy(img: &DynamicImage) -> (copy: DynamicImage)
    ensures
        image_width(copy) == image_width(*img),
        image_height(copy) == image_height(*img),
        forall|x: u32, y: u32|
            x < image_width(*img) && y < image_height(*img) ==> #[trigger] image_pixel(copy, x, y)
                == rgba8_pixel(*img, x, y),
{
    DynamicImage::ImageRgba8(img.to_rgba8())
}

/// The four wall textures, one per wall tag.
pub struct Textures {
    /// Texture of the `+` walls.
    pub plus: DynamicImage,
    /// Texture of the `-` walls.
    pub minus: DynamicImage,
    /// Texture of the `|` walls.
    pub pipe: DynamicImage,
    /// Texture of the goal cell.
    pub goal: DynamicImage,
}

impl Textures {
    /// The texture bound to a cell tag, if any.
    pub open spec fn bound_to(&self, tag: char) -> Option<DynamicImage> {
        if tag == '+' {
            Some(self.plus)
        } else if tag == '-' {
            Some(self.minus)
        } else if tag == '|' {
            Some(self.pipe)
        } else if tag == GOAL {
            Some(self.goal)
        } else {
            None
        }
    }

    /// The texture bound to a cell tag, if any.
    pub fn lookup(&self, tag: char) -> (texture: Option<&DynamicImage>)
        ensures
            texture.is_some() == self.bound_to(tag).is_some(),
            texture.is_some() ==> *texture.unwrap() == self.bound_to(tag).unwrap(),
    {
        if tag == '+' {
            Some(&self.plus)
        } else if tag == '-' {
            Some(&self.minus)
        } else if tag == '|' {
            Some(&self.pipe)
        } else if tag == GOAL {
            Some(&self.goal)
        } else {
            None
        }
    }
}

} // verus!
