//! In-memory images: an opaque pixel buffer of the `image` crate carried
//! beside its dimensions, with the few pixel operations the pipeline needs.

use vstd::prelude::*;
use crate::color::Color;
use image::GenericImage;
use image::GenericImageView;

verus! {

#[verifier::external_type_specification]
#[verifier::external_body]
pub struct ExDynamicImage(image::DynamicImage);

/// A decoded image: its width and height in pixels, beside the pixel buffer.
///
/// Values are only ever built by the constructors below, which set the two
/// dimension fields to the buffer's real dimensions.
pub struct Img {
    width: u32,
    height: u32,
    data: image::DynamicImage,
}

impl Img {
    /// The image's width in pixels.
    pub closed spec fn spec_width(&self) -> u32 {
        self.width
    }

    /// The image's height in pixels.
    pub closed spec fn spec_height(&self) -> u32 {
        self.height
    }

    pub fn width(&self) -> (r: u32)
        ensures
            r == self.spec_width(),
    {
        self.width
    }

    pub fn height(&self) -> (r: u32)
        ensures
            r == self.spec_height(),
    {
        self.height
    }

    /// Relies on image::load_from_memory: decodes an image file's bytes into
    /// a pixel buffer; `None` when the bytes are no decodable image.
    #[verifier::external_body]
    pub fn decode(bytes: &[u8]) -> (r: Option<Img>) {
        match image::load_from_memory(bytes) {
            Ok(img) => Some(
                Img { width: img.width(), height: img.height(), data: img },
            ),
            Err(_) => None,
        }
    }

    /// Relies on image::RgbaImage::from_pixel: a `width` x `height` buffer
    /// with every pixel set to the given color, fully opaque.
    #[verifier::external_body]
    pub fn solid(width: u32, height: u32, color: Color) -> (r: Img)
        requires
            width * height * 4 <= usize::MAX,
        ensures
            r.spec_width() == width,
            r.spec_height() == height,
    {
        let buf = image::RgbaImage::from_pixel(
            width,
            height,
            image::Rgba([color.r, color.g, color.b, 255]),
        );
        Img { width, height, data: image::DynamicImage::ImageRgba8(buf) }
    }

    /// Relies on image::DynamicImage::resize_exact: the result has exactly
    /// the given dimensions, resampled with the Catmull-Rom filter without
    /// regard to the aspect ratio. The resampling allocates an intermediate
    /// buffer of the source width by the target height beside the result,
    /// hence the second bound.
    #[verifier::external_body]
    pub fn resize_exact(&self, width: u32, height: u32) -> (r: Img)
        requires
            width * height * 4 <= usize::MAX,
            self.spec_width() * height * 4 <= usize::MAX,
        ensures
            r.spec_width() == width,
            r.spec_height() == height,
    {
        let resized = self.data.resize_exact(
            width,
            height,
            image::imageops::FilterType::CatmullRom,
        );
        Img { width, height, data: resized }
    }

    /// Relies on image::GenericImage::copy_from: copies `other` into this
    /// image with its top-left corner at `(x, y)`; it succeeds exactly when
    /// `other` lies fully inside this image, and it never changes this
    /// image's dimensions.
    #[verifier::external_body]
    pub fn blit(&mut self, other: &Img, x: u32, y: u32) -> (ok: bool)
        ensures
            ok <==> (x + other.spec_width() <= old(self).spec_width() && y
                + other.spec_height() <= old(self).spec_height()),
            final(self).spec_width() == old(self).spec_width(),
            final(self).spec_height() == old(self).spec_height(),
    {
        self.data.copy_from(&other.data, x, y).is_ok()
    }

    /// Relies on image::DynamicImage::write_to: encodes the pixels as a PNG
    /// file's bytes; `None` when the buffer's sample format has no PNG
    /// representation.
    #[verifier::external_body]
    pub fn encode_png(&self) -> (r: Option<Vec<u8>>) {
        let mut bytes: Vec<u8> = Vec::new();
        let mut cursor = std::io::Cursor::new(&mut bytes);
        match self.data.write_to(&mut cursor, image::ImageFormat::Png) {
            Ok(()) => Some(bytes),
            Err(_) => None,
        }
    }
}

} // verus!
