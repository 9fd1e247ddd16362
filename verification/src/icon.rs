//! Turning an icon file into the pixels that a card shows.
use image::{DynamicImage, ImageFormat};
use vstd::prelude::*;

use crate::config::{ICON_LOGICAL, SCALE};

verus! {

/// An image in memory, of any of the colour types of the `image` crate.
#[verifier::external_type_specification]
#[verifier::external_body]
pub struct ExDynamicImage(DynamicImage);

/// One of the image formats that the `image` crate knows.
#[verifier::external_type_specification]
#[verifier::external_body]
pub struct ExImageFormat(ImageFormat);

/// What an image holds: its colour type and colour space, its size, and the samples of its pixels,
/// written one after the other as bytes.
pub uninterp spec fn image_content(image: DynamicImage) -> Seq<u8>;

/// The image format that the extension of a path stands for, if it stands for one, as
/// [`image::ImageFormat::from_path`] gives it.
pub uninterp spec fn path_format(path: Seq<char>) -> Option<ImageFormat>;

/// Whether decoding bytes in a format may end with the given content, or with none. Decoders of some
/// formats compute in floating point, so that the last bit of a sample may depend on the machine.
pub uninterp spec fn decode_outcome(
    data: Seq<u8>,
    format: ImageFormat,
    content: Option<Seq<u8>>,
) -> bool;

/// Whether scaling an image of the given content to a size with the Lanczos filter may give an
/// image of the other content. The filter computes in floating point, so that the last bit of a
/// sample may depend on the machine.
pub uninterp spec fn resize_outcome(
    content: Seq<u8>,
    width: u32,
    height: u32,
    resized: Seq<u8>,
) -> bool;

/// The pixels of an image of the given content as RGBA, eight bits to a channel, row after row.
pub uninterp spec fn rgba8_of(content: Seq<u8>) -> Seq<u8>;

/// Calls `image::ImageFormat::from_path`. Trusted: the format, or that there is none because the
/// extension is missing or not known, is a function of the path, called [`path_format`].
#[verifier::external_body]
fn format_of(path: &str) -> (format: Option<ImageFormat>)
    ensures
        format == path_format(path@),
{
    ImageFormat::from_path(path).ok()
}

/// Calls `image::load_from_memory_with_format`, which does to a file's bytes, in the format of the
/// path's extension, what `image::open` does to the file. Trusted: the image, or that there is none
/// because the bytes are not understood, is an outcome of decoding these bytes in this format.
#[verifier::external_body]
fn decode(data: &[u8], format: ImageFormat) -> (image: Option<DynamicImage>)
    ensures
        match image {
            Some(decoded) => decode_outcome(data@, format, Some(image_content(decoded))),
            None => decode_outcome(data@, format, None),
        },
{
    image::load_from_memory_with_format(data, format).ok()
}

/// Calls `image::DynamicImage::resize_exact` with the filter `Lanczos3`. Trusted: the result is an
/// outcome of scaling the image to that size, and it has exactly that many pixels, so that it
/// makes four bytes for each as RGBA. Sizes that an intermediate image could not be allocated for
/// are left out.
#[verifier::external_body]
fn resize(image: &DynamicImage, width: u32, height: u32) -> (resized: DynamicImage)
    requires
        0 < width <= 0xffff,
        0 < height <= 0xffff,
    ensures
        resize_outcome(image_content(*image), width, height, image_content(resized)),
        rgba8_of(image_content(resized)).len() == 4 * width * height,
{
    image.resize_exact(width, height, image::imageops::FilterType::Lanczos3)
}

/// Calls `image::DynamicImage::to_rgba8` and takes the buffer out of the result. Trusted: the bytes
/// are a function of what the image holds, called [`rgba8_of`].
#[verifier::external_body]
fn rgba8_bytes(image: &DynamicImage) -> (bytes: Vec<u8>)
    ensures
        bytes@ == rgba8_of(image_content(*image)),
{
    image.to_rgba8().into_raw()
}

/// The side of an icon in buffer pixels.
pub open spec fn icon_side() -> int {
    ICON_LOGICAL * SCALE
}

/// Whether bytes in a format may be shown as these pixels.
pub open spec fn shown_as(data: Seq<u8>, format: ImageFormat, pixels: Seq<u8>) -> bool {
    exists|content: Seq<u8>, resized: Seq<u8>|
        {
            &&& decode_outcome(data, format, Some(content))
            &&& #[trigger] resize_outcome(
                content,
                icon_side() as u32,
                icon_side() as u32,
                resized,
            )
            &&& pixels == rgba8_of(resized)
        }
}

/// Decodes an icon file, given its path and its bytes, and scales it to the size that cards show:
/// rows of RGBA pixels. There is none if the path has no extension of an image format, or if the
/// file cannot be decoded.
pub fn load_icon(path: &str, data: &[u8]) -> (icon: Option<Vec<u8>>)
    ensures
        match (path_format(path@), icon) {
            (Some(format), Some(pixels)) => {
                &&& shown_as(data@, format, pixels@)
                &&& pixels@.len() == 4 * icon_side() * icon_side()
            },
            (Some(format), None) => decode_outcome(data@, format, None),
            (None, shown) => shown is None,
        },
{
    let side: u32 = ICON_LOGICAL * SCALE as u32;
    assert(side == icon_side());
    match format_of(path) {
        Some(format) => match decode(data, format) {
            Some(image) => {
                let resized: DynamicImage = resize(&image, side, side);
                Some(rgba8_bytes(&resized))
            },
            None => None,
        },
        None => None,
    }
}

} // verus!
