//! Images for the user interface: encoded bytes go in, pixels with their
//! alpha multiplied in come out. The decoder and the colour conversion
//! belong to outside crates.

use image::ImageError;
use vstd::prelude::*;

verus! {

/// Why an image could not be loaded.
#[derive(Clone, Copy, Debug, PartialEq, Eq)]
pub enum ImageLoadError {
    /// The bytes do not follow the format that they claim.
    Decoding,
    /// The image cannot be written in the chosen format.
    Encoding,
    /// The decoder was given an argument that it cannot use.
    Parameter,
    /// The image needs more memory than the decoder may take.
    Limits,
    /// The format is unknown, or the decoder is not built for it.
    Unsupported,
    /// Reading the bytes failed.
    Io,
}

/// A pixel: red, green, blue and alpha, the colours multiplied by the
/// alpha.
pub type Pixel = [u8; 4];

/// An image in memory, its pixels row by row from the top.
pub struct ColorImage {
    /// Width and height.
    pub size: [usize; 2],
    pub pixels: Vec<Pixel>,
}

/// What `image::load_from_memory` makes of the bytes: width, height and
/// the samples of the image in 8-bit RGBA, or the kind of the error that
/// it returns.
pub uninterp spec fn decoded(bytes: Seq<u8>) -> Result<(u32, u32, Seq<u8>), ImageLoadError>;

/// What is plain of pixels that were made of samples in 8-bit RGBA: there
/// is one pixel for every four samples, each pixel keeps its alpha, an
/// opaque pixel keeps its colours, and a pixel without alpha is all zero.
/// The colours of the other pixels are dimmed by their alpha along the
/// gamma curve, in floating point; what comes of that is not stated.
pub open spec fn keeps_plain_pixels(pixels: Seq<Pixel>, rgba: Seq<u8>) -> bool {
    &&& rgba.len() == 4 * pixels.len()
    &&& forall|i: int|
        0 <= i < pixels.len() ==> {
            let pixel = #[trigger] pixels[i];
            let alpha = rgba[4 * i + 3];
            &&& pixel[3] == alpha
            &&& alpha == 255 ==> pixel[0] == rgba[4 * i] && pixel[1] == rgba[4 * i + 1]
                && pixel[2] == rgba[4 * i + 2]
            &&& alpha == 0 ==> pixel[0] == 0 && pixel[1] == 0 && pixel[2] == 0
        }
}

/// Calls `image::load_from_memory`, which guesses the format of the bytes
/// and decodes them, and hands out the image by `width`, `height` and
/// `to_rgba8`, or the variant of the `image::ImageError`. The contract
/// claims that the outcome depends on the bytes alone, and that the
/// decoded image has four samples for each pixel.
#[verifier::external_body]
fn decode_rgba8(bytes: &[u8]) -> (out: Result<(u32, u32, Vec<u8>), ImageLoadError>)
    ensures
        match out {
            Ok((width, height, samples)) => {
                &&& decoded(bytes@) == Ok::<(u32, u32, Seq<u8>), ImageLoadError>(
                    (width, height, samples@),
                )
                &&& samples@.len() == 4 * width * height
            },
            Err(error) => decoded(bytes@) == Err::<(u32, u32, Seq<u8>), ImageLoadError>(error),
        },
{
    match image::load_from_memory(bytes) {
        Ok(image) => Ok((image.width(), image.height(), image.to_rgba8().into_raw())),
        Err(ImageError::Decoding(_)) => Err(ImageLoadError::Decoding),
        Err(ImageError::Encoding(_)) => Err(ImageLoadError::Encoding),
        Err(ImageError::Parameter(_)) => Err(ImageLoadError::Parameter),
        Err(ImageError::Limits(_)) => Err(ImageLoadError::Limits),
        Err(ImageError::Unsupported(_)) => Err(ImageLoadError::Unsupported),
        Err(ImageError::IoError(_)) => Err(ImageLoadError::Io),
    }
}

/// Calls `egui::ColorImage::from_rgba_unmultiplied`, which panics unless
/// there are four samples for each pixel of the size, and hands out what
/// it returns. The contract claims that the image has the size given and
/// one pixel for every four samples, that each pixel keeps its alpha, that
/// an opaque pixel keeps its colours, and that a pixel without alpha is
/// all zero.
#[verifier::external_body]
fn premultiply(size: [usize; 2], rgba: &[u8]) -> (image: ColorImage)
    requires
        size[0] * size[1] * 4 == rgba@.len(),
    ensures
        image.size == size,
        keeps_plain_pixels(image.pixels@, rgba@),
{
    let image = egui::ColorImage::from_rgba_unmultiplied(size, rgba);
    ColorImage { size: image.size, pixels: image.pixels.iter().map(|c| c.to_array()).collect() }
}

/// Decodes an image and multiplies the alpha into its colours. The format
/// is guessed from the bytes. The image has the size that the decoder
/// found, and its pixels are made of the samples that the decoder found;
/// an error is the error of the decoder.
pub fn load_image_from_memory(image_data: &[u8]) -> (out: Result<ColorImage, ImageLoadError>)
    ensures
        match out {
            Ok(image) => {
                &&& decoded(image_data@) matches Ok((width, height, samples))
                &&& image.size@ == seq![width as usize, height as usize]
                &&& image.pixels@.len() == width * height
                &&& keeps_plain_pixels(image.pixels@, samples)
            },
            Err(error) => decoded(image_data@) == Err::<(u32, u32, Seq<u8>), ImageLoadError>(
                error,
            ),
        },
{
    match decode_rgba8(image_data) {
        Ok((width, height, samples)) => {
            let size = [width as usize, height as usize];
            assert(size[0] * size[1] * 4 == samples@.len()) by (nonlinear_arith)
                requires
                    size[0] == width,
                    size[1] == height,
                    samples@.len() == 4 * width * height,
            ;
            Ok(premultiply(size, samples.as_slice()))
        },
        Err(error) => Err(error),
    }
}

} // verus!
