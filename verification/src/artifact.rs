//! The artifact decoder: the snapshot payload is decoded as a PNG raster.
//! Writing the raster to disk is the surrounding process's business.
use vstd::prelude::*;

verus! {

/// Failure of the artifact decode stage: the payload is not a decodable PNG.
#[derive(Clone, Copy, PartialEq, Eq, Structural, Debug)]
pub enum DecodeError {
    MalformedImage,
}

#[verifier::external_type_specification]
#[verifier::external_body]
pub struct ExDynamicImage(image::DynamicImage);

/// Whether the bytes decode as a PNG image.
pub uninterp spec fn png_ok(b: Seq<u8>) -> bool;

/// Relies on image::load_from_memory_with_format with the PNG format: whether
/// the bytes decode is a function of the bytes alone.
#[verifier::external_body]
fn load_png(b: &Vec<u8>) -> (r: Option<image::DynamicImage>)
    ensures
        r is Some <==> png_ok(b@),
{
    image::load_from_memory_with_format(b.as_slice(), image::ImageFormat::Png).ok()
}

/// Relies on image::DynamicImage::width.
#[verifier::external_body]
pub fn image_width(img: &image::DynamicImage) -> u32 {
    img.width()
}

/// Relies on image::DynamicImage::height.
#[verifier::external_body]
pub fn image_height(img: &image::DynamicImage) -> u32 {
    img.height()
}

/// Decode the snapshot payload as a PNG raster. Exactly the byte sequences
/// that form a PNG decode; anything else is a decode error, and nothing is
/// produced.
pub fn decode_artifact(bytes: &Vec<u8>) -> (r: Result<image::DynamicImage, DecodeError>)
    ensures
        r is Ok <==> png_ok(bytes@),
        r is Err ==> r == Err::<image::DynamicImage, DecodeError>(DecodeError::MalformedImage),
{
    match load_png(bytes) {
        Some(img) => Ok(img),
        None => Err(DecodeError::MalformedImage),
    }
}

} // verus!
