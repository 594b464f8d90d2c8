//! Affine rasterization and ordered compositing of bitmap animation frames.
use vstd::prelude::*;

pub mod pixel;
pub mod image;
pub mod filter;
pub mod schedule;
pub mod codec;
pub mod bytes;
pub mod fmod;

verus! {

/// Errors returned by single operations of the library.
#[derive(Clone, Copy, PartialEq, Eq, Debug, Structural)]
pub enum RasterError {
    /// A buffer length, a pixel position or a pixel size does not fit the image.
    Validation,
    /// The affine matrix cannot be inverted.
    InvalidMatrix,
    /// The bytes are not an image in a supported format.
    Decode,
    /// The image could not be encoded.
    Encode,
}

} // verus!
