//! Failure cases of encoding and decoding.

use vstd::prelude::*;

verus! {

/// Errors that can occur during encoding or decoding.
#[derive(Copy, Clone, PartialEq, Eq, Structural, Debug)]
pub enum Error {
    /// Leading 4 magic bytes don't match when decoding.
    InvalidMagic { magic: u32 },
    /// Invalid number of channels: expected 3 or 4.
    InvalidChannels { channels: u8 },
    /// Invalid color space: expected 0 or 1.
    InvalidColorSpace { colorspace: u8 },
    /// Image has a zero width or height.
    EmptyImage { width: u32, height: u32 },
    /// Image has more than 400 million pixels.
    ImageTooLarge { width: u32, height: u32 },
    /// Image dimensions are inconsistent with the image buffer length.
    InvalidImageLength { size: usize, width: u32, height: u32 },
    /// Image stride is inconsistent with the image dimensions and buffer length.
    InvalidImageStride { size: usize, width: u32, height: u32, stride: usize },
    /// Input buffer is too small to hold the encoded header.
    InputBufferTooSmall { size: usize, required: usize },
    /// Output buffer is too small to fit the encoded or decoded image.
    OutputBufferTooSmall { size: usize, required: usize },
    /// Input buffer ended unexpectedly before decoding was finished.
    UnexpectedBufferEnd,
    /// Invalid stream end marker encountered when decoding.
    InvalidPadding,
    /// A byte source or byte sink failed while streaming.
    IoError,
}

} // verus!
