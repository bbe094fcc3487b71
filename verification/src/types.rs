//! Channel counts, color spaces and source pixel layouts.

use vstd::prelude::*;

use crate::error::Error;

verus! {

/// Image color space.
///
/// The color space is purely informative: it is stored in the file header
/// but does not affect encoding or decoding in any way.
#[derive(Copy, Clone, PartialEq, Eq, Structural, Debug, Hash)]
pub enum ColorSpace {
    /// sRGB with linear alpha.
    Srgb,
    /// All channels are linear.
    Linear,
}

impl ColorSpace {
    /// Returns true if the color space is sRGB with linear alpha.
    pub fn is_srgb(self) -> (r: bool)
        ensures
            r == (self == ColorSpace::Srgb),
    {
        matches!(self, ColorSpace::Srgb)
    }

    /// Returns true if all channels are linear.
    pub fn is_linear(self) -> (r: bool)
        ensures
            r == (self == ColorSpace::Linear),
    {
        matches!(self, ColorSpace::Linear)
    }

    /// The byte stored in the header: 0 for sRGB, 1 for all-linear.
    pub open spec fn spec_as_u8(self) -> u8 {
        match self {
            ColorSpace::Srgb => 0u8,
            ColorSpace::Linear => 1u8,
        }
    }

    /// Converts to an integer (0 if sRGB, 1 if all linear).
    pub fn as_u8(self) -> (r: u8)
        ensures
            r == self.spec_as_u8(),
    {
        match self {
            ColorSpace::Srgb => 0,
            ColorSpace::Linear => 1,
        }
    }

    /// Reads the header byte back: 0 and 1 are valid, all else is rejected.
    pub fn try_from_u8(colorspace: u8) -> (r: Result<Self, Error>)
        ensures
            r == ColorSpace::spec_try_from_u8(colorspace),
    {
        if colorspace == 0 {
            Ok(ColorSpace::Srgb)
        } else if colorspace == 1 {
            Ok(ColorSpace::Linear)
        } else {
            Err(Error::InvalidColorSpace { colorspace })
        }
    }

    /// What `try_from_u8` returns for each byte.
    pub open spec fn spec_try_from_u8(colorspace: u8) -> Result<Self, Error> {
        if colorspace == 0 {
            Ok(ColorSpace::Srgb)
        } else if colorspace == 1 {
            Ok(ColorSpace::Linear)
        } else {
            Err(Error::InvalidColorSpace { colorspace })
        }
    }
}

impl Default for ColorSpace {
    /// The default color space is sRGB.
    fn default() -> (r: Self)
        ensures
            r == ColorSpace::Srgb,
    {
        ColorSpace::Srgb
    }
}

/// Number of 8-bit channels in a pixel.
#[derive(Copy, Clone, PartialEq, Eq, Structural, Debug, Hash)]
pub enum Channels {
    /// Three 8-bit channels (RGB).
    Rgb,
    /// Four 8-bit channels (RGBA).
    Rgba,
}

impl Channels {
    /// Returns true if there are 3 channels (RGB).
    pub fn is_rgb(self) -> (r: bool)
        ensures
            r == (self == Channels::Rgb),
    {
        matches!(self, Channels::Rgb)
    }

    /// Returns true if there are 4 channels (RGBA).
    pub fn is_rgba(self) -> (r: bool)
        ensures
            r == (self == Channels::Rgba),
    {
        matches!(self, Channels::Rgba)
    }

    /// The channel count as a number: 3 for RGB, 4 for RGBA.
    pub open spec fn spec_as_u8(self) -> u8 {
        match self {
            Channels::Rgb => 3u8,
            Channels::Rgba => 4u8,
        }
    }

    /// Converts to an integer (3 if RGB, 4 if RGBA).
    pub fn as_u8(self) -> (r: u8)
        ensures
            r == self.spec_as_u8(),
    {
        match self {
            Channels::Rgb => 3,
            Channels::Rgba => 4,
        }
    }

    /// Reads the header byte back: 3 and 4 are valid, all else is rejected.
    pub fn try_from_u8(channels: u8) -> (r: Result<Self, Error>)
        ensures
            r == Channels::spec_try_from_u8(channels),
    {
        if channels == 3 {
            Ok(Channels::Rgb)
        } else if channels == 4 {
            Ok(Channels::Rgba)
        } else {
            Err(Error::InvalidChannels { channels })
        }
    }

    /// What `try_from_u8` returns for each byte.
    pub open spec fn spec_try_from_u8(channels: u8) -> Result<Self, Error> {
        if channels == 3 {
            Ok(Channels::Rgb)
        } else if channels == 4 {
            Ok(Channels::Rgba)
        } else {
            Err(Error::InvalidChannels { channels })
        }
    }
}

impl Default for Channels {
    /// The default channel count is 3 (RGB).
    fn default() -> (r: Self)
        ensures
            r == Channels::Rgb,
    {
        Channels::Rgb
    }
}

/// Pixel format of the source image buffer handed to the encoder.
///
/// The layout does not depend on the endianness of the system: the
/// components are stored as bytes in the given order.  An `X` component is
/// a filler byte that is read and discarded.
#[derive(Copy, Clone, PartialEq, Eq, Structural, Debug)]
pub enum SourceChannels {
    /// Pixel is R, G and B channels.
    Rgb,
    /// Pixel is B, G and R channels.
    Bgr,
    /// Pixel is RGB with an alpha channel.
    Rgba,
    /// Pixel is an alpha channel and RGB.
    Argb,
    /// Pixel is RGB with an extra byte.
    Rgbx,
    /// Pixel is an extra byte and RGB.
    Xrgb,
    /// Pixel is BGR with an alpha channel.
    Bgra,
    /// Pixel is an alpha channel and BGR.
    Abgr,
    /// Pixel is BGR with an extra byte.
    Bgrx,
    /// Pixel is an extra byte and BGR.
    Xbgr,
}

impl SourceChannels {
    /// The channel count of the image such a source produces: layouts with
    /// an alpha component give four-channel images, all others three.
    pub open spec fn spec_image_channels(self) -> Channels {
        match self {
            SourceChannels::Rgba | SourceChannels::Argb | SourceChannels::Bgra
                | SourceChannels::Abgr => Channels::Rgba,
            _ => Channels::Rgb,
        }
    }

    /// The channel count of the image this source layout produces.
    pub fn image_channels(self) -> (r: Channels)
        ensures
            r == self.spec_image_channels(),
    {
        match self {
            SourceChannels::Rgb | SourceChannels::Bgr | SourceChannels::Rgbx
                | SourceChannels::Xrgb | SourceChannels::Bgrx | SourceChannels::Xbgr => {
                Channels::Rgb
            },
            SourceChannels::Rgba | SourceChannels::Argb | SourceChannels::Bgra
                | SourceChannels::Abgr => Channels::Rgba,
        }
    }

    /// How many bytes one source pixel occupies in the buffer.
    pub open spec fn spec_bytes_per_pixel(self) -> usize {
        match self {
            SourceChannels::Rgb | SourceChannels::Bgr => 3usize,
            _ => 4usize,
        }
    }

    /// The number of bytes one source pixel occupies in the buffer.
    pub fn bytes_per_pixel(self) -> (r: usize)
        ensures
            r == self.spec_bytes_per_pixel(),
            r == 3 || r == 4,
    {
        match self {
            SourceChannels::Rgb | SourceChannels::Bgr => 3,
            SourceChannels::Rgba | SourceChannels::Argb | SourceChannels::Rgbx
                | SourceChannels::Xrgb | SourceChannels::Bgra | SourceChannels::Abgr
                | SourceChannels::Bgrx | SourceChannels::Xbgr => 4,
        }
    }

    /// The canonical source layout for a channel count: RGB or RGBA.
    pub fn from_channels(value: Channels) -> (r: Self)
        ensures
            value == Channels::Rgb ==> r == SourceChannels::Rgb,
            value == Channels::Rgba ==> r == SourceChannels::Rgba,
    {
        match value {
            Channels::Rgb => SourceChannels::Rgb,
            Channels::Rgba => SourceChannels::Rgba,
        }
    }
}

} // verus!
