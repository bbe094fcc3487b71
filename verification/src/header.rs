//! The 14-byte QOI image header and its codec.

use vstd::prelude::*;

use crate::consts::{QOI_HEADER_SIZE, QOI_MAGIC, QOI_PIXELS_MAX};
use crate::error::Error;
use crate::types::{Channels, ColorSpace};

verus! {

/// QOI image header.
///
/// A valid header has a non-zero width and height and at most
/// 400 million pixels.
#[derive(Copy, Clone, PartialEq, Eq, Structural, Debug, Hash)]
pub struct Header {
    /// Image width in pixels.
    pub width: u32,
    /// Image height in pixels.
    pub height: u32,
    /// Number of 8-bit channels per pixel.
    pub channels: Channels,
    /// Color space (informative field, doesn't affect encoding).
    pub colorspace: ColorSpace,
}

/// The dimension invariant every constructed header satisfies.
pub open spec fn spec_header_valid(h: Header) -> bool {
    &&& h.width >= 1
    &&& h.height >= 1
    &&& h.width * h.height <= QOI_PIXELS_MAX
}

/// A big-endian `u32` read from four consecutive bytes of `s`.
pub open spec fn spec_u32_be(s: Seq<u8>, i: int) -> u32 {
    ((s[i] as u32) << 24u32) | ((s[i + 1] as u32) << 16u32) | ((s[i + 2] as u32) << 8u32) | (s[i
        + 3] as u32)
}

/// The four big-endian bytes of a `u32`, most significant first.
pub open spec fn spec_u32_bytes(v: u32) -> Seq<u8> {
    seq![
        ((v >> 24u32) & 0xFF) as u8,
        ((v >> 16u32) & 0xFF) as u8,
        ((v >> 8u32) & 0xFF) as u8,
        (v & 0xFF) as u8,
    ]
}

/// The 14 encoded header bytes: magic, width, height, channels, colorspace.
pub open spec fn spec_header_bytes(h: Header) -> Seq<u8> {
    spec_u32_bytes(QOI_MAGIC) + spec_u32_bytes(h.width) + spec_u32_bytes(h.height) + seq![
        h.channels.spec_as_u8(),
        h.colorspace.spec_as_u8(),
    ]
}

/// What decoding a header from `s` returns, checks in this order: buffer
/// size, channels byte, colorspace byte, magic, emptiness, pixel count.
pub open spec fn spec_header_decode(s: Seq<u8>) -> Result<Header, Error> {
    if s.len() < QOI_HEADER_SIZE {
        Err(Error::InputBufferTooSmall { size: s.len() as usize, required: QOI_HEADER_SIZE })
    } else {
        let magic = spec_u32_be(s, 0);
        let width = spec_u32_be(s, 4);
        let height = spec_u32_be(s, 8);
        match Channels::spec_try_from_u8(s[12]) {
            Err(e) => Err(e),
            Ok(channels) => match ColorSpace::spec_try_from_u8(s[13]) {
                Err(e) => Err(e),
                Ok(colorspace) => if magic != QOI_MAGIC {
                    Err(Error::InvalidMagic { magic })
                } else {
                    spec_header_new(width, height, channels, colorspace)
                },
            },
        }
    }
}

/// What validating the dimensions returns.
pub open spec fn spec_header_new(
    width: u32,
    height: u32,
    channels: Channels,
    colorspace: ColorSpace,
) -> Result<Header, Error> {
    if height == 0 || width == 0 {
        Err(Error::EmptyImage { width, height })
    } else if width * height > QOI_PIXELS_MAX {
        Err(Error::ImageTooLarge { width, height })
    } else {
        Ok(Header { width, height, channels, colorspace })
    }
}

/// Proves that the four big-endian bytes of a `u32` read back as the same
/// value, and that each byte is what the shifts say.
proof fn lemma_u32_be_roundtrip(v: u32)
    by (bit_vector)
    ensures
        ((((v >> 24u32) & 0xFF) as u8 as u32) << 24u32) | ((((v >> 16u32) & 0xFF) as u8 as u32)
            << 16u32) | ((((v >> 8u32) & 0xFF) as u8 as u32) << 8u32) | ((v & 0xFF) as u8 as u32)
            == v,
{
}

/// Pushes the four big-endian bytes of `v` onto `out`.
fn push_u32_be(out: &mut Vec<u8>, v: u32)
    ensures
        final(out)@ == old(out)@ + spec_u32_bytes(v),
{
    out.push(((v >> 24u32) & 0xFF) as u8);
    out.push(((v >> 16u32) & 0xFF) as u8);
    out.push(((v >> 8u32) & 0xFF) as u8);
    out.push((v & 0xFF) as u8);
    proof {
        assert(out@ =~= old(out)@ + spec_u32_bytes(v));
    }
}

/// Reads a big-endian `u32` at offset `i` of `data`.
fn read_u32_be(data: &Vec<u8>, i: usize) -> (r: u32)
    requires
        i + 4 <= data@.len(),
    ensures
        r == spec_u32_be(data@, i as int),
{
    let l = data.len();
    ((data[i] as u32) << 24u32) | ((data[i + 1] as u32) << 16u32) | ((data[i + 2] as u32) << 8u32)
        | (data[i + 3] as u32)
}

impl Header {
    /// Creates a new header and validates the image dimensions.
    pub fn try_new(width: u32, height: u32, channels: Channels, colorspace: ColorSpace) -> (r:
        Result<Self, Error>)
        ensures
            r == spec_header_new(width, height, channels, colorspace),
            r matches Ok(h) ==> h == (Header { width, height, channels, colorspace })
                && spec_header_valid(h),
    {
        if height == 0 || width == 0 {
            return Err(Error::EmptyImage { width, height });
        }
        proof {
            vstd::arithmetic::mul::lemma_mul_upper_bound(
                width as int,
                0xFFFF_FFFF,
                height as int,
                0xFFFF_FFFF,
            );
        }
        let n: u64 = (width as u64) * (height as u64);
        if n > QOI_PIXELS_MAX as u64 {
            return Err(Error::ImageTooLarge { width, height });
        }
        Ok(Header { width, height, channels, colorspace })
    }

    /// The header with its channels replaced.
    pub fn with_channels(self, channels: Channels) -> (r: Self)
        ensures
            r == (Header { channels, ..self }),
    {
        Header { channels, ..self }
    }

    /// The header with its color space replaced.
    pub fn with_colorspace(self, colorspace: ColorSpace) -> (r: Self)
        ensures
            r == (Header { colorspace, ..self }),
    {
        Header { colorspace, ..self }
    }

    /// Serializes the header into its 14-byte form.
    pub fn encode(&self) -> (r: Vec<u8>)
        ensures
            r@ == spec_header_bytes(*self),
            r@.len() == QOI_HEADER_SIZE,
    {
        let mut out: Vec<u8> = Vec::new();
        push_u32_be(&mut out, QOI_MAGIC);
        push_u32_be(&mut out, self.width);
        push_u32_be(&mut out, self.height);
        out.push(self.channels.as_u8());
        out.push(self.colorspace.as_u8());
        proof {
            assert(out@ =~= spec_header_bytes(*self));
        }
        out
    }

    /// Deserializes and validates a header from the first 14 bytes of `data`.
    pub fn decode(data: &Vec<u8>) -> (r: Result<Self, Error>)
        ensures
            r == spec_header_decode(data@),
            r matches Ok(h) ==> spec_header_valid(h),
    {
        if data.len() < QOI_HEADER_SIZE {
            return Err(Error::InputBufferTooSmall { size: data.len(), required: QOI_HEADER_SIZE });
        }
        let magic = read_u32_be(data, 0);
        let width = read_u32_be(data, 4);
        let height = read_u32_be(data, 8);
        let channels = match Channels::try_from_u8(data[12]) {
            Ok(c) => c,
            Err(e) => { return Err(e) },
        };
        let colorspace = match ColorSpace::try_from_u8(data[13]) {
            Ok(c) => c,
            Err(e) => { return Err(e) },
        };
        if magic != QOI_MAGIC {
            return Err(Error::InvalidMagic { magic });
        }
        Self::try_new(width, height, channels, colorspace)
    }

    /// The number of pixels in the image.
    pub fn n_pixels(&self) -> (r: usize)
        requires
            spec_header_valid(*self),
        ensures
            r == self.width * self.height,
            r <= QOI_PIXELS_MAX,
    {
        (self.width as usize) * (self.height as usize)
    }

    /// The total number of bytes of the raw image.
    pub fn n_bytes(&self) -> (r: usize)
        requires
            spec_header_valid(*self),
        ensures
            r == self.width * self.height * self.channels.spec_as_u8(),
    {
        let n = self.n_pixels();
        let c = self.channels.as_u8() as usize;
        proof {
            assert(n * c <= QOI_PIXELS_MAX * 4) by {
                if c == 3 {
                    assert(n * c == n * 3);
                } else {
                    assert(n * c == n * 4);
                }
            }
        }
        n * c
    }

    /// The maximum number of bytes the image can occupy once encoded; the
    /// worst case is one literal opcode per pixel, plus header and end-marker.
    pub fn encoded_size_limit(&self) -> (r: usize)
        requires
            spec_header_valid(*self),
        ensures
            r == QOI_HEADER_SIZE + self.width * self.height * (self.channels.spec_as_u8() + 1)
                + crate::consts::QOI_PADDING_SIZE,
    {
        let n = self.n_pixels();
        let c1 = self.channels.as_u8() as usize + 1;
        proof {
            assert(n * c1 <= QOI_PIXELS_MAX * 5) by {
                if c1 == 4 {
                    assert(n * c1 == n * 4);
                } else {
                    assert(n * c1 == n * 5);
                }
            }
        }
        QOI_HEADER_SIZE + n * c1 + crate::consts::QOI_PADDING_SIZE
    }
}

impl Default for Header {
    /// A one-pixel RGB sRGB header.
    fn default() -> (r: Self)
        ensures
            r == (Header {
                width: 1u32,
                height: 1u32,
                channels: Channels::Rgb,
                colorspace: ColorSpace::Srgb,
            }),
    {
        Header { width: 1, height: 1, channels: Channels::Rgb, colorspace: ColorSpace::Srgb }
    }
}

/// Header idempotence: decoding the 14 bytes a valid header encodes to
/// returns that same header.
pub proof fn lemma_header_roundtrip(h: Header)
    requires
        spec_header_valid(h),
    ensures
        spec_header_decode(spec_header_bytes(h)) == Ok::<Header, Error>(h),
{
    let s = spec_header_bytes(h);
    assert(s.len() == 14);
    lemma_u32_be_roundtrip(QOI_MAGIC);
    lemma_u32_be_roundtrip(h.width);
    lemma_u32_be_roundtrip(h.height);
    assert(spec_u32_be(s, 0) == QOI_MAGIC);
    assert(spec_u32_be(s, 4) == h.width);
    assert(spec_u32_be(s, 8) == h.height);
    assert(s[12] == h.channels.spec_as_u8());
    assert(s[13] == h.colorspace.spec_as_u8());
}

} // verus!
