//! Reference-mode encoding: entry points whose output is byte for byte the
//! stream the reference encoder writes, with the channel count given
//! explicitly rather than inferred.

use vstd::prelude::*;

use crate::encode::{
    spec_build, spec_encode, spec_encode_max_len, spec_image_pixels, Encoder, EncoderBuilder,
};
use crate::error::Error;
use crate::types::{Channels, ColorSpace, SourceChannels};

verus! {

/// What the reference-mode entry points decide before encoding: the
/// channel byte must name 3 or 4 channels, then the buffer is validated
/// as a tightly packed image of that layout.
pub open spec fn spec_canonical_setup(
    size: nat,
    width: u32,
    height: u32,
    channels: u8,
    colorspace: ColorSpace,
) -> Result<(usize, SourceChannels, crate::header::Header), Error> {
    match Channels::spec_try_from_u8(channels) {
        Err(e) => Err(e),
        Ok(ch) => {
            let sc = if ch == Channels::Rgb {
                SourceChannels::Rgb
            } else {
                SourceChannels::Rgba
            };
            spec_build(size, width, height, Option::<usize>::None, Some(sc), Some(colorspace))
        },
    }
}

/// Builds the reference-mode encoder for a tightly packed buffer with an
/// explicit channel count and color space.
fn canonical_encoder<'a>(
    data: &'a Vec<u8>,
    width: u32,
    height: u32,
    channels: u8,
    colorspace: ColorSpace,
) -> (r: Result<Encoder<'a>, Error>)
    ensures
        ({
            match spec_canonical_setup(data@.len(), width, height, channels, colorspace) {
                Ok(t) => r matches Ok(e) && e.spec_data() == data@ && e.spec_stride() == t.0
                    && e.spec_source_channels() == t.1 && e.spec_header() == t.2
                    && e.spec_reference(),
                Err(er) => r matches Err(er2) && er2 == er,
            }
        }),
{
    let ch = match Channels::try_from_u8(channels) {
        Ok(c) => c,
        Err(e) => { return Err(e) },
    };
    let sc = SourceChannels::from_channels(ch);
    let encoder = match EncoderBuilder::new(data, width, height).source_channels(sc).colorspace(
        colorspace,
    ).build() {
        Ok(e) => e,
        Err(e) => { return Err(e) },
    };
    Ok(encoder.with_reference(true))
}

/// Encodes a tightly packed image in reference mode into a new vector.
pub fn qoi_encode_to_vec(
    data: &Vec<u8>,
    width: u32,
    height: u32,
    channels: u8,
    colorspace: ColorSpace,
) -> (r: Result<Vec<u8>, Error>)
    ensures
        ({
            match spec_canonical_setup(data@.len(), width, height, channels, colorspace) {
                Err(e) => r matches Err(e2) && e2 == e,
                Ok(t) => r matches Ok(v) && v@ == spec_encode(
                    t.2,
                    spec_image_pixels(data@, t.2.width as int, t.2.height as int, t.0 as int, t.1),
                    true,
                ),
            }
        }),
{
    let encoder = match canonical_encoder(data, width, height, channels, colorspace) {
        Ok(e) => e,
        Err(e) => { return Err(e) },
    };
    encoder.encode_to_vec()
}

/// Encodes a tightly packed image in reference mode into the front of a
/// pre-allocated buffer and returns the number of bytes written.
pub fn qoi_encode_to_buf(
    out: &mut Vec<u8>,
    data: &Vec<u8>,
    width: u32,
    height: u32,
    channels: u8,
    colorspace: ColorSpace,
) -> (r: Result<usize, Error>)
    ensures
        ({
            match spec_canonical_setup(data@.len(), width, height, channels, colorspace) {
                Err(e) => r == Err::<usize, Error>(e) && final(out)@ == old(out)@,
                Ok(t) => {
                    let required = spec_encode_max_len(
                        t.2.width,
                        t.2.height,
                        t.2.channels.spec_as_u8(),
                    );
                    let enc = spec_encode(
                        t.2,
                        spec_image_pixels(
                            data@,
                            t.2.width as int,
                            t.2.height as int,
                            t.0 as int,
                            t.1,
                        ),
                        true,
                    );
                    if old(out)@.len() < required {
                        r == Err::<usize, Error>(
                            Error::OutputBufferTooSmall {
                                size: old(out)@.len() as usize,
                                required: required as usize,
                            },
                        ) && final(out)@ == old(out)@
                    } else {
                        r == Ok::<usize, Error>(enc.len() as usize) && final(out)@ == enc + old(
                            out,
                        )@.skip(enc.len() as int)
                    }
                },
            }
        }),
{
    let encoder = match canonical_encoder(data, width, height, channels, colorspace) {
        Ok(e) => e,
        Err(e) => { return Err(e) },
    };
    encoder.encode_to_buf(out)
}

} // verus!
