//! Encoder and decoder for the QOI ("Quite OK Image") lossless image format.
//!
//! The codec is a byte-level state machine over six opcode classes (INDEX,
//! DIFF, LUMA, RUN, RGB, RGBA), a 64-entry pixel cache and a running
//! "previous pixel" register.  Encoding and decoding are specified by pure
//! functions over byte and pixel sequences, and the executable code is
//! verified against those functions; a round-trip theorem shows that decoding
//! an encoded image returns the original pixels.

use vstd::prelude::*;

pub mod canonical;
pub mod consts;
pub mod decode;
pub mod encode;
pub mod error;
pub mod header;
pub mod pixel;
pub mod props;
pub mod types;
pub mod utils;

pub use crate::canonical::{qoi_encode_to_buf, qoi_encode_to_vec};
pub use crate::decode::{
    qoi_decode_header, qoi_decode_to_buf, qoi_decode_to_vec, QoiDecoder, QoiStreamDecoder,
};
pub use crate::encode::{encode_max_len, encode_to_buf, encode_to_vec, Encoder, EncoderBuilder};
pub use crate::error::Error;
pub use crate::header::Header;
pub use crate::pixel::{Pixel, SupportedChannels};
pub use crate::types::{Channels, ColorSpace, SourceChannels};
pub use crate::utils::{ByteRead, BytesMut, SliceReader, Writer};

verus! {

} // verus!
