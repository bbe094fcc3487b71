//! Opcode tags, masks and fixed sizes of the QOI wire format.

use vstd::prelude::*;

verus! {

/// Tag of the INDEX opcode (two high bits `00`).
pub const QOI_OP_INDEX: u8 = 0x00;

/// Tag of the DIFF opcode (two high bits `01`).
pub const QOI_OP_DIFF: u8 = 0x40;

/// Tag of the LUMA opcode (two high bits `10`).
pub const QOI_OP_LUMA: u8 = 0x80;

/// Tag of the RUN opcode (two high bits `11`, payload 0..=61).
pub const QOI_OP_RUN: u8 = 0xC0;

/// Tag of the RGB opcode (one full byte).
pub const QOI_OP_RGB: u8 = 0xFE;

/// Tag of the RGBA opcode (one full byte).
pub const QOI_OP_RGBA: u8 = 0xFF;

/// Mask of the two tag bits.
pub const QOI_MASK_2: u8 = 0xC0;

/// Size of the encoded header in bytes.
pub const QOI_HEADER_SIZE: usize = 14;

/// Size of the end-marker in bytes.
pub const QOI_PADDING_SIZE: usize = 8;

/// The four magic bytes `qoif`, read as a big-endian `u32`.
pub const QOI_MAGIC: u32 = 0x716F_6966;

/// Largest number of pixels an image may have.
pub const QOI_PIXELS_MAX: usize = 400_000_000;

/// The 8-byte end-marker: seven zero bytes followed by `0x01`.
pub open spec fn spec_padding() -> Seq<u8> {
    seq![0u8, 0u8, 0u8, 0u8, 0u8, 0u8, 0u8, 1u8]
}

/// Returns the 8-byte end-marker.
pub fn padding_bytes() -> (r: Vec<u8>)
    ensures
        r@ == spec_padding(),
{
    let mut r: Vec<u8> = Vec::new();
    r.push(0);
    r.push(0);
    r.push(0);
    r.push(0);
    r.push(0);
    r.push(0);
    r.push(0);
    r.push(1);
    proof {
        assert(r@ =~= spec_padding());
    }
    r
}

} // verus!
