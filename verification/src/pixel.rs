//! Pixel values and their wrapping 8-bit arithmetic.
//!
//! A pixel always carries four channels.  Three-channel images are handled by
//! keeping the alpha channel at `0xFF` from the moment a pixel is read, so the
//! codec state machine can work on one pixel type for both channel counts.

use vstd::prelude::*;

verus! {

/// Wrapping addition on bytes, as a spec-level shorthand.
pub open spec fn wadd(x: u8, y: u8) -> u8 {
    vstd::wrapping::u8_specs::wrapping_add(x, y)
}

/// Wrapping subtraction on bytes, as a spec-level shorthand.
pub open spec fn wsub(x: u8, y: u8) -> u8 {
    vstd::wrapping::u8_specs::wrapping_sub(x, y)
}

/// Wrapping multiplication on bytes, as a spec-level shorthand.
pub open spec fn wmul(x: u8, y: u8) -> u8 {
    vstd::wrapping::u8_specs::wrapping_mul(x, y)
}

/// One image pixel: red, green, blue and alpha, 8 bits each.
#[derive(Copy, Clone, PartialEq, Eq, Structural, Debug)]
pub struct Pixel {
    pub r: u8,
    pub g: u8,
    pub b: u8,
    pub a: u8,
}

/// Position of a pixel in the 64-entry cache:
/// `(r*3 + g*5 + b*7 + a*11) mod 64`, every product and sum wrapping mod 256.
pub open spec fn spec_hash(p: Pixel) -> u8 {
    wadd(wadd(wadd(wmul(p.r, 3), wmul(p.g, 5)), wmul(p.b, 7)), wmul(p.a, 11)) % 64
}

/// The pixel a DIFF opcode byte produces from the previous pixel: each colour
/// channel moves by the biased two-bit delta stored in the byte, wrapping;
/// alpha is unchanged.
pub open spec fn spec_diff_px(p: Pixel, b1: u8) -> Pixel {
    Pixel {
        r: wadd(p.r, wsub((b1 >> 4u8) & 3, 2)),
        g: wadd(p.g, wsub((b1 >> 2u8) & 3, 2)),
        b: wadd(p.b, wsub(b1 & 3, 2)),
        a: p.a,
    }
}

/// The pixel a LUMA opcode pair produces from the previous pixel: the first
/// byte stores the biased six-bit green delta, the second byte the biased
/// four-bit red and blue deltas relative to the green delta; alpha unchanged.
pub open spec fn spec_luma_px(p: Pixel, b1: u8, b2: u8) -> Pixel {
    let vg = wsub(b1 & 0x3F, 32);
    Pixel {
        r: wadd(p.r, wadd(wsub(vg, 8), b2 >> 4u8)),
        g: wadd(p.g, vg),
        b: wadd(p.b, wadd(wsub(vg, 8), b2 & 0x0F)),
        a: p.a,
    }
}

impl Pixel {
    /// The all-zero pixel, alpha included.
    pub fn new() -> (r: Self)
        ensures
            r == (Pixel { r: 0u8, g: 0u8, b: 0u8, a: 0u8 }),
    {
        Pixel { r: 0, g: 0, b: 0, a: 0 }
    }

    /// Reads the first `n` bytes of `s` into the pixel, in R, G, B, A order.
    /// With `n == 3` the alpha channel keeps its previous value.
    pub fn read(&mut self, s: &Vec<u8>, n: usize)
        requires
            n == 3 || n == 4,
            s@.len() >= n,
        ensures
            final(self).r == s@[0] && final(self).g == s@[1] && final(self).b == s@[2],
            final(self).a == if n == 4 {
                s@[3]
            } else {
                old(self).a
            },
    {
        self.r = s[0];
        self.g = s[1];
        self.b = s[2];
        if n == 4 {
            self.a = s[3];
        }
    }

    /// The pixel as a full four-channel value: with `n == 3` the alpha is
    /// replaced by `with_a`, with `n == 4` the pixel is returned as is.
    pub fn as_rgba(self, n: usize, with_a: u8) -> (r: Self)
        requires
            n == 3 || n == 4,
        ensures
            r.r == self.r && r.g == self.g && r.b == self.b,
            r.a == if n == 3 {
                with_a
            } else {
                self.a
            },
    {
        if n == 3 {
            Pixel { a: with_a, ..self }
        } else {
            self
        }
    }

    /// Builds a four-channel pixel from the colour channels of `px` and the
    /// alpha `with_a`.
    pub fn from_rgb(px: Pixel, with_a: u8) -> (r: Self)
        ensures
            r == (Pixel { r: px.r, g: px.g, b: px.b, a: with_a }),
    {
        Pixel { r: px.r, g: px.g, b: px.b, a: with_a }
    }

    /// Builds a pixel from a four-byte array in R, G, B, A order.
    pub fn from_array(arr: [u8; 4]) -> (r: Self)
        ensures
            r == (Pixel { r: arr@[0], g: arr@[1], b: arr@[2], a: arr@[3] }),
    {
        Pixel { r: arr[0], g: arr[1], b: arr[2], a: arr[3] }
    }

    /// The red channel.
    pub fn r(self) -> (r: u8)
        ensures
            r == self.r,
    {
        self.r
    }

    /// The green channel.
    pub fn g(self) -> (r: u8)
        ensures
            r == self.g,
    {
        self.g
    }

    /// The blue channel.
    pub fn b(self) -> (r: u8)
        ensures
            r == self.b,
    {
        self.b
    }

    /// The pixel with its alpha channel replaced by `value`.
    pub fn with_a(self, value: u8) -> (r: Self)
        ensures
            r == (Pixel { a: value, ..self }),
    {
        Pixel { a: value, ..self }
    }

    /// The alpha channel.  The argument names the value a three-channel
    /// source would synthesize; pixels of such sources already carry it.
    pub fn a_or(self, value: u8) -> (r: u8)
        ensures
            r == self.a,
    {
        let _ = value;
        self.a
    }

    /// The pixel's slot in the 64-entry cache.
    pub fn hash_index(self) -> (r: u8)
        ensures
            r == spec_hash(self),
            r < 64,
    {
        let r = self.r.wrapping_mul(3);
        let g = self.g.wrapping_mul(5);
        let b = self.b.wrapping_mul(7);
        let a = self.a.wrapping_mul(11);
        r.wrapping_add(g).wrapping_add(b).wrapping_add(a) % 64
    }

    /// Adds the given deltas to the colour channels, wrapping mod 256;
    /// alpha is unchanged.
    pub fn rgb_add(&mut self, r: u8, g: u8, b: u8)
        ensures
            *final(self) == (Pixel {
                r: wadd(old(self).r, r),
                g: wadd(old(self).g, g),
                b: wadd(old(self).b, b),
                a: old(self).a,
            }),
    {
        self.r = self.r.wrapping_add(r);
        self.g = self.g.wrapping_add(g);
        self.b = self.b.wrapping_add(b);
    }

    /// Replaces the colour channels; alpha is unchanged.
    pub fn update_rgb(&mut self, r: u8, g: u8, b: u8)
        ensures
            *final(self) == (Pixel { r: r, g: g, b: b, a: old(self).a }),
    {
        self.r = r;
        self.g = g;
        self.b = b;
    }

    /// Replaces all four channels.
    pub fn update_rgba(&mut self, r: u8, g: u8, b: u8, a: u8)
        ensures
            *final(self) == (Pixel { r: r, g: g, b: b, a: a }),
    {
        self.r = r;
        self.g = g;
        self.b = b;
        self.a = a;
    }

    /// Applies a DIFF opcode byte to the pixel.
    pub fn update_diff(&mut self, b1: u8)
        ensures
            *final(self) == spec_diff_px(*old(self), b1),
    {
        let vr = ((b1 >> 4u8) & 0x03).wrapping_sub(2);
        let vg = ((b1 >> 2u8) & 0x03).wrapping_sub(2);
        let vb = (b1 & 0x03).wrapping_sub(2);
        self.rgb_add(vr, vg, vb);
    }

    /// Applies a LUMA opcode byte pair to the pixel.
    pub fn update_luma(&mut self, b1: u8, b2: u8)
        ensures
            *final(self) == spec_luma_px(*old(self), b1, b2),
    {
        let vg = (b1 & 0x3F).wrapping_sub(32);
        let vg_8 = vg.wrapping_sub(8);
        let vr = vg_8.wrapping_add(b2 >> 4u8);
        let vb = vg_8.wrapping_add(b2 & 0x0F);
        self.rgb_add(vr, vg, vb);
    }
}

/// Marker for the channel counts the codec supports.
pub trait SupportedChannels {

}

impl SupportedChannels for Pixel {

}

} // verus!
