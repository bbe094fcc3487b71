//! Encoder: from pixels to opcodes.
//!
//! The bytes an image encodes to are fixed by the spec-level machine
//! `enc_ops`: it walks the pixels, keeps the 64-entry pixel cache, the
//! previous pixel and the pending run, and emits opcodes by the fixed
//! priority INDEX, DIFF, LUMA, RGB/RGBA.  The executable encoder is verified
//! to produce exactly those bytes.

use vstd::prelude::*;

use crate::consts::{spec_padding, QOI_HEADER_SIZE, QOI_PADDING_SIZE, QOI_PIXELS_MAX};
use crate::decode::{init_index, init_px};
use crate::error::Error;
use crate::header::{spec_header_bytes, spec_header_valid, Header};
use crate::pixel::{spec_hash, wadd, wsub, Pixel};
use crate::types::{Channels, ColorSpace, SourceChannels};

verus! {

/// The opcode a pixel is written with when neither a run nor the cache
/// covers it: DIFF if all three colour deltas fit two biased bits, else
/// LUMA if the green delta fits six and the red and blue deltas relative to
/// green fit four, else RGB; a changed alpha always takes a full RGBA.
/// All deltas wrap mod 256.
pub open spec fn spec_enc_literal(prev: Pixel, px: Pixel) -> Seq<u8> {
    if px.a == prev.a {
        let dr = wsub(px.r, prev.r);
        let dg = wsub(px.g, prev.g);
        let db = wsub(px.b, prev.b);
        let dr2 = wadd(dr, 2);
        let dg2 = wadd(dg, 2);
        let db2 = wadd(db, 2);
        if dr2 <= 3 && dg2 <= 3 && db2 <= 3 {
            seq![0x40 | (dr2 << 4u8) | (dg2 << 2u8) | db2]
        } else {
            let dg32 = wadd(dg, 32);
            let drg = wadd(wsub(dr, dg), 8);
            let dbg = wadd(wsub(db, dg), 8);
            if dg32 <= 63 && drg <= 15 && dbg <= 15 {
                seq![0x80 | dg32, (drg << 4u8) | dbg]
            } else {
                seq![0xFEu8, px.r, px.g, px.b]
            }
        }
    } else {
        seq![0xFFu8, px.r, px.g, px.b, px.a]
    }
}

/// The encoding machine.  `i` is the next pixel, `ix` the cache, `prev` the
/// previous pixel, `run` the pending run length, `allowed` whether the
/// cache is known to hold `prev` at its hash slot (true once any opcode has
/// been emitted for a pixel), and `refmode` disables the one-pixel-run
/// INDEX rewrite so the output matches the reference encoder byte for byte.
#[verifier::opaque]
pub open spec fn enc_ops(
    pixels: Seq<Pixel>,
    i: int,
    ix: Seq<Pixel>,
    prev: Pixel,
    run: nat,
    allowed: bool,
    refmode: bool,
) -> Seq<u8>
    decreases pixels.len() - i,
{
    if !(0 <= i < pixels.len()) {
        Seq::empty()
    } else {
        let px = pixels[i];
        let last = i == pixels.len() - 1;
        if px == prev {
            if run + 1 == 62 || last {
                seq![(0xC0 + run) as u8] + enc_ops(pixels, i + 1, ix, prev, 0, allowed, refmode)
            } else {
                enc_ops(pixels, i + 1, ix, prev, run + 1, allowed, refmode)
            }
        } else {
            let flush: Seq<u8> = if run > 0 {
                if !refmode && run == 1 && allowed {
                    seq![spec_hash(prev)]
                } else {
                    seq![(0xC0 + (run - 1)) as u8]
                }
            } else {
                Seq::empty()
            };
            let h = spec_hash(px) as int;
            if ix[h] == px {
                (flush + seq![spec_hash(px)]) + enc_ops(pixels, i + 1, ix, px, 0, true, refmode)
            } else {
                (flush + spec_enc_literal(prev, px)) + enc_ops(
                    pixels,
                    i + 1,
                    ix.update(h, px),
                    px,
                    0,
                    true,
                    refmode,
                )
            }
        }
    }
}

/// The opcode stream of an image, from the initial cache and register.
pub open spec fn spec_encode_ops(pixels: Seq<Pixel>, refmode: bool) -> Seq<u8> {
    enc_ops(pixels, 0, init_index(), init_px(), 0, false, refmode)
}

/// A whole encoded image: header, opcodes, end-marker.
pub open spec fn spec_encode(h: Header, pixels: Seq<Pixel>, refmode: bool) -> Seq<u8> {
    spec_header_bytes(h) + spec_encode_ops(pixels, refmode) + spec_padding()
}

/// One unfolding of the encoding machine at a pixel position.
pub proof fn lemma_enc_unfold(
    pixels: Seq<Pixel>,
    i: int,
    ix: Seq<Pixel>,
    prev: Pixel,
    run: nat,
    allowed: bool,
    refmode: bool,
)
    requires
        0 <= i < pixels.len(),
    ensures
        ({
            let px = pixels[i];
            let last = i == pixels.len() - 1;
            enc_ops(pixels, i, ix, prev, run, allowed, refmode) == if px == prev {
                if run + 1 == 62 || last {
                    seq![(0xC0 + run) as u8] + enc_ops(pixels, i + 1, ix, prev, 0, allowed, refmode)
                } else {
                    enc_ops(pixels, i + 1, ix, prev, run + 1, allowed, refmode)
                }
            } else {
                let flush: Seq<u8> = if run > 0 {
                    if !refmode && run == 1 && allowed {
                        seq![spec_hash(prev)]
                    } else {
                        seq![(0xC0 + (run - 1)) as u8]
                    }
                } else {
                    Seq::empty()
                };
                let h = spec_hash(px) as int;
                if ix[h] == px {
                    (flush + seq![spec_hash(px)]) + enc_ops(pixels, i + 1, ix, px, 0, true, refmode)
                } else {
                    (flush + spec_enc_literal(prev, px)) + enc_ops(
                        pixels,
                        i + 1,
                        ix.update(h, px),
                        px,
                        0,
                        true,
                        refmode,
                    )
                }
            }
        }),
{
    reveal(enc_ops);
}

/// Past the last pixel the machine emits nothing.
pub proof fn lemma_enc_done(
    pixels: Seq<Pixel>,
    i: int,
    ix: Seq<Pixel>,
    prev: Pixel,
    run: nat,
    allowed: bool,
    refmode: bool,
)
    requires
        i >= pixels.len(),
    ensures
        enc_ops(pixels, i, ix, prev, run, allowed, refmode) == Seq::<u8>::empty(),
{
    reveal(enc_ops);
}

/// Emits the literal opcode for `px` after `prev`.
fn push_literal(out: &mut Vec<u8>, prev: Pixel, px: Pixel)
    ensures
        final(out)@ == old(out)@ + spec_enc_literal(prev, px),
{
    if px.a == prev.a {
        let dr = px.r.wrapping_sub(prev.r);
        let dg = px.g.wrapping_sub(prev.g);
        let db = px.b.wrapping_sub(prev.b);
        let dr2 = dr.wrapping_add(2);
        let dg2 = dg.wrapping_add(2);
        let db2 = db.wrapping_add(2);
        if dr2 <= 3 && dg2 <= 3 && db2 <= 3 {
            out.push(0x40 | (dr2 << 4u8) | (dg2 << 2u8) | db2);
        } else {
            let dg32 = dg.wrapping_add(32);
            let drg = dr.wrapping_sub(dg).wrapping_add(8);
            let dbg = db.wrapping_sub(dg).wrapping_add(8);
            if dg32 <= 63 && drg <= 15 && dbg <= 15 {
                out.push(0x80 | dg32);
                out.push((drg << 4u8) | dbg);
            } else {
                out.push(0xFE);
                out.push(px.r);
                out.push(px.g);
                out.push(px.b);
            }
        }
    } else {
        out.push(0xFF);
        out.push(px.r);
        out.push(px.g);
        out.push(px.b);
        out.push(px.a);
    }
    proof {
        assert(out@ =~= old(out)@ + spec_enc_literal(prev, px));
    }
}

/// Runs the encoding machine over `pixels` and appends the opcode stream
/// to `out`; `refmode` selects the reference encoder's exact byte choices.
pub fn encode_ops_into(pixels: &Vec<Pixel>, refmode: bool, out: &mut Vec<u8>)
    ensures
        final(out)@ == old(out)@ + spec_encode_ops(pixels@, refmode),
{
    let n = pixels.len();
    let mut ix: Vec<Pixel> = vec![Pixel { r: 0u8, g: 0u8, b: 0u8, a: 0u8 }; 64];
    let mut prev = Pixel { r: 0, g: 0, b: 0, a: 255 };
    let mut run: u8 = 0;
    let mut allowed = false;
    let mut i: usize = 0;
    proof {
        assert(ix@ =~= init_index());
    }
    while i < n
        invariant
            n == pixels@.len(),
            i <= n,
            ix@.len() == 64,
            run <= 61,
            out@ + enc_ops(pixels@, i as int, ix@, prev, run as nat, allowed, refmode) == old(
                out,
            )@ + spec_encode_ops(pixels@, refmode),
        decreases n - i,
    {
        let ghost pre_out = out@;
        let ghost pre_ix = ix@;
        let ghost pre_prev = prev;
        let ghost pre_run = run as nat;
        let ghost pre_allowed = allowed;
        let px = pixels[i];
        if px == prev {
            run = run + 1;
            if run == 62 || i == n - 1 {
                out.push(0xC0 + (run - 1));
                run = 0;
            }
        } else {
            if run > 0 {
                if !refmode && run == 1 && allowed {
                    let hp = prev.hash_index();
                    out.push(hp);
                } else {
                    out.push(0xC0 + (run - 1));
                }
                run = 0;
            }
            let h = px.hash_index();
            let cached = ix[h as usize];
            if cached == px {
                out.push(h);
            } else {
                ix[h as usize] = px;
                push_literal(out, prev, px);
            }
            prev = px;
            allowed = true;
        }
        proof {
            lemma_enc_unfold(pixels@, i as int, pre_ix, pre_prev, pre_run, pre_allowed, refmode);
            let rest = enc_ops(
                pixels@,
                i + 1,
                ix@,
                prev,
                run as nat,
                allowed,
                refmode,
            );
            assert(out@ + rest =~= pre_out + enc_ops(
                pixels@,
                i as int,
                pre_ix,
                pre_prev,
                pre_run,
                pre_allowed,
                refmode,
            ));
        }
        i = i + 1;
    }
    proof {
        lemma_enc_done(pixels@, n as int, ix@, prev, run as nat, allowed, refmode);
        assert(out@ + Seq::<u8>::empty() =~= out@);
    }
}

/// The pixel stored at byte offset `base` of the source buffer, reordered
/// from the source layout to canonical RGBA; layouts without an alpha
/// component synthesize alpha 255.
pub open spec fn spec_src_px(data: Seq<u8>, base: int, sc: SourceChannels) -> Pixel {
    match sc {
        SourceChannels::Rgb => Pixel {
            r: data[base],
            g: data[base + 1],
            b: data[base + 2],
            a: 255u8,
        },
        SourceChannels::Bgr => Pixel {
            r: data[base + 2],
            g: data[base + 1],
            b: data[base],
            a: 255u8,
        },
        SourceChannels::Rgba => Pixel {
            r: data[base],
            g: data[base + 1],
            b: data[base + 2],
            a: data[base + 3],
        },
        SourceChannels::Argb => Pixel {
            r: data[base + 1],
            g: data[base + 2],
            b: data[base + 3],
            a: data[base],
        },
        SourceChannels::Rgbx => Pixel {
            r: data[base],
            g: data[base + 1],
            b: data[base + 2],
            a: 255u8,
        },
        SourceChannels::Xrgb => Pixel {
            r: data[base + 1],
            g: data[base + 2],
            b: data[base + 3],
            a: 255u8,
        },
        SourceChannels::Bgra => Pixel {
            r: data[base + 2],
            g: data[base + 1],
            b: data[base],
            a: data[base + 3],
        },
        SourceChannels::Abgr => Pixel {
            r: data[base + 3],
            g: data[base + 2],
            b: data[base + 1],
            a: data[base],
        },
        SourceChannels::Bgrx => Pixel {
            r: data[base + 2],
            g: data[base + 1],
            b: data[base],
            a: 255u8,
        },
        SourceChannels::Xbgr => Pixel {
            r: data[base + 3],
            g: data[base + 2],
            b: data[base + 1],
            a: 255u8,
        },
    }
}

/// The canonical pixel sequence of an image stored with the given width,
/// height, row stride and source layout.
pub open spec fn spec_image_pixels(
    data: Seq<u8>,
    w: int,
    h: int,
    stride: int,
    sc: SourceChannels,
) -> Seq<Pixel> {
    Seq::new(
        (w * h) as nat,
        |k: int| spec_src_px(data, (k / w) * stride + (k % w) * sc.spec_bytes_per_pixel(), sc),
    )
}

/// Layouts without an alpha component only produce pixels with alpha 255.
pub proof fn lemma_rgb_pixels_opaque(data: Seq<u8>, w: int, h: int, stride: int, sc: SourceChannels)
    requires
        sc.spec_image_channels() == Channels::Rgb,
    ensures
        forall|k: int|
            0 <= k < spec_image_pixels(data, w, h, stride, sc).len() ==> #[trigger] spec_image_pixels(
                data,
                w,
                h,
                stride,
                sc,
            )[k].a == 255,
{
}

/// Reads the pixel at byte offset `base`.
fn read_src_px(data: &Vec<u8>, base: usize, sc: SourceChannels) -> (r: Pixel)
    requires
        base + sc.spec_bytes_per_pixel() <= data@.len(),
    ensures
        r == spec_src_px(data@, base as int, sc),
{
    let l = data.len();
    match sc {
        SourceChannels::Rgb => Pixel { r: data[base], g: data[base + 1], b: data[base + 2], a: 255 },
        SourceChannels::Bgr => Pixel { r: data[base + 2], g: data[base + 1], b: data[base], a: 255 },
        SourceChannels::Rgba => Pixel {
            r: data[base],
            g: data[base + 1],
            b: data[base + 2],
            a: data[base + 3],
        },
        SourceChannels::Argb => Pixel {
            r: data[base + 1],
            g: data[base + 2],
            b: data[base + 3],
            a: data[base],
        },
        SourceChannels::Rgbx => Pixel {
            r: data[base],
            g: data[base + 1],
            b: data[base + 2],
            a: 255,
        },
        SourceChannels::Xrgb => Pixel {
            r: data[base + 1],
            g: data[base + 2],
            b: data[base + 3],
            a: 255,
        },
        SourceChannels::Bgra => Pixel {
            r: data[base + 2],
            g: data[base + 1],
            b: data[base],
            a: data[base + 3],
        },
        SourceChannels::Abgr => Pixel {
            r: data[base + 3],
            g: data[base + 2],
            b: data[base + 1],
            a: data[base],
        },
        SourceChannels::Bgrx => Pixel {
            r: data[base + 2],
            g: data[base + 1],
            b: data[base],
            a: 255,
        },
        SourceChannels::Xbgr => Pixel {
            r: data[base + 3],
            g: data[base + 2],
            b: data[base + 1],
            a: 255,
        },
    }
}

/// Reads all pixels of the image, row by row, converting each from the
/// source layout to canonical RGBA.
fn read_pixels(data: &Vec<u8>, width: usize, height: usize, stride: usize, sc: SourceChannels)
    -> (r: Vec<Pixel>)
    requires
        width >= 1,
        height >= 1,
        width * height <= QOI_PIXELS_MAX,
        (height - 1) * stride + width * sc.spec_bytes_per_pixel() <= data@.len(),
    ensures
        r@ == spec_image_pixels(
            data@,
            width as int,
            height as int,
            stride as int,
            sc,
        ),
{
    let ghost target = spec_image_pixels(data@, width as int, height as int, stride as int, sc);
    let bpp = sc.bytes_per_pixel();
    let mut pixels: Vec<Pixel> = Vec::new();
    let total = data.len();
    let mut y: usize = 0;
    while y < height
        invariant
            width >= 1,
            height >= 1,
            y <= height,
            bpp == sc.spec_bytes_per_pixel(),
            width * height <= QOI_PIXELS_MAX,
            (height - 1) * stride + width * bpp <= total,
            total == data@.len(),
            target == spec_image_pixels(data@, width as int, height as int, stride as int, sc),
            pixels@.len() == y * width,
            forall|k: int| 0 <= k < pixels@.len() ==> pixels@[k] == target[k],
        decreases height - y,
    {
        proof {
            vstd::arithmetic::mul::lemma_mul_inequality(y as int, height - 1, stride as int);
            vstd::arithmetic::mul::lemma_mul_inequality(
                (y + 1) as int,
                height as int,
                width as int,
            );
            vstd::arithmetic::mul::lemma_mul_is_commutative(width as int, height as int);
        }
        let row = y * stride;
        let mut x: usize = 0;
        while x < width
            invariant
                width >= 1,
                x <= width,
                y < height,
                bpp == sc.spec_bytes_per_pixel(),
                row == y * stride,
                row + width * bpp <= total,
                (y + 1) * width <= width * height,
                width * height <= QOI_PIXELS_MAX,
                total == data@.len(),
                target == spec_image_pixels(data@, width as int, height as int, stride as int, sc),
                pixels@.len() == y * width + x,
                forall|k: int| 0 <= k < pixels@.len() ==> pixels@[k] == target[k],
            decreases width - x,
        {
            proof {
                vstd::arithmetic::mul::lemma_mul_inequality((x + 1) as int, width as int, bpp as int);
                vstd::arithmetic::mul::lemma_mul_is_distributive_add_other_way(
                    bpp as int,
                    x as int,
                    1,
                );
                vstd::arithmetic::mul::lemma_mul_is_distributive_add_other_way(
                    width as int,
                    y as int,
                    1,
                );
            }
            let base = row + x * bpp;
            let px = read_src_px(data, base, sc);
            pixels.push(px);
            proof {
                let k = y * width + x;
                vstd::arithmetic::div_mod::lemma_fundamental_div_mod_converse(
                    k as int,
                    width as int,
                    y as int,
                    x as int,
                );
                assert(target[k as int] == px);
            }
            x = x + 1;
        }
        proof {
            vstd::arithmetic::mul::lemma_mul_is_distributive_add_other_way(
                width as int,
                y as int,
                1,
            );
        }
        y = y + 1;
    }
    proof {
        vstd::arithmetic::mul::lemma_mul_is_commutative(width as int, height as int);
        assert(pixels@ =~= target);
    }
    pixels
}

/// Worst case size of the encoded image: header, one literal opcode of
/// `channels + 1` bytes per pixel, end-marker.
pub open spec fn spec_encode_max_len(width: u32, height: u32, channels: u8) -> int {
    QOI_HEADER_SIZE + width * height * (channels + 1) + QOI_PADDING_SIZE
}

/// The maximum number of bytes the encoded image will take; the value is
/// clamped at `usize::MAX` for sizes no buffer could hold anyway.
///
/// Can be used to pre-allocate the buffer to encode the image into.
pub fn encode_max_len(width: u32, height: u32, channels: u8) -> (r: usize)
    ensures
        r == if spec_encode_max_len(width, height, channels) <= usize::MAX {
            spec_encode_max_len(width, height, channels)
        } else {
            usize::MAX as int
        },
{
    proof {
        vstd::arithmetic::mul::lemma_mul_upper_bound(
            width as int,
            0xFFFF_FFFF,
            height as int,
            0xFFFF_FFFF,
        );
        vstd::arithmetic::mul::lemma_mul_upper_bound(
            (width as int) * (height as int),
            0xFFFF_FFFFint * 0xFFFF_FFFFint,
            channels as int + 1,
            256,
        );
        vstd::arithmetic::mul::lemma_mul_nonnegative(width as int, height as int);
        vstd::arithmetic::mul::lemma_mul_nonnegative(
            (width as int) * (height as int),
            channels as int + 1,
        );
    }
    let t: u128 = (QOI_HEADER_SIZE + QOI_PADDING_SIZE) as u128 + (width as u128) * (height as u128)
        * ((channels as u128) + 1);
    if t > usize::MAX as u128 {
        usize::MAX
    } else {
        t as usize
    }
}

/// Every literal opcode is at most five bytes, and at most four when the
/// alpha channel is unchanged.
proof fn lemma_literal_len(prev: Pixel, px: Pixel)
    ensures
        spec_enc_literal(prev, px).len() <= 5,
        px.a == prev.a ==> spec_enc_literal(prev, px).len() <= 4,
{
}

/// The opcode stream takes at most `channels + 1` bytes per remaining
/// pixel, plus one byte for a pending run; `b` is `channels + 1`.  A
/// three-channel image never needs the five-byte RGBA opcode because all
/// its pixels carry alpha 255.
pub proof fn lemma_enc_ops_len(
    pixels: Seq<Pixel>,
    i: int,
    ix: Seq<Pixel>,
    prev: Pixel,
    run: nat,
    allowed: bool,
    refmode: bool,
    b: int,
)
    requires
        0 <= i <= pixels.len(),
        b == 4 || b == 5,
        b == 4 ==> prev.a == 255 && (forall|k: int| i <= k < pixels.len() ==> pixels[k].a == 255),
    ensures
        enc_ops(pixels, i, ix, prev, run, allowed, refmode).len() <= (pixels.len() - i) * b + if run
            > 0 {
            1int
        } else {
            0int
        },
    decreases pixels.len() - i,
{
    if i >= pixels.len() {
        lemma_enc_done(pixels, i, ix, prev, run, allowed, refmode);
        assert((pixels.len() - i) * b == 0) by {
            if b == 4 {
            } else {
            }
        }
    } else {
        lemma_enc_unfold(pixels, i, ix, prev, run, allowed, refmode);
        assert((pixels.len() - (i + 1)) * b + b == (pixels.len() - i) * b) by {
            if b == 4 {
            } else {
            }
        }
        let px = pixels[i];
        let last = i == pixels.len() - 1;
        if px == prev {
            if run + 1 == 62 || last {
                lemma_enc_ops_len(pixels, i + 1, ix, prev, 0, allowed, refmode, b);
            } else {
                lemma_enc_ops_len(pixels, i + 1, ix, prev, run + 1, allowed, refmode, b);
            }
        } else {
            let h = spec_hash(px) as int;
            lemma_literal_len(prev, px);
            if ix[h] == px {
                lemma_enc_ops_len(pixels, i + 1, ix, px, 0, true, refmode, b);
            } else {
                lemma_enc_ops_len(pixels, i + 1, ix.update(h, px), px, 0, true, refmode, b);
            }
        }
    }
}

/// The encoded image never exceeds the advertised maximum length.
pub proof fn lemma_encode_len(h: Header, pixels: Seq<Pixel>, refmode: bool)
    requires
        pixels.len() == h.width * h.height,
        h.channels == Channels::Rgb ==> forall|k: int| 0 <= k < pixels.len() ==> pixels[k].a == 255,
    ensures
        spec_encode(h, pixels, refmode).len() <= spec_encode_max_len(
            h.width,
            h.height,
            h.channels.spec_as_u8(),
        ),
{
    let b: int = h.channels.spec_as_u8() + 1;
    lemma_enc_ops_len(pixels, 0, init_index(), init_px(), 0, false, refmode, b);
}

/// Everything `EncoderBuilder::build` decides: the effective stride, the
/// effective source layout and the validated header, or the error.
///
/// With no stride given, the stride is the buffer length divided by the
/// height, and the buffer length must be exactly `width * height` source
/// pixels.  With a stride given, a row must fit in it and the buffer must
/// hold exactly `height - 1` strides plus one row.  With no source layout
/// given, three-byte rows mean RGB and anything else RGBA.
pub open spec fn spec_build(
    size: nat,
    width: u32,
    height: u32,
    stride_o: Option<usize>,
    sc_o: Option<SourceChannels>,
    cs_o: Option<ColorSpace>,
) -> Result<(usize, SourceChannels, Header), Error> {
    if stride_o is None && height == 0 {
        Err(Error::InvalidImageLength { size: size as usize, width, height })
    } else {
        let stride: usize = if stride_o is Some {
            stride_o->0
        } else {
            (size as int / height as int) as usize
        };
        let sc = if sc_o is Some {
            sc_o->0
        } else if stride == width * 3 {
            SourceChannels::Rgb
        } else {
            SourceChannels::Rgba
        };
        let bpp = sc.spec_bytes_per_pixel() as int;
        let cs = if cs_o is Some {
            cs_o->0
        } else {
            ColorSpace::Srgb
        };
        if stride_o is None {
            if size != width * height * bpp {
                Err(Error::InvalidImageLength { size: size as usize, width, height })
            } else {
                match crate::header::spec_header_new(width, height, sc.spec_image_channels(), cs) {
                    Ok(h) => Ok((stride, sc, h)),
                    Err(e) => Err(e),
                }
            }
        } else {
            if stride < width * bpp {
                Err(Error::InvalidImageStride { size: size as usize, width, height, stride })
            } else if height == 0 {
                Err(Error::EmptyImage { width, height })
            } else if stride * (height - 1) + width * bpp != size {
                Err(Error::InvalidImageStride { size: size as usize, width, height, stride })
            } else {
                match crate::header::spec_header_new(width, height, sc.spec_image_channels(), cs) {
                    Ok(h) => Ok((stride, sc, h)),
                    Err(e) => Err(e),
                }
            }
        }
    }
}

/// What must hold of the buffer, dimensions, stride and layout for the
/// encoder to read every pixel in bounds.
pub open spec fn spec_encoder_ready(
    size: int,
    width: int,
    height: int,
    stride: int,
    sc: SourceChannels,
) -> bool {
    &&& 1 <= width
    &&& 1 <= height
    &&& width * height <= QOI_PIXELS_MAX
    &&& (height - 1) * stride + width * sc.spec_bytes_per_pixel() <= size
}

/// A builder for creating an encoder.
pub struct EncoderBuilder<'a> {
    data: &'a Vec<u8>,
    width: u32,
    height: u32,
    stride: Option<usize>,
    source_channels: Option<SourceChannels>,
    colorspace: Option<ColorSpace>,
}

impl<'a> EncoderBuilder<'a> {
    /// The buffer the encoder will read.
    pub closed spec fn spec_data(&self) -> Seq<u8> {
        self.data@
    }

    /// The builder's settings: width, height, stride, source layout,
    /// color space.
    pub closed spec fn spec_settings(&self) -> (
        u32,
        u32,
        Option<usize>,
        Option<SourceChannels>,
        Option<ColorSpace>,
    ) {
        (self.width, self.height, self.stride, self.source_channels, self.colorspace)
    }

    /// Creates a new encoder builder from a given array of pixel data and
    /// image dimensions.
    pub fn new(data: &'a Vec<u8>, width: u32, height: u32) -> (r: Self)
        ensures
            r.spec_data() == data@,
            r.spec_settings() == (
                width,
                height,
                Option::<usize>::None,
                Option::<SourceChannels>::None,
                Option::<ColorSpace>::None,
            ),
    {
        EncoderBuilder { data, width, height, stride: None, source_channels: None, colorspace: None }
    }

    /// Sets the stride of the pixel data.
    pub fn stride(self, stride: usize) -> (r: Self)
        ensures
            r.spec_data() == self.spec_data(),
            r.spec_settings() == (
                self.spec_settings().0,
                self.spec_settings().1,
                Some(stride),
                self.spec_settings().3,
                self.spec_settings().4,
            ),
    {
        EncoderBuilder { stride: Some(stride), ..self }
    }

    /// Sets the input format of the pixel data.
    pub fn source_channels(self, source_channels: SourceChannels) -> (r: Self)
        ensures
            r.spec_data() == self.spec_data(),
            r.spec_settings() == (
                self.spec_settings().0,
                self.spec_settings().1,
                self.spec_settings().2,
                Some(source_channels),
                self.spec_settings().4,
            ),
    {
        EncoderBuilder { source_channels: Some(source_channels), ..self }
    }

    /// Sets the color space.
    pub fn colorspace(self, colorspace: ColorSpace) -> (r: Self)
        ensures
            r.spec_data() == self.spec_data(),
            r.spec_settings() == (
                self.spec_settings().0,
                self.spec_settings().1,
                self.spec_settings().2,
                self.spec_settings().3,
                Some(colorspace),
            ),
    {
        EncoderBuilder { colorspace: Some(colorspace), ..self }
    }

    /// Validates the settings against the buffer and builds the encoder.
    pub fn build(self) -> (r: Result<Encoder<'a>, Error>)
        ensures
            ({
                let s = self.spec_settings();
                match spec_build(self.spec_data().len(), s.0, s.1, s.2, s.3, s.4) {
                    Ok(t) => r matches Ok(e) && e.spec_data() == self.spec_data()
                        && e.spec_stride() == t.0 && e.spec_source_channels() == t.1
                        && e.spec_header() == t.2 && !e.spec_reference(),
                    Err(er) => r matches Err(er2) && er2 == er,
                }
            }),
    {
        let size = self.data.len();
        let no_stride = self.stride.is_none();
        if no_stride && self.height == 0 {
            return Err(
                Error::InvalidImageLength { size, width: self.width, height: self.height },
            );
        }
        let stride: usize = match self.stride {
            Some(s) => s,
            None => size / (self.height as usize),
        };
        let sc = match self.source_channels {
            Some(s) => s,
            None => if stride as u128 == (self.width as u128) * 3 {
                SourceChannels::Rgb
            } else {
                SourceChannels::Rgba
            },
        };
        let bpp = sc.bytes_per_pixel();
        let cs = match self.colorspace {
            Some(c) => c,
            None => ColorSpace::Srgb,
        };
        proof {
            vstd::arithmetic::mul::lemma_mul_upper_bound(
                self.width as int,
                0xFFFF_FFFFint,
                self.height as int,
                0xFFFF_FFFFint,
            );
            vstd::arithmetic::mul::lemma_mul_nonnegative(self.width as int, self.height as int);
            vstd::arithmetic::mul::lemma_mul_upper_bound(
                (self.width as int) * (self.height as int),
                0xFFFF_FFFFint * 0xFFFF_FFFFint,
                bpp as int,
                4int,
            );
            if self.height >= 1 {
                vstd::arithmetic::mul::lemma_mul_upper_bound(
                    stride as int,
                    0xFFFF_FFFF_FFFF_FFFFint,
                    (self.height as int) - 1,
                    0xFFFF_FFFFint,
                );
            }
            vstd::arithmetic::mul::lemma_mul_upper_bound(
                self.width as int,
                0xFFFF_FFFFint,
                bpp as int,
                4int,
            );
        }
        if no_stride {
            if size as u128 != (self.width as u128) * (self.height as u128) * (bpp as u128) {
                return Err(
                    Error::InvalidImageLength { size, width: self.width, height: self.height },
                );
            }
        } else {
            if (stride as u128) < (self.width as u128) * (bpp as u128) {
                return Err(
                    Error::InvalidImageStride {
                        size,
                        width: self.width,
                        height: self.height,
                        stride,
                    },
                );
            }
            if self.height == 0 {
                return Err(Error::EmptyImage { width: self.width, height: self.height });
            }
            if (stride as u128) * ((self.height - 1) as u128) + (self.width as u128) * (
            bpp as u128) != size as u128 {
                return Err(
                    Error::InvalidImageStride {
                        size,
                        width: self.width,
                        height: self.height,
                        stride,
                    },
                );
            }
        }
        let header = match Header::try_new(self.width, self.height, sc.image_channels(), cs) {
            Ok(h) => h,
            Err(e) => { return Err(e) },
        };
        proof {
            if no_stride {
                vstd::arithmetic::div_mod::lemma_div_multiples_vanish(
                    (self.width as int) * (bpp as int),
                    self.height as int,
                );
                assert((self.width as int) * (self.height as int) * (bpp as int) == (
                self.height as int) * ((self.width as int) * (bpp as int)))
                    by (nonlinear_arith);
                assert(stride == self.width * bpp);
                assert(((self.height as int) - 1) * (stride as int) + (self.width as int) * (
                bpp as int) <= size) by (nonlinear_arith)
                    requires
                        size == (self.height as int) * (stride as int),
                        stride == (self.width as int) * (bpp as int),
                        self.height >= 1,
                ;
            }
        }
        Ok(
            Encoder {
                data: self.data,
                stride,
                source_channels: sc,
                header,
                reference: false,
            },
        )
    }
}

/// Encodes QOI images into buffers or byte vectors.
pub struct Encoder<'a> {
    data: &'a Vec<u8>,
    stride: usize,
    source_channels: SourceChannels,
    header: Header,
    reference: bool,
}

impl<'a> Encoder<'a> {
    /// The buffer, dimensions, stride and layout always let every pixel be
    /// read in bounds, and the header channel count matches the layout.
    #[verifier::type_invariant]
    closed spec fn type_inv(self) -> bool {
        &&& spec_header_valid(self.header)
        &&& spec_encoder_ready(
            self.data@.len() as int,
            self.header.width as int,
            self.header.height as int,
            self.stride as int,
            self.source_channels,
        )
        &&& self.header.channels == self.source_channels.spec_image_channels()
    }

    /// The source buffer.
    pub closed spec fn spec_data(&self) -> Seq<u8> {
        self.data@
    }

    /// The effective row stride.
    pub closed spec fn spec_stride(&self) -> usize {
        self.stride
    }

    /// The effective source layout.
    pub closed spec fn spec_source_channels(&self) -> SourceChannels {
        self.source_channels
    }

    /// The header that will be stored in the encoded image.
    pub closed spec fn spec_header(&self) -> Header {
        self.header
    }

    /// Whether the encoder is in reference mode.
    pub closed spec fn spec_reference(&self) -> bool {
        self.reference
    }

    /// The canonical pixel sequence the encoder reads from its buffer.
    pub open spec fn spec_pixels(&self) -> Seq<Pixel> {
        spec_image_pixels(
            self.spec_data(),
            self.spec_header().width as int,
            self.spec_header().height as int,
            self.spec_stride() as int,
            self.spec_source_channels(),
        )
    }

    /// Creates a new encoder from a given array of pixel data and image
    /// dimensions; the data must be tightly packed rows in RGB(A) order.
    ///
    /// The number of channels is inferred from the buffer size and the
    /// color space defaults to sRGB.
    pub fn new(data: &'a Vec<u8>, width: u32, height: u32) -> (r: Result<Self, Error>)
        ensures
            ({
                match spec_build(
                    data@.len(),
                    width,
                    height,
                    Option::<usize>::None,
                    Option::<SourceChannels>::None,
                    Option::<ColorSpace>::None,
                ) {
                    Ok(t) => r matches Ok(e) && e.spec_data() == data@ && e.spec_stride() == t.0
                        && e.spec_source_channels() == t.1 && e.spec_header() == t.2
                        && !e.spec_reference(),
                    Err(er) => r matches Err(er2) && er2 == er,
                }
            }),
    {
        EncoderBuilder::new(data, width, height).build()
    }

    /// The encoder with its color space replaced.
    ///
    /// The color space does not affect the encoded pixel bytes; it is an
    /// informative field of the header.
    pub fn with_colorspace(self, colorspace: ColorSpace) -> (r: Self)
        ensures
            r.spec_data() == self.spec_data(),
            r.spec_stride() == self.spec_stride(),
            r.spec_source_channels() == self.spec_source_channels(),
            r.spec_header() == (Header { colorspace, ..self.spec_header() }),
            r.spec_reference() == self.spec_reference(),
    {
        proof {
            use_type_invariant(&self);
        }
        let Encoder { data, stride, source_channels, header, reference } = self;
        Encoder { data, stride, source_channels, header: header.with_colorspace(colorspace), reference }
    }

    /// The encoder with its reference mode set.  In reference mode the
    /// output is exactly the reference encoder's: a one-pixel run is never
    /// rewritten as an INDEX opcode.
    pub fn with_reference(self, reference: bool) -> (r: Self)
        ensures
            r.spec_data() == self.spec_data(),
            r.spec_stride() == self.spec_stride(),
            r.spec_source_channels() == self.spec_source_channels(),
            r.spec_header() == self.spec_header(),
            r.spec_reference() == reference,
    {
        proof {
            use_type_invariant(&self);
        }
        let Encoder { data, stride, source_channels, header, reference: _ } = self;
        Encoder { data, stride, source_channels, header, reference }
    }

    /// The channel count of the image.
    pub fn channels(&self) -> (r: Channels)
        ensures
            r == self.spec_header().channels,
    {
        self.header.channels
    }

    /// The header that will be stored in the encoded image.
    pub fn header(&self) -> (r: &Header)
        ensures
            *r == self.spec_header(),
            spec_header_valid(*r),
    {
        proof {
            use_type_invariant(self);
        }
        &self.header
    }

    /// The buffer size that encoding is guaranteed to fit in.
    pub fn required_buf_len(&self) -> (r: usize)
        ensures
            r == spec_encode_max_len(
                self.spec_header().width,
                self.spec_header().height,
                self.spec_header().channels.spec_as_u8(),
            ),
    {
        proof {
            use_type_invariant(self);
        }
        self.header.encoded_size_limit()
    }

    /// Encodes the image into a newly allocated byte vector.
    pub fn encode_to_vec(&self) -> (r: Result<Vec<u8>, Error>)
        ensures
            r matches Ok(v) && v@ == spec_encode(
                self.spec_header(),
                self.spec_pixels(),
                self.spec_reference(),
            ),
    {
        proof {
            use_type_invariant(self);
        }
        let pixels = read_pixels(
            self.data,
            self.header.width as usize,
            self.header.height as usize,
            self.stride,
            self.source_channels,
        );
        let mut out = self.header.encode();
        encode_ops_into(&pixels, self.reference, &mut out);
        let mut pad = crate::consts::padding_bytes();
        out.append(&mut pad);
        proof {
            assert(out@ =~= spec_encode(self.spec_header(), self.spec_pixels(), self.reference));
        }
        Ok(out)
    }

    /// Encodes the image into the front of `buf`, leaving the rest of the
    /// buffer unchanged, and returns the number of bytes written.
    ///
    /// The buffer must hold at least [`Encoder::required_buf_len`] bytes.
    pub fn encode_to_buf(&self, buf: &mut Vec<u8>) -> (r: Result<usize, Error>)
        ensures
            ({
                let required = spec_encode_max_len(
                    self.spec_header().width,
                    self.spec_header().height,
                    self.spec_header().channels.spec_as_u8(),
                );
                let enc = spec_encode(
                    self.spec_header(),
                    self.spec_pixels(),
                    self.spec_reference(),
                );
                if old(buf)@.len() < required {
                    r == Err::<usize, Error>(
                        Error::OutputBufferTooSmall {
                            size: old(buf)@.len() as usize,
                            required: required as usize,
                        },
                    ) && final(buf)@ == old(buf)@
                } else {
                    r == Ok::<usize, Error>(enc.len() as usize) && final(buf)@ == enc + old(
                        buf,
                    )@.skip(enc.len() as int)
                }
            }),
    {
        proof {
            use_type_invariant(self);
        }
        let required = self.required_buf_len();
        if buf.len() < required {
            return Err(Error::OutputBufferTooSmall { size: buf.len(), required });
        }
        let tmp = match self.encode_to_vec() {
            Ok(v) => v,
            Err(e) => { return Err(e) },
        };
        proof {
            lemma_rgb_pixels_or_rgba(self);
            lemma_encode_len(self.spec_header(), self.spec_pixels(), self.spec_reference());
        }
        let n = tmp.len();
        let mut i: usize = 0;
        while i < n
            invariant
                i <= n,
                n == tmp@.len(),
                n <= buf@.len(),
                buf@.len() == old(buf)@.len(),
                buf@ == tmp@.take(i as int) + old(buf)@.skip(i as int),
            decreases n - i,
        {
            buf[i] = tmp[i];
            i += 1;
            proof {
                assert(buf@ =~= tmp@.take(i as int) + old(buf)@.skip(i as int));
            }
        }
        proof {
            assert(tmp@.take(n as int) =~= tmp@);
        }
        Ok(n)
    }
}

/// A three-channel encoder only reads pixels with alpha 255.
proof fn lemma_rgb_pixels_or_rgba(e: &Encoder)
    requires
        e.spec_header().channels == e.spec_source_channels().spec_image_channels(),
        e.spec_header().width * e.spec_header().height == e.spec_pixels().len(),
    ensures
        e.spec_header().channels == Channels::Rgb ==> forall|k: int|
            0 <= k < e.spec_pixels().len() ==> #[trigger] e.spec_pixels()[k].a == 255,
{
    if e.spec_header().channels == Channels::Rgb {
        lemma_rgb_pixels_opaque(
            e.spec_data(),
            e.spec_header().width as int,
            e.spec_header().height as int,
            e.spec_stride() as int,
            e.spec_source_channels(),
        );
    }
}

/// Encodes tightly packed RGB(A) pixel data into a pre-allocated buffer
/// and returns the number of bytes written.
pub fn encode_to_buf(buf: &mut Vec<u8>, data: &Vec<u8>, width: u32, height: u32) -> (r: Result<
    usize,
    Error,
>)
    ensures
        ({
            match spec_build(
                data@.len(),
                width,
                height,
                Option::<usize>::None,
                Option::<SourceChannels>::None,
                Option::<ColorSpace>::None,
            ) {
                Err(e) => r == Err::<usize, Error>(e) && final(buf)@ == old(buf)@,
                Ok(t) => {
                    let required = spec_encode_max_len(
                        t.2.width,
                        t.2.height,
                        t.2.channels.spec_as_u8(),
                    );
                    let enc = spec_encode(
                        t.2,
                        spec_image_pixels(
                            data@,
                            t.2.width as int,
                            t.2.height as int,
                            t.0 as int,
                            t.1,
                        ),
                        false,
                    );
                    if old(buf)@.len() < required {
                        r == Err::<usize, Error>(
                            Error::OutputBufferTooSmall {
                                size: old(buf)@.len() as usize,
                                required: required as usize,
                            },
                        ) && final(buf)@ == old(buf)@
                    } else {
                        r == Ok::<usize, Error>(enc.len() as usize) && final(buf)@ == enc + old(
                            buf,
                        )@.skip(enc.len() as int)
                    }
                },
            }
        }),
{
    let encoder = match Encoder::new(data, width, height) {
        Ok(e) => e,
        Err(e) => { return Err(e) },
    };
    encoder.encode_to_buf(buf)
}

/// Encodes tightly packed RGB(A) pixel data into a newly allocated vector.
pub fn encode_to_vec(data: &Vec<u8>, width: u32, height: u32) -> (r: Result<Vec<u8>, Error>)
    ensures
        ({
            match spec_build(
                data@.len(),
                width,
                height,
                Option::<usize>::None,
                Option::<SourceChannels>::None,
                Option::<ColorSpace>::None,
            ) {
                Err(e) => r matches Err(e2) && e2 == e,
                Ok(t) => r matches Ok(v) && v@ == spec_encode(
                    t.2,
                    spec_image_pixels(data@, t.2.width as int, t.2.height as int, t.0 as int, t.1),
                    false,
                ),
            }
        }),
{
    let encoder = match Encoder::new(data, width, height) {
        Ok(e) => e,
        Err(e) => { return Err(e) },
    };
    encoder.encode_to_vec()
}

} // verus!
