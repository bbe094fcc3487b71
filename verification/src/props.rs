//! The laws the codec obeys, proved from the spec-level machines:
//! round-trip, channel conversion, the size bound, the end-marker, and
//! agreement between the default and reference encoder modes.

use vstd::prelude::*;

use crate::consts::spec_padding;
use crate::decode::{
    dec_op_ix, dec_op_px, dec_ops, init_index, init_px, lemma_dec_done, lemma_dec_unfold,
    pixels_to_bytes, px_bytes, rep_px, spec_decode_ops, spec_op_extra, spec_wrote,
};
use crate::encode::{enc_ops, lemma_enc_done, lemma_enc_unfold, spec_enc_literal, spec_encode,
    spec_encode_ops};
use crate::error::Error;
use crate::encode::spec_image_pixels;
use crate::header::{spec_header_valid, Header};
use crate::types::{Channels, SourceChannels};
use crate::pixel::{spec_diff_px, spec_hash, spec_luma_px, wadd, wsub, Pixel};

verus! {

/// Wrapping a delta back onto its base returns the original value.
proof fn lemma_wrap_add_sub(p: u8, x: u8)
    by (bit_vector)
    ensures
        wadd(p, wsub(x, p)) == x,
{
}

/// Adding and subtracting the same bias cancels.
proof fn lemma_wrap_bias(x: u8, c: u8)
    by (bit_vector)
    ensures
        wsub(wadd(x, c), c) == x,
{
}

/// The LUMA reconstruction: the green delta plus the stored biased
/// difference gives back the red or blue delta.
proof fn lemma_wrap_luma(g: u8, d: u8)
    by (bit_vector)
    ensures
        wadd(wsub(g, 8), wadd(wsub(d, g), 8)) == d,
{
}

/// The DIFF byte keeps its tag and its three two-bit fields.
proof fn lemma_diff_bits(a: u8, b: u8, c: u8)
    by (bit_vector)
    requires
        a <= 3,
        b <= 3,
        c <= 3,
    ensures
        0x40 <= (0x40 | (a << 4u8) | (b << 2u8) | c) <= 0x7F,
        ((0x40 | (a << 4u8) | (b << 2u8) | c) >> 4u8) & 3 == a,
        ((0x40 | (a << 4u8) | (b << 2u8) | c) >> 2u8) & 3 == b,
        (0x40 | (a << 4u8) | (b << 2u8) | c) & 3 == c,
{
}

/// The LUMA bytes keep their tag and their fields.
proof fn lemma_luma_bits(g: u8, a: u8, b: u8)
    by (bit_vector)
    requires
        g <= 63,
        a <= 15,
        b <= 15,
    ensures
        0x80 <= (0x80 | g) <= 0xBF,
        (0x80 | g) & 0x3F == g,
        ((a << 4u8) | b) >> 4u8 == a,
        ((a << 4u8) | b) & 0x0F == b,
{
}

/// The RUN byte keeps its six-bit length field.
proof fn lemma_run_bits(r: u8)
    by (bit_vector)
    requires
        r <= 61,
    ensures
        ((0xC0 + r) as u8) & 0x3F == r,
{
}

/// Decoding does not look at bytes before its position: dropping a prefix
/// of `d` bytes shifts every position by `d` and nothing else.
proof fn lemma_dec_shift(bytes: Seq<u8>, d: int, pos: int, k: nat, ix: Seq<Pixel>, px: Pixel)
    requires
        0 <= d <= pos,
        d <= bytes.len(),
        ix.len() == 64,
    ensures
        ({
            let r1 = dec_ops(bytes, pos, k, ix, px);
            let r2 = dec_ops(bytes.skip(d), pos - d, k, ix, px);
            match r2 {
                None => r1 is None,
                Some(t) => r1 == Some((t.0, t.1 + d, t.2, t.3)),
            }
        }),
    decreases k,
{
    let s = bytes.skip(d);
    if k == 0 {
        lemma_dec_done(bytes, pos, ix, px);
        lemma_dec_done(s, pos - d, ix, px);
    } else if !(0 <= pos - d < s.len()) {
        crate::decode::lemma_dec_short(s, pos - d, k, ix, px);
        crate::decode::lemma_dec_short(bytes, pos, k, ix, px);
    } else {
        let b1 = s[pos - d];
        assert(bytes[pos] == b1);
        let ex = spec_op_extra(b1) as int;
        if pos - d + 1 + ex > s.len() {
            crate::decode::lemma_dec_short(s, pos - d, k, ix, px);
            crate::decode::lemma_dec_short(bytes, pos, k, ix, px);
        } else {
            let extra = s.subrange(pos - d + 1, pos - d + 1 + ex);
            assert(bytes.subrange(pos + 1, pos + 1 + ex) =~= extra);
            let m = spec_wrote(b1, k);
            let px2 = dec_op_px(ix, px, b1, extra);
            let ix2 = dec_op_ix(ix, px, b1, extra);
            assert(ix2.len() == 64);
            lemma_dec_unfold(bytes, pos, k, ix, px);
            lemma_dec_unfold(s, pos - d, k, ix, px);
            lemma_dec_shift(bytes, d, pos + 1 + ex, (k - m) as nat, ix2, px2);
        }
    }
}

/// Prepending exactly one opcode to a byte stream: the machine takes that
/// opcode's step and then runs on the rest, every position moved past the
/// opcode.
proof fn lemma_dec_op_prefix(op: Seq<u8>, s: Seq<u8>, remaining: nat, ix: Seq<Pixel>, px: Pixel)
    requires
        remaining >= 1,
        ix.len() == 64,
        op.len() == 1 + spec_op_extra(op[0]),
    ensures
        ({
            let b1 = op[0];
            let extra = op.subrange(1, op.len() as int);
            let m = spec_wrote(b1, remaining);
            let px2 = dec_op_px(ix, px, b1, extra);
            let ix2 = dec_op_ix(ix, px, b1, extra);
            match dec_ops(s, 0, (remaining - m) as nat, ix2, px2) {
                Some(t) => dec_ops(op + s, 0, remaining, ix, px) == Some(
                    (rep_px(px2, m) + t.0, t.1 + op.len(), t.2, t.3),
                ),
                None => dec_ops(op + s, 0, remaining, ix, px) is None,
            }
        }),
{
    let bytes = op + s;
    let b1 = op[0];
    assert(bytes[0] == b1);
    let ex = spec_op_extra(b1) as int;
    let extra = op.subrange(1, op.len() as int);
    assert(bytes.subrange(1, 1 + ex) =~= extra);
    let m = spec_wrote(b1, remaining);
    let px2 = dec_op_px(ix, px, b1, extra);
    let ix2 = dec_op_ix(ix, px, b1, extra);
    assert(ix2.len() == 64);
    lemma_dec_unfold(bytes, 0, remaining, ix, px);
    lemma_dec_shift(bytes, op.len() as int, op.len() as int, (remaining - m) as nat, ix2, px2);
    assert(bytes.skip(op.len() as int) =~= s);
}

/// The literal opcode of a pixel decodes back to exactly that pixel, and
/// stores it in the cache at its hash slot.  The opcode's first byte is
/// never in the INDEX or RUN ranges.
proof fn lemma_literal_decodes(ix: Seq<Pixel>, prev: Pixel, px: Pixel)
    requires
        ix.len() == 64,
    ensures
        ({
            let lit = spec_enc_literal(prev, px);
            let extra = lit.subrange(1, lit.len() as int);
            &&& lit.len() == 1 + spec_op_extra(lit[0])
            &&& lit[0] > 0x3F
            &&& !(0xC0 <= lit[0] && lit[0] <= 0xFD)
            &&& dec_op_px(ix, prev, lit[0], extra) == px
            &&& dec_op_ix(ix, prev, lit[0], extra) == ix.update(spec_hash(px) as int, px)
        }),
{
    let lit = spec_enc_literal(prev, px);
    let extra = lit.subrange(1, lit.len() as int);
    if px.a == prev.a {
        let dr = wsub(px.r, prev.r);
        let dg = wsub(px.g, prev.g);
        let db = wsub(px.b, prev.b);
        let dr2 = wadd(dr, 2);
        let dg2 = wadd(dg, 2);
        let db2 = wadd(db, 2);
        if dr2 <= 3 && dg2 <= 3 && db2 <= 3 {
            lemma_diff_bits(dr2, dg2, db2);
            let b1 = lit[0];
            assert(spec_diff_px(prev, b1) == px) by {
                lemma_wrap_bias(dr, 2);
                lemma_wrap_bias(dg, 2);
                lemma_wrap_bias(db, 2);
                lemma_wrap_add_sub(prev.r, px.r);
                lemma_wrap_add_sub(prev.g, px.g);
                lemma_wrap_add_sub(prev.b, px.b);
            }
        } else {
            let dg32 = wadd(dg, 32);
            let drg = wadd(wsub(dr, dg), 8);
            let dbg = wadd(wsub(db, dg), 8);
            if dg32 <= 63 && drg <= 15 && dbg <= 15 {
                lemma_luma_bits(dg32, drg, dbg);
                let b1 = lit[0];
                let b2 = lit[1];
                assert(extra[0] == b2);
                assert(spec_luma_px(prev, b1, b2) == px) by {
                    lemma_wrap_bias(dg, 32);
                    lemma_wrap_luma(dg, dr);
                    lemma_wrap_luma(dg, db);
                    lemma_wrap_add_sub(prev.r, px.r);
                    lemma_wrap_add_sub(prev.g, px.g);
                    lemma_wrap_add_sub(prev.b, px.b);
                }
            } else {
                assert(lit[0] == 0xFE);
                assert(extra[0] == px.r && extra[1] == px.g && extra[2] == px.b);
            }
        }
    } else {
        assert(lit[0] == 0xFF);
        assert(extra[0] == px.r && extra[1] == px.g && extra[2] == px.b && extra[3] == px.a);
    }
}

/// The all-zero pixel every cache slot starts from.
pub open spec fn zero_px() -> Pixel {
    Pixel { r: 0u8, g: 0u8, b: 0u8, a: 0u8 }
}

/// How the decoder's cache can differ from the encoder's while decoding
/// the encoder's own output: they are equal, except that a run at the very
/// start of the image makes the decoder store the initial pixel at its
/// hash slot, which the encoder never does.  The encoder can never consult
/// that slot while they differ: the only pixel it could match against the
/// zero slot is the zero pixel, whose hash is a different slot.
pub open spec fn caches_agree(eix: Seq<Pixel>, dix: Seq<Pixel>) -> bool {
    let hs = spec_hash(init_px()) as int;
    dix == eix || (eix[hs] == zero_px() && dix == eix.update(hs, init_px()))
}

/// The two slots that matter never collide: the initial pixel hashes to
/// slot 53 and the zero pixel to slot 0.
proof fn lemma_hash_values()
    ensures
        spec_hash(init_px()) == 53,
        spec_hash(zero_px()) == 0,
{
}

/// Storing the run pixel on the decoder's side keeps the caches related.
proof fn lemma_agree_run_store(ix: Seq<Pixel>, dix: Seq<Pixel>, prev: Pixel, allowed: bool)
    requires
        ix.len() == 64,
        dix.len() == 64,
        caches_agree(ix, dix),
        allowed ==> ix[spec_hash(prev) as int] == prev,
        allowed || prev == init_px(),
        prev == init_px() ==> ix[spec_hash(init_px()) as int] == init_px() || ix[spec_hash(
            init_px(),
        ) as int] == zero_px(),
    ensures
        caches_agree(ix, dix.update(spec_hash(prev) as int, prev)),
{
    lemma_hash_values();
    let hs = spec_hash(init_px()) as int;
    let hp = spec_hash(prev) as int;
    let dix2 = dix.update(hp, prev);
    if prev == init_px() {
        if ix[hs] == init_px() {
            assert(dix == ix);
            assert(dix2 =~= dix);
        } else {
            if dix == ix {
                assert(dix2 =~= ix.update(hs, init_px()));
            } else {
                assert(dix2 =~= dix);
            }
        }
    } else {
        if dix == ix {
            assert(dix2 =~= dix);
        } else {
            if hp == hs {
                assert(prev == zero_px());
                assert(false);
            } else {
                assert(dix2 =~= dix);
            }
        }
    }
}

/// A cache slot the encoder matched a pixel against reads the same on the
/// decoder's side.
proof fn lemma_agree_lookup(ix: Seq<Pixel>, dix: Seq<Pixel>, p: Pixel)
    requires
        ix.len() == 64,
        dix.len() == 64,
        caches_agree(ix, dix),
        ix[spec_hash(p) as int] == p,
    ensures
        dix[spec_hash(p) as int] == p,
{
    lemma_hash_values();
    let hs = spec_hash(init_px()) as int;
    let h = spec_hash(p) as int;
    if dix != ix {
        if h == hs {
            assert(p == zero_px());
            assert(false);
        }
    }
}

/// Storing the same pixel on both sides keeps the caches related.
proof fn lemma_agree_store(ix: Seq<Pixel>, dix: Seq<Pixel>, px: Pixel)
    requires
        ix.len() == 64,
        dix.len() == 64,
        caches_agree(ix, dix),
    ensures
        caches_agree(
            ix.update(spec_hash(px) as int, px),
            dix.update(spec_hash(px) as int, px),
        ),
{
    lemma_hash_values();
    let hs = spec_hash(init_px()) as int;
    let h = spec_hash(px) as int;
    if dix == ix {
    } else {
        if h == hs {
            assert(dix.update(h, px) =~= ix.update(h, px));
        } else {
            assert(dix.update(h, px) =~= ix.update(h, px).update(hs, init_px()));
            assert(ix.update(h, px)[hs] == zero_px());
        }
    }
}

/// The opcode of one non-run pixel: given that the remaining opcode
/// stream decodes to the remaining pixels, prepending the pixel's own
/// opcode (INDEX or literal) decodes to the pixels from that pixel on.
/// `dmid` is the decoder cache just before the opcode.
#[verifier::rlimit(100)]
proof fn lemma_rt_pixel_op(
    pixels: Seq<Pixel>,
    i: int,
    ix: Seq<Pixel>,
    dmid: Seq<Pixel>,
    prev: Pixel,
    rm: bool,
    tail: Seq<u8>,
)
    requires
        0 <= i < pixels.len(),
        ix.len() == 64,
        dmid.len() == 64,
        caches_agree(ix, dmid),
        pixels[i] != prev,
        ({
            let px = pixels[i];
            let h = spec_hash(px) as int;
            let cached = ix[h] == px;
            let ix_next = if cached {
                ix
            } else {
                ix.update(h, px)
            };
            let dix_next = if cached {
                dmid
            } else {
                dmid.update(h, px)
            };
            let rest = enc_ops(pixels, i + 1, ix_next, px, 0, true, rm);
            let t3r = dec_ops(rest + tail, 0, (pixels.len() - i - 1) as nat, dix_next, px);
            &&& t3r is Some
            &&& t3r->Some_0.0 == pixels.subrange(i + 1, pixels.len() as int)
            &&& t3r->Some_0.1 == rest.len()
        }),
    ensures
        ({
            let px = pixels[i];
            let h = spec_hash(px) as int;
            let cached = ix[h] == px;
            let op2: Seq<u8> = if cached {
                seq![spec_hash(px)]
            } else {
                spec_enc_literal(prev, px)
            };
            let ix_next = if cached {
                ix
            } else {
                ix.update(h, px)
            };
            let rest = enc_ops(pixels, i + 1, ix_next, px, 0, true, rm);
            let t2r = dec_ops(op2 + (rest + tail), 0, (pixels.len() - i) as nat, dmid, prev);
            &&& t2r is Some
            &&& t2r->Some_0.0 == pixels.subrange(i, pixels.len() as int)
            &&& t2r->Some_0.1 == op2.len() + rest.len()
        }),
{
    let n = pixels.len() as int;
    let px = pixels[i];
    let h = spec_hash(px) as int;
    let cached = ix[h] == px;
    let op2: Seq<u8> = if cached {
        seq![spec_hash(px)]
    } else {
        spec_enc_literal(prev, px)
    };
    let ix_next = if cached {
        ix
    } else {
        ix.update(h, px)
    };
    let dix_next = if cached {
        dmid
    } else {
        dmid.update(h, px)
    };
    let rest = enc_ops(pixels, i + 1, ix_next, px, 0, true, rm);
    lemma_literal_decodes(dmid, prev, px);
    assert(op2.len() == 1 + spec_op_extra(op2[0]));
    if cached {
        lemma_agree_lookup(ix, dmid, px);
        assert(dmid[h] == px);
    }
    let t3 = dec_ops(rest + tail, 0, (n - i - 1) as nat, dix_next, px)->Some_0;
    lemma_dec_op_prefix(op2, rest + tail, (n - i) as nat, dmid, prev);
    let ex2 = op2.subrange(1, op2.len() as int);
    assert(spec_wrote(op2[0], (n - i) as nat) == 1);
    assert(dec_op_px(dmid, prev, op2[0], ex2) == px);
    assert(dec_op_ix(dmid, prev, op2[0], ex2) =~= dix_next);
    let t2r = dec_ops(op2 + (rest + tail), 0, (n - i) as nat, dmid, prev);
    assert(t2r is Some);
    assert(t2r->Some_0.0 =~= rep_px(px, 1) + t3.0);
    assert(t2r->Some_0.0 =~= pixels.subrange(i, n));
}

/// One non-run pixel, flush included: composing the pending run's flush
/// opcode, if any, with the pixel's opcode and the rest of the stream.
#[verifier::rlimit(100)]
proof fn lemma_rt_literal_case(
    pixels: Seq<Pixel>,
    i: int,
    ix: Seq<Pixel>,
    dix: Seq<Pixel>,
    prev: Pixel,
    run: nat,
    allowed: bool,
    rm: bool,
    tail: Seq<u8>,
)
    requires
        0 <= i < pixels.len(),
        run <= 61,
        run <= i,
        ix.len() == 64,
        dix.len() == 64,
        caches_agree(ix, dix),
        forall|k: int| i - run <= k < i ==> pixels[k] == prev,
        allowed ==> ix[spec_hash(prev) as int] == prev,
        allowed || prev == init_px(),
        pixels[i] != prev,
        ({
            let px = pixels[i];
            let h = spec_hash(px) as int;
            let cached = ix[h] == px;
            let op2: Seq<u8> = if cached {
                seq![spec_hash(px)]
            } else {
                spec_enc_literal(prev, px)
            };
            let ix_next = if cached {
                ix
            } else {
                ix.update(h, px)
            };
            let dmid: Seq<Pixel> = if run > 0 && (rm || run != 1 || !allowed) {
                dix.update(spec_hash(prev) as int, prev)
            } else {
                dix
            };
            let rest = enc_ops(pixels, i + 1, ix_next, px, 0, true, rm);
            let t2r = dec_ops(op2 + (rest + tail), 0, (pixels.len() - i) as nat, dmid, prev);
            &&& t2r is Some
            &&& t2r->Some_0.0 == pixels.subrange(i, pixels.len() as int)
            &&& t2r->Some_0.1 == op2.len() + rest.len()
        }),
    ensures
        ({
            let code = enc_ops(pixels, i, ix, prev, run, allowed, rm);
            let r = dec_ops(code + tail, 0, (pixels.len() - (i - run)) as nat, dix, prev);
            &&& r is Some
            &&& r->Some_0.0 == pixels.subrange(i - run, pixels.len() as int)
            &&& r->Some_0.1 == code.len()
        }),
{
    let n = pixels.len() as int;
    let code = enc_ops(pixels, i, ix, prev, run, allowed, rm);
    let big = (n - (i - run)) as nat;
    lemma_enc_unfold(pixels, i, ix, prev, run, allowed, rm);
    let px = pixels[i];
    let h = spec_hash(px) as int;
    let flush: Seq<u8> = if run > 0 {
        if !rm && run == 1 && allowed {
            seq![spec_hash(prev)]
        } else {
            seq![(0xC0 + (run - 1)) as u8]
        }
    } else {
        Seq::empty()
    };
    let cached = ix[h] == px;
    let op2: Seq<u8> = if cached {
        seq![spec_hash(px)]
    } else {
        spec_enc_literal(prev, px)
    };
    let ix_next = if cached {
        ix
    } else {
        ix.update(h, px)
    };
    let dmid: Seq<Pixel> = if run > 0 && (rm || run != 1 || !allowed) {
        dix.update(spec_hash(prev) as int, prev)
    } else {
        dix
    };
    let rest = enc_ops(pixels, i + 1, ix_next, px, 0, true, rm);
    assert(code =~= flush + (op2 + rest));
    assert(code + tail =~= flush + (op2 + (rest + tail)));
    let t2 = dec_ops(op2 + (rest + tail), 0, (n - i) as nat, dmid, prev)->Some_0;

    if run > 0 {
        let f0 = flush[0];
        if !rm && run == 1 && allowed {
            assert(f0 == spec_hash(prev));
            assert(f0 < 64);
            assert(spec_wrote(f0, big) == 1);
            lemma_agree_lookup(ix, dix, prev);
            assert(dix[spec_hash(prev) as int] == prev);
        } else {
            lemma_run_bits((run - 1) as u8);
            assert(0xC0 <= f0 <= 0xFC);
            assert(f0 & 0x3F == run - 1);
            assert(spec_wrote(f0, big) == run);
        }
        assert(flush.len() == 1 + spec_op_extra(f0));
        lemma_dec_op_prefix(flush, op2 + (rest + tail), big, dix, prev);
        let exf = flush.subrange(1, 1);
        assert(dec_op_px(dix, prev, f0, exf) == prev);
        assert(dec_op_ix(dix, prev, f0, exf) =~= dmid);
        let m1 = spec_wrote(f0, big);
        assert(m1 == run);
        let r = dec_ops(code + tail, 0, big, dix, prev);
        assert(r is Some);
        assert(r->Some_0.0 =~= pixels.subrange(i - run, n)) by {
            assert(r->Some_0.0 =~= rep_px(prev, run) + t2.0);
        }
        assert(r->Some_0.1 == code.len());
    } else {
        assert(dmid == dix);
        assert(code + tail =~= op2 + (rest + tail));
        let r = dec_ops(code + tail, 0, big, dix, prev);
        assert(r is Some);
        assert(r->Some_0.0 =~= pixels.subrange(i, n));
        assert(r->Some_0.1 == code.len());
    }
}

/// The heart of the round-trip theorem.  From any reachable encoder state
/// (cache `ix`, previous pixel `prev`, `run` pending copies of `prev` just
/// before position `i`, `allowed` only if the cache holds `prev` at its
/// hash slot) and the matching decoder cache `dix`, the decoder run on the
/// remaining opcode stream returns exactly the pixels from the start of
/// the pending run to the end of the image, consuming exactly that stream.
#[verifier::rlimit(100)]
proof fn lemma_roundtrip_ops(
    pixels: Seq<Pixel>,
    i: int,
    ix: Seq<Pixel>,
    dix: Seq<Pixel>,
    prev: Pixel,
    run: nat,
    allowed: bool,
    rm: bool,
    tail: Seq<u8>,
)
    requires
        0 <= i <= pixels.len(),
        run <= 61,
        run <= i,
        i == pixels.len() ==> run == 0,
        ix.len() == 64,
        dix.len() == 64,
        caches_agree(ix, dix),
        forall|k: int| i - run <= k < i ==> pixels[k] == prev,
        allowed ==> ix[spec_hash(prev) as int] == prev,
        allowed || prev == init_px(),
        prev == init_px() ==> ix[spec_hash(init_px()) as int] == init_px() || ix[spec_hash(
            init_px(),
        ) as int] == zero_px(),
    ensures
        ({
            let code = enc_ops(pixels, i, ix, prev, run, allowed, rm);
            let r = dec_ops(code + tail, 0, (pixels.len() - (i - run)) as nat, dix, prev);
            &&& r is Some
            &&& r->Some_0.0 == pixels.subrange(i - run, pixels.len() as int)
            &&& r->Some_0.1 == code.len()
        }),
    decreases pixels.len() - i,
{
    let n = pixels.len() as int;
    let code = enc_ops(pixels, i, ix, prev, run, allowed, rm);
    let big = (n - (i - run)) as nat;
    if i == n {
        lemma_enc_done(pixels, i, ix, prev, run, allowed, rm);
        assert(code + tail =~= tail);
        lemma_dec_done(tail, 0, dix, prev);
        assert(pixels.subrange(i - run, n) =~= Seq::<Pixel>::empty());
    } else {
        lemma_enc_unfold(pixels, i, ix, prev, run, allowed, rm);
        let px = pixels[i];
        let last = i == n - 1;
        if px == prev {
            if run + 1 == 62 || last {
                let b = (0xC0 + run) as u8;
                let rest = enc_ops(pixels, i + 1, ix, prev, 0, allowed, rm);
                let op: Seq<u8> = seq![b];
                assert(code =~= op + rest);
                assert(code + tail =~= op + (rest + tail));
                lemma_agree_run_store(ix, dix, prev, allowed);
                let dix2 = dix.update(spec_hash(prev) as int, prev);
                lemma_roundtrip_ops(pixels, i + 1, ix, dix2, prev, 0, allowed, rm, tail);
                lemma_run_bits(run as u8);
                assert(op.len() == 1 + spec_op_extra(b));
                lemma_dec_op_prefix(op, rest + tail, big, dix, prev);
                let extra = op.subrange(1, 1);
                let m = spec_wrote(b, big);
                assert(m == run + 1);
                assert(dec_op_px(dix, prev, b, extra) == prev);
                assert(dec_op_ix(dix, prev, b, extra) =~= dix2);
                let t1 = dec_ops(rest + tail, 0, (big - m) as nat, dix2, prev)->Some_0;
                assert(rep_px(prev, m) + t1.0 =~= pixels.subrange(i - run, n));
                assert(code.len() == op.len() + rest.len());
            } else {
                lemma_roundtrip_ops(pixels, i + 1, ix, dix, prev, run + 1, allowed, rm, tail);
            }
        } else {
            let h = spec_hash(px) as int;
            let cached = ix[h] == px;
            let ix_next = if cached {
                ix
            } else {
                ix.update(h, px)
            };
            let dmid: Seq<Pixel> = if run > 0 && (rm || run != 1 || !allowed) {
                dix.update(spec_hash(prev) as int, prev)
            } else {
                dix
            };
            let dix_next = if cached {
                dmid
            } else {
                dmid.update(h, px)
            };
            if run > 0 && (rm || run != 1 || !allowed) {
                lemma_agree_run_store(ix, dix, prev, allowed);
            }
            if cached {
                lemma_agree_lookup(ix, dmid, px);
            } else {
                lemma_agree_store(ix, dmid, px);
            }
            assert(ix_next[spec_hash(px) as int] == px);
            if px == init_px() {
                lemma_hash_values();
                assert(ix_next[spec_hash(init_px()) as int] == init_px());
            }
            lemma_roundtrip_ops(pixels, i + 1, ix_next, dix_next, px, 0, true, rm, tail);
            lemma_rt_pixel_op(pixels, i, ix, dmid, prev, rm, tail);
            lemma_rt_literal_case(pixels, i, ix, dix, prev, run, allowed, rm, tail);
        }
    }
}

/// Round trip at the opcode level: decoding the opcode stream of any pixel
/// sequence, whatever bytes follow it, returns exactly those pixels and
/// stops exactly at the stream's end.
pub proof fn lemma_roundtrip(pixels: Seq<Pixel>, rm: bool, tail: Seq<u8>)
    ensures
        ({
            let code = spec_encode_ops(pixels, rm);
            let r = dec_ops(code + tail, 0, pixels.len(), init_index(), init_px());
            &&& r is Some
            &&& r->Some_0.0 == pixels
            &&& r->Some_0.1 == code.len()
        }),
{
    lemma_hash_values();
    assert(init_index()[spec_hash(init_px()) as int] == zero_px());
    lemma_roundtrip_ops(pixels, 0, init_index(), init_index(), init_px(), 0, false, rm, tail);
    assert(pixels.subrange(0, pixels.len() as int) =~= pixels);
}

/// Round trip for a whole encoded image: its header decodes back to the
/// header it was built from, and its opcode stream decodes back to the
/// pixels, consuming the opcodes and the end-marker and nothing more, even
/// when surplus bytes follow the end-marker.
pub proof fn lemma_encode_decode(h: Header, pixels: Seq<Pixel>, rm: bool, surplus: Seq<u8>)
    requires
        spec_header_valid(h),
        pixels.len() == h.width * h.height,
    ensures
        ({
            let enc = spec_encode(h, pixels, rm) + surplus;
            let r = spec_decode_ops(enc, 14, (h.width * h.height) as nat);
            &&& crate::header::spec_header_decode(enc) == Ok::<Header, Error>(h)
            &&& r is Ok
            &&& r->Ok_0.0 == pixels
            &&& r->Ok_0.1 == spec_encode_ops(pixels, rm).len() + 8
        }),
{
    let code = spec_encode_ops(pixels, rm);
    let enc = spec_encode(h, pixels, rm) + surplus;
    let hb = crate::header::spec_header_bytes(h);
    crate::header::lemma_header_roundtrip(h);
    assert(enc.len() >= 14);
    assert(forall|j: int| 0 <= j < 14 ==> enc[j] == hb[j]);
    assert(crate::header::spec_header_decode(enc) == Ok::<Header, Error>(h));

    lemma_roundtrip(pixels, rm, spec_padding() + surplus);
    let body = code + (spec_padding() + surplus);
    assert(enc.skip(14) =~= body);
    let inner = dec_ops(body, 0, pixels.len(), init_index(), init_px());
    lemma_dec_shift(enc, 14, 14, pixels.len(), init_index(), init_px());
    let outer = dec_ops(enc, 14, pixels.len(), init_index(), init_px());
    assert(outer is Some);
    let end = outer->Some_0.1;
    assert(end == code.len() + 14);
    assert(enc.subrange(end, end + 8) =~= spec_padding());
}

/// A byte of the flattened output: byte `j` is component `j mod c` of
/// pixel `j / c`, where `c` is the output channel count.
pub proof fn lemma_ptb_index(ps: Seq<Pixel>, c4: bool, j: int)
    requires
        0 <= j < ps.len() * (if c4 {
            4int
        } else {
            3int
        }),
    ensures
        ({
            let c = if c4 {
                4int
            } else {
                3int
            };
            pixels_to_bytes(ps, c4)[j] == px_bytes(ps[j / c], c4)[j % c]
        }),
    decreases ps.len(),
{
    let c = if c4 {
        4int
    } else {
        3int
    };
    crate::decode::lemma_ptb_len(ps, c4);
    crate::decode::lemma_ptb_len(ps.skip(1), c4);
    if j < c {
        assert(j / c == 0 && j % c == j) by {
            vstd::arithmetic::div_mod::lemma_fundamental_div_mod_converse(j, c, 0, j);
        }
    } else {
        lemma_ptb_index(ps.skip(1), c4, j - c);
        assert((j - c) / c == j / c - 1 && (j - c) % c == j % c) by {
            vstd::arithmetic::div_mod::lemma_fundamental_div_mod(j, c);
            vstd::arithmetic::div_mod::lemma_fundamental_div_mod_converse(
                j - c,
                c,
                j / c - 1,
                j % c,
            );
        }
        assert(ps.skip(1)[(j - c) / c] == ps[j / c]);
    }
}

/// Channel conversion: the four-channel output of a decode carries the
/// same colour bytes as the three-channel output, pixel by pixel, plus
/// each pixel's alpha; dropping alpha from the one gives the other.
pub proof fn lemma_channel_conversion(ps: Seq<Pixel>)
    ensures
        pixels_to_bytes(ps, false).len() == 3 * ps.len(),
        pixels_to_bytes(ps, true).len() == 4 * ps.len(),
        forall|k: int, c: int|
            0 <= k < ps.len() && 0 <= c < 3 ==> pixels_to_bytes(ps, false)[3 * k + c]
                == #[trigger] pixels_to_bytes(ps, true)[4 * k + c],
        forall|k: int| 0 <= k < ps.len() ==> #[trigger] pixels_to_bytes(ps, true)[4 * k + 3]
            == ps[k].a,
{
    crate::decode::lemma_ptb_len(ps, false);
    crate::decode::lemma_ptb_len(ps, true);
    assert forall|k: int, c: int| 0 <= k < ps.len() && 0 <= c < 3 implies pixels_to_bytes(
        ps,
        false,
    )[3 * k + c] == #[trigger] pixels_to_bytes(ps, true)[4 * k + c] by {
        lemma_ptb_index(ps, false, 3 * k + c);
        lemma_ptb_index(ps, true, 4 * k + c);
        vstd::arithmetic::div_mod::lemma_fundamental_div_mod_converse(3 * k + c, 3, k, c);
        vstd::arithmetic::div_mod::lemma_fundamental_div_mod_converse(4 * k + c, 4, k, c);
    }
    assert forall|k: int| 0 <= k < ps.len() implies #[trigger] pixels_to_bytes(ps, true)[4 * k
        + 3] == ps[k].a by {
        lemma_ptb_index(ps, true, 4 * k + 3);
        vstd::arithmetic::div_mod::lemma_fundamental_div_mod_converse(4 * k + 3, 4, k, 3);
    }
}

/// Every encoded image ends in the 8-byte end-marker.
pub proof fn lemma_encode_ends_with_marker(h: Header, pixels: Seq<Pixel>, rm: bool)
    ensures
        ({
            let enc = spec_encode(h, pixels, rm);
            enc.subrange(enc.len() - 8, enc.len() as int) == spec_padding()
        }),
{
    let enc = spec_encode(h, pixels, rm);
    assert(enc.subrange(enc.len() - 8, enc.len() as int) =~= spec_padding());
}

/// Cross-mode agreement: the default-mode and reference-mode opcode
/// streams of the same image decode to the same pixels.
pub proof fn lemma_cross_mode_decode(h: Header, pixels: Seq<Pixel>)
    requires
        spec_header_valid(h),
        pixels.len() == h.width * h.height,
    ensures
        ({
            let rd = spec_decode_ops(spec_encode(h, pixels, false), 14, (h.width
                * h.height) as nat);
            let rr = spec_decode_ops(spec_encode(h, pixels, true), 14, (h.width
                * h.height) as nat);
            &&& rd is Ok
            &&& rr is Ok
            &&& rd->Ok_0.0 == rr->Ok_0.0
            &&& rd->Ok_0.0 == pixels
        }),
{
    lemma_encode_decode(h, pixels, false, Seq::<u8>::empty());
    lemma_encode_decode(h, pixels, true, Seq::<u8>::empty());
    assert(spec_encode(h, pixels, false) + Seq::<u8>::empty() =~= spec_encode(h, pixels, false));
    assert(spec_encode(h, pixels, true) + Seq::<u8>::empty() =~= spec_encode(h, pixels, true));
}

/// Flattening the canonical pixels of a tightly packed RGB(A) buffer gives
/// back that buffer byte for byte.
pub proof fn lemma_image_bytes_roundtrip(data: Seq<u8>, w: int, h: int, c4: bool)
    requires
        w >= 1,
        h >= 1,
        data.len() == w * h * (if c4 {
            4int
        } else {
            3int
        }),
    ensures
        ({
            let c = if c4 {
                4int
            } else {
                3int
            };
            let sc = if c4 {
                SourceChannels::Rgba
            } else {
                SourceChannels::Rgb
            };
            pixels_to_bytes(spec_image_pixels(data, w, h, w * c, sc), c4) == data
        }),
{
    let c = if c4 {
        4int
    } else {
        3int
    };
    let sc = if c4 {
        SourceChannels::Rgba
    } else {
        SourceChannels::Rgb
    };
    let stride = w * c;
    let ps = spec_image_pixels(data, w, h, stride, sc);
    crate::decode::lemma_ptb_len(ps, c4);
    vstd::arithmetic::mul::lemma_mul_nonnegative(w, h);
    assert forall|j: int| 0 <= j < data.len() implies pixels_to_bytes(ps, c4)[j] == data[j] by {
        lemma_ptb_index(ps, c4, j);
        let k = j / c;
        let r = j % c;
        vstd::arithmetic::div_mod::lemma_fundamental_div_mod(j, c);
        assert(0 <= k) by {
            vstd::arithmetic::div_mod::lemma_div_pos_is_pos(j, c);
        }
        assert(k < w * h) by {
            if k >= w * h {
                vstd::arithmetic::mul::lemma_mul_inequality(w * h, k, c);
                assert(j >= c * (w * h));
                assert(c * (w * h) == w * h * c) by (nonlinear_arith);
            }
        }
        let base = (k / w) * stride + (k % w) * c;
        assert(base == k * c) by {
            vstd::arithmetic::div_mod::lemma_fundamental_div_mod(k, w);
            assert((k / w) * (w * c) + (k % w) * c == (w * (k / w) + k % w) * c)
                by (nonlinear_arith);
        }
        assert(ps[k] == crate::encode::spec_src_px(data, base, sc));
        assert(j == k * c + r) by {
            assert(c * k == k * c) by (nonlinear_arith);
        }
    }
    assert(pixels_to_bytes(ps, c4) =~= data);
}

/// The round trip on raw bytes: a tightly packed RGB(A) buffer, encoded
/// under its header and decoded back with the same channel count, returns
/// the buffer unchanged.
pub proof fn lemma_byte_roundtrip(data: Seq<u8>, h: Header, rm: bool)
    requires
        spec_header_valid(h),
        data.len() == h.width * h.height * h.channels.spec_as_u8(),
    ensures
        ({
            let c4 = h.channels == Channels::Rgba;
            let c = h.channels.spec_as_u8() as int;
            let sc = if c4 {
                SourceChannels::Rgba
            } else {
                SourceChannels::Rgb
            };
            let pixels = spec_image_pixels(
                data,
                h.width as int,
                h.height as int,
                h.width * c,
                sc,
            );
            let enc = spec_encode(h, pixels, rm);
            let r = spec_decode_ops(enc, 14, (h.width * h.height) as nat);
            &&& crate::header::spec_header_decode(enc) == Ok::<Header, Error>(h)
            &&& r is Ok
            &&& pixels_to_bytes(r->Ok_0.0, c4) == data
        }),
{
    let c4 = h.channels == Channels::Rgba;
    let c = h.channels.spec_as_u8() as int;
    let sc = if c4 {
        SourceChannels::Rgba
    } else {
        SourceChannels::Rgb
    };
    let pixels = spec_image_pixels(data, h.width as int, h.height as int, h.width * c, sc);
    assert(pixels.len() == h.width * h.height);
    lemma_encode_decode(h, pixels, rm, Seq::<u8>::empty());
    assert(spec_encode(h, pixels, rm) + Seq::<u8>::empty() =~= spec_encode(h, pixels, rm));
    lemma_image_bytes_roundtrip(data, h.width as int, h.height as int, c4);
}

/// Channel conversion on a whole image, three channels in, four out:
/// encoding a three-channel image and decoding it four-channel returns the
/// original colour bytes with alpha 255 behind every pixel.
pub proof fn lemma_decode_rgb_as_rgba(data: Seq<u8>, h: Header, rm: bool)
    requires
        spec_header_valid(h),
        h.channels == Channels::Rgb,
        data.len() == h.width * h.height * 3,
    ensures
        ({
            let pixels = spec_image_pixels(
                data,
                h.width as int,
                h.height as int,
                h.width * 3,
                SourceChannels::Rgb,
            );
            let enc = spec_encode(h, pixels, rm);
            let r = spec_decode_ops(enc, 14, (h.width * h.height) as nat);
            &&& r is Ok
            &&& ({
                let out = pixels_to_bytes(r->Ok_0.0, true);
                &&& out.len() == 4 * (h.width * h.height)
                &&& forall|k: int, c: int|
                    0 <= k < h.width * h.height && 0 <= c < 3 ==> #[trigger] out[4 * k + c]
                        == data[3 * k + c]
                &&& forall|k: int| 0 <= k < h.width * h.height ==> #[trigger] out[4 * k + 3] == 255
            })
        }),
{
    let n = h.width * h.height;
    let pixels = spec_image_pixels(
        data,
        h.width as int,
        h.height as int,
        h.width * 3,
        SourceChannels::Rgb,
    );
    lemma_byte_roundtrip(data, h, rm);
    lemma_encode_decode(h, pixels, rm, Seq::<u8>::empty());
    assert(spec_encode(h, pixels, rm) + Seq::<u8>::empty() =~= spec_encode(h, pixels, rm));
    let r = spec_decode_ops(spec_encode(h, pixels, rm), 14, n as nat);
    let ps = r->Ok_0.0;
    lemma_channel_conversion(ps);
    crate::encode::lemma_rgb_pixels_opaque(
        data,
        h.width as int,
        h.height as int,
        h.width * 3,
        SourceChannels::Rgb,
    );
    assert(pixels_to_bytes(ps, false) == data);
    assert forall|k: int| 0 <= k < n implies #[trigger] pixels_to_bytes(ps, true)[4 * k + 3]
        == 255 by {
        assert(ps[k].a == 255);
    }
}

/// Channel conversion the other way: encoding a four-channel image and
/// decoding it three-channel drops exactly the alpha bytes.
pub proof fn lemma_decode_rgba_as_rgb(data: Seq<u8>, h: Header, rm: bool)
    requires
        spec_header_valid(h),
        h.channels == Channels::Rgba,
        data.len() == h.width * h.height * 4,
    ensures
        ({
            let pixels = spec_image_pixels(
                data,
                h.width as int,
                h.height as int,
                h.width * 4,
                SourceChannels::Rgba,
            );
            let enc = spec_encode(h, pixels, rm);
            let r = spec_decode_ops(enc, 14, (h.width * h.height) as nat);
            &&& r is Ok
            &&& ({
                let out = pixels_to_bytes(r->Ok_0.0, false);
                &&& out.len() == 3 * (h.width * h.height)
                &&& forall|k: int, c: int|
                    0 <= k < h.width * h.height && 0 <= c < 3 ==> #[trigger] out[3 * k + c]
                        == data[4 * k + c]
            })
        }),
{
    let n = h.width * h.height;
    let pixels = spec_image_pixels(
        data,
        h.width as int,
        h.height as int,
        h.width * 4,
        SourceChannels::Rgba,
    );
    lemma_byte_roundtrip(data, h, rm);
    lemma_encode_decode(h, pixels, rm, Seq::<u8>::empty());
    assert(spec_encode(h, pixels, rm) + Seq::<u8>::empty() =~= spec_encode(h, pixels, rm));
    let r = spec_decode_ops(spec_encode(h, pixels, rm), 14, n as nat);
    let ps = r->Ok_0.0;
    lemma_channel_conversion(ps);
    assert(pixels_to_bytes(ps, true) == data);
}

} // verus!
