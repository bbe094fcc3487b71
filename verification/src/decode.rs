//! Decoder: opcode dispatch over byte slices and byte sources.
//!
//! The meaning of an opcode stream is fixed by the spec-level machine
//! `dec_ops`: it walks the bytes, keeps the 64-entry pixel cache and the
//! previous pixel, and yields the decoded pixel sequence together with the
//! position just past the last opcode.  Both executable decoders are
//! verified against that one machine: the slice decoder over its input
//! buffer, and the streaming decoder over exactly the bytes its source
//! handed out -- so the two paths provably agree wherever they see the
//! same bytes.

use vstd::prelude::*;

use crate::consts::{spec_padding, QOI_HEADER_SIZE, QOI_PADDING_SIZE};
use crate::error::Error;
use crate::header::{spec_header_decode, spec_header_valid, Header};
use crate::pixel::{spec_diff_px, spec_hash, spec_luma_px, Pixel};
use crate::types::Channels;
use crate::utils::{lemma_read_bytes_of, read_bytes_of, ByteRead};

verus! {

/// The initial pixel cache: 64 slots, all zero including alpha.
pub open spec fn init_index() -> Seq<Pixel> {
    Seq::new(64nat, |i: int| Pixel { r: 0u8, g: 0u8, b: 0u8, a: 0u8 })
}

/// The initial previous-pixel register: opaque black, alpha 255.
pub open spec fn init_px() -> Pixel {
    Pixel { r: 0u8, g: 0u8, b: 0u8, a: 255u8 }
}

/// How many continuation bytes follow an opcode byte: one for LUMA, three
/// for RGB, four for RGBA, none otherwise.
pub open spec fn spec_op_extra(b1: u8) -> nat {
    if 0x80 <= b1 && b1 <= 0xBF {
        1nat
    } else if b1 == 0xFE {
        3nat
    } else if b1 == 0xFF {
        4nat
    } else {
        0nat
    }
}

/// How many pixels an opcode writes when `remaining` pixels are still owed:
/// a RUN writes its length, clamped to what is owed; all others write one.
pub open spec fn spec_wrote(b1: u8, remaining: nat) -> nat {
    if 0xC0 <= b1 && b1 <= 0xFD {
        let n = ((b1 & 0x3F) + 1) as nat;
        if n <= remaining {
            n
        } else {
            remaining
        }
    } else {
        1nat
    }
}

/// The pixel an opcode leaves in the previous-pixel register.
/// `extra` holds exactly the continuation bytes of the opcode.
pub open spec fn dec_op_px(ix: Seq<Pixel>, px: Pixel, b1: u8, extra: Seq<u8>) -> Pixel {
    if b1 <= 0x3F {
        ix[b1 as int]
    } else if b1 <= 0x7F {
        spec_diff_px(px, b1)
    } else if b1 <= 0xBF {
        spec_luma_px(px, b1, extra[0])
    } else if b1 <= 0xFD {
        px
    } else if b1 == 0xFE {
        Pixel { r: extra[0], g: extra[1], b: extra[2], a: px.a }
    } else {
        Pixel { r: extra[0], g: extra[1], b: extra[2], a: extra[3] }
    }
}

/// The pixel cache an opcode leaves behind.  INDEX leaves it alone; every
/// other opcode stores the pixel it leaves in the register at that pixel's
/// hash slot -- a RUN therefore re-stores the run pixel, exactly as the
/// reference decoder does.
pub open spec fn dec_op_ix(ix: Seq<Pixel>, px: Pixel, b1: u8, extra: Seq<u8>) -> Seq<Pixel> {
    if b1 <= 0x3F {
        ix
    } else {
        let px2 = dec_op_px(ix, px, b1, extra);
        ix.update(spec_hash(px2) as int, px2)
    }
}

/// `m` copies of the pixel `p`.
pub open spec fn rep_px(p: Pixel, m: nat) -> Seq<Pixel> {
    Seq::new(m, |j: int| p)
}

/// The decoding machine.  Starting at `pos` with cache `ix` and previous
/// pixel `px`, it consumes opcodes until `remaining` pixels have been
/// written, and returns the written pixels, the position just past the last
/// opcode, and the final cache and register; `None` means the bytes ran out
/// mid-stream.
#[verifier::opaque]
pub open spec fn dec_ops(bytes: Seq<u8>, pos: int, remaining: nat, ix: Seq<Pixel>, px: Pixel)
    -> Option<(Seq<Pixel>, int, Seq<Pixel>, Pixel)>
    decreases remaining,
{
    if remaining == 0 {
        Some((Seq::empty(), pos, ix, px))
    } else if !(0 <= pos < bytes.len()) {
        None
    } else {
        let b1 = bytes[pos];
        let ex = spec_op_extra(b1) as int;
        if pos + 1 + ex > bytes.len() {
            None
        } else {
            let extra = bytes.subrange(pos + 1, pos + 1 + ex);
            let m = spec_wrote(b1, remaining);
            let px2 = dec_op_px(ix, px, b1, extra);
            let ix2 = dec_op_ix(ix, px, b1, extra);
            match dec_ops(bytes, pos + 1 + ex, (remaining - m) as nat, ix2, px2) {
                Some(t) => Some((rep_px(px2, m) + t.0, t.1, t.2, t.3)),
                None => None,
            }
        }
    }
}

/// What decoding `n` pixels starting at `pos` returns: the pixels and the
/// number of bytes consumed, end-marker included; or the error.
pub open spec fn spec_decode_ops(bytes: Seq<u8>, pos: int, n: nat) -> Result<
    (Seq<Pixel>, int),
    Error,
> {
    match dec_ops(bytes, pos, n, init_index(), init_px()) {
        None => Err(Error::UnexpectedBufferEnd),
        Some(t) => {
            let end = t.1;
            if bytes.len() - end < QOI_PADDING_SIZE {
                Err(Error::UnexpectedBufferEnd)
            } else if bytes.subrange(end, end + QOI_PADDING_SIZE) != spec_padding() {
                Err(Error::InvalidPadding)
            } else {
                Ok((t.0, end + QOI_PADDING_SIZE - pos))
            }
        },
    }
}

/// The bytes a pixel contributes to the output buffer: R, G, B and, for
/// four-channel output, A.
pub open spec fn px_bytes(p: Pixel, c4: bool) -> Seq<u8> {
    if c4 {
        seq![p.r, p.g, p.b, p.a]
    } else {
        seq![p.r, p.g, p.b]
    }
}

/// The output buffer a pixel sequence produces.
pub open spec fn pixels_to_bytes(ps: Seq<Pixel>, c4: bool) -> Seq<u8>
    decreases ps.len(),
{
    if ps.len() == 0 {
        Seq::empty()
    } else {
        px_bytes(ps[0], c4) + pixels_to_bytes(ps.skip(1), c4)
    }
}

/// Appending a pixel appends its bytes.
pub proof fn lemma_ptb_push(ps: Seq<Pixel>, p: Pixel, c4: bool)
    ensures
        pixels_to_bytes(ps.push(p), c4) == pixels_to_bytes(ps, c4) + px_bytes(p, c4),
    decreases ps.len(),
{
    if ps.len() == 0 {
        assert(ps.push(p).skip(1) =~= ps);
        assert(ps.push(p)[0] == p);
        assert(pixels_to_bytes(ps, c4) == Seq::<u8>::empty());
        assert(px_bytes(p, c4) + Seq::<u8>::empty() =~= px_bytes(p, c4));
        assert(Seq::<u8>::empty() + px_bytes(p, c4) =~= px_bytes(p, c4));
        assert(pixels_to_bytes(ps.push(p), c4) == pixels_to_bytes(ps, c4) + px_bytes(p, c4));
    } else {
        lemma_ptb_push(ps.skip(1), p, c4);
        assert(ps.push(p).skip(1) =~= ps.skip(1).push(p));
        assert(ps.push(p)[0] == ps[0]);
        assert(pixels_to_bytes(ps.push(p), c4) =~= pixels_to_bytes(ps, c4) + px_bytes(p, c4));
    }
}

/// Each pixel contributes three or four bytes.
pub proof fn lemma_ptb_len(ps: Seq<Pixel>, c4: bool)
    ensures
        pixels_to_bytes(ps, c4).len() == ps.len() * (if c4 {
            4int
        } else {
            3int
        }),
    decreases ps.len(),
{
    if ps.len() > 0 {
        lemma_ptb_len(ps.skip(1), c4);
    }
}

/// One unfolding of the decoding machine: with at least one pixel owed and
/// the whole opcode in range, decoding is one opcode step followed by the
/// machine on the rest.
pub proof fn lemma_dec_unfold(bytes: Seq<u8>, pos: int, remaining: nat, ix: Seq<Pixel>, px: Pixel)
    requires
        remaining >= 1,
        0 <= pos < bytes.len(),
        pos + 1 + spec_op_extra(bytes[pos]) <= bytes.len(),
    ensures
        ({
            let b1 = bytes[pos];
            let ex = spec_op_extra(b1) as int;
            let extra = bytes.subrange(pos + 1, pos + 1 + ex);
            let m = spec_wrote(b1, remaining);
            let px2 = dec_op_px(ix, px, b1, extra);
            let ix2 = dec_op_ix(ix, px, b1, extra);
            dec_ops(bytes, pos, remaining, ix, px) == match dec_ops(
                bytes,
                pos + 1 + ex,
                (remaining - m) as nat,
                ix2,
                px2,
            ) {
                Some(t) => Some((rep_px(px2, m) + t.0, t.1, t.2, t.3)),
                None => None::<(Seq<Pixel>, int, Seq<Pixel>, Pixel)>,
            }
        }),
{
    reveal(dec_ops);
}

/// The machine demands at least one byte for every owed pixel.
pub proof fn lemma_dec_short(bytes: Seq<u8>, pos: int, remaining: nat, ix: Seq<Pixel>, px: Pixel)
    requires
        remaining >= 1,
        !(0 <= pos < bytes.len()) || pos + 1 + spec_op_extra(bytes[pos]) > bytes.len(),
    ensures
        dec_ops(bytes, pos, remaining, ix, px) is None,
{
    reveal(dec_ops);
}

/// With no pixel owed the machine stops where it stands.
pub proof fn lemma_dec_done(bytes: Seq<u8>, pos: int, ix: Seq<Pixel>, px: Pixel)
    ensures
        dec_ops(bytes, pos, 0nat, ix, px) == Some((Seq::<Pixel>::empty(), pos, ix, px)),
{
    reveal(dec_ops);
}

/// Whether every RUN opcode in the stream fully fits the pixels still
/// owed when it is reached, so that no run is clamped.  A decode built one
/// opcode at a time, each sized against the pixels owed at that moment,
/// has this shape for all but possibly its final opcode.
#[verifier::opaque]
spec fn dec_runs_fit(bytes: Seq<u8>, pos: int, remaining: nat, ix: Seq<Pixel>, px: Pixel) -> bool
    decreases remaining,
{
    if remaining == 0 {
        true
    } else if !(0 <= pos < bytes.len()) {
        false
    } else {
        let b1 = bytes[pos];
        let ex = spec_op_extra(b1) as int;
        if pos + 1 + ex > bytes.len() {
            false
        } else {
            let extra = bytes.subrange(pos + 1, pos + 1 + ex);
            let m = spec_wrote(b1, remaining);
            &&& (0xC0 <= b1 && b1 <= 0xFD ==> (b1 & 0x3F) + 1 <= remaining)
            &&& dec_runs_fit(
                bytes,
                pos + 1 + ex,
                (remaining - m) as nat,
                dec_op_ix(ix, px, b1, extra),
                dec_op_px(ix, px, b1, extra),
            )
        }
    }
}

/// With nothing owed, any stream has the unclamped shape.
proof fn lemma_fit_done(bytes: Seq<u8>, pos: int, ix: Seq<Pixel>, px: Pixel)
    ensures
        dec_runs_fit(bytes, pos, 0nat, ix, px),
{
    reveal(dec_runs_fit);
}

/// One unfolding of the unclamped-shape predicate at an opcode.
proof fn lemma_fit_unfold(bytes: Seq<u8>, pos: int, remaining: nat, ix: Seq<Pixel>, px: Pixel)
    requires
        remaining >= 1,
        0 <= pos < bytes.len(),
        pos + 1 + spec_op_extra(bytes[pos]) <= bytes.len(),
    ensures
        ({
            let b1 = bytes[pos];
            let ex = spec_op_extra(b1) as int;
            let extra = bytes.subrange(pos + 1, pos + 1 + ex);
            let m = spec_wrote(b1, remaining);
            dec_runs_fit(bytes, pos, remaining, ix, px) == ((0xC0 <= b1 && b1 <= 0xFD ==> (b1
                & 0x3F) + 1 <= remaining) && dec_runs_fit(
                bytes,
                pos + 1 + ex,
                (remaining - m) as nat,
                dec_op_ix(ix, px, b1, extra),
                dec_op_px(ix, px, b1, extra),
            ))
        }),
{
    reveal(dec_runs_fit);
}

/// A finished run never looked past the bytes it consumed: appending more
/// bytes changes nothing.
proof fn lemma_dec_extend(
    bytes: Seq<u8>,
    more: Seq<u8>,
    pos: int,
    k: nat,
    ix: Seq<Pixel>,
    px: Pixel,
)
    requires
        dec_ops(bytes, pos, k, ix, px) is Some,
    ensures
        dec_ops(bytes + more, pos, k, ix, px) == dec_ops(bytes, pos, k, ix, px),
    decreases k,
{
    if k == 0 {
        lemma_dec_done(bytes, pos, ix, px);
        lemma_dec_done(bytes + more, pos, ix, px);
    } else {
        if !(0 <= pos < bytes.len()) || pos + 1 + spec_op_extra(bytes[pos]) > bytes.len() {
            lemma_dec_short(bytes, pos, k, ix, px);
        }
        let b1 = bytes[pos];
        let ex = spec_op_extra(b1) as int;
        assert((bytes + more)[pos] == b1);
        let extra = bytes.subrange(pos + 1, pos + 1 + ex);
        assert((bytes + more).subrange(pos + 1, pos + 1 + ex) =~= extra);
        let m = spec_wrote(b1, k);
        lemma_dec_unfold(bytes, pos, k, ix, px);
        lemma_dec_unfold(bytes + more, pos, k, ix, px);
        lemma_dec_extend(
            bytes,
            more,
            pos + 1 + ex,
            (k - m) as nat,
            dec_op_ix(ix, px, b1, extra),
            dec_op_px(ix, px, b1, extra),
        );
    }
}

/// One more opcode at the end of a fully consumed, unclamped run: the
/// machine takes that opcode's step after the run, with `m` pixels owed
/// for it.
#[verifier::rlimit(100)]
proof fn lemma_dec_append(
    bytes: Seq<u8>,
    b: Seq<u8>,
    pos: int,
    k: nat,
    m: nat,
    ix0: Seq<Pixel>,
    px0: Pixel,
)
    requires
        0 <= pos <= bytes.len(),
        dec_ops(bytes, pos, k, ix0, px0) matches Some(t) && t.1 == bytes.len(),
        dec_runs_fit(bytes, pos, k, ix0, px0),
        b.len() == 1 + spec_op_extra(b[0]),
        m >= 1,
        m == spec_wrote(b[0], m),
    ensures
        ({
            let t = dec_ops(bytes, pos, k, ix0, px0)->Some_0;
            let extra = b.subrange(1, b.len() as int);
            let px2 = dec_op_px(t.2, t.3, b[0], extra);
            let ix2 = dec_op_ix(t.2, t.3, b[0], extra);
            &&& dec_ops(bytes + b, pos, (k + m) as nat, ix0, px0) == Some(
                (t.0 + rep_px(px2, m), bytes.len() + b.len() as int, ix2, px2),
            )
            &&& (!(0xC0 <= b[0] && b[0] <= 0xFD) || (b[0] & 0x3F) + 1 <= m) ==> dec_runs_fit(
                bytes + b,
                pos,
                (k + m) as nat,
                ix0,
                px0,
            )
        }),
    decreases k,
{
    let joined = bytes + b;
    let extra = b.subrange(1, b.len() as int);
    if k == 0 {
        lemma_dec_done(bytes, pos, ix0, px0);
        assert(pos == bytes.len());
        assert(joined[pos] == b[0]);
        assert(joined.subrange(pos + 1, pos + 1 + spec_op_extra(b[0]) as int) =~= extra);
        let px2 = dec_op_px(ix0, px0, b[0], extra);
        let ix2 = dec_op_ix(ix0, px0, b[0], extra);
        lemma_dec_unfold(joined, pos, m, ix0, px0);
        lemma_dec_done(joined, pos + b.len() as int, ix2, px2);
        assert(rep_px(px2, m) + Seq::<Pixel>::empty() =~= rep_px(px2, m));
        assert(Seq::<Pixel>::empty() + rep_px(px2, m) =~= rep_px(px2, m));
        if !(0xC0 <= b[0] && b[0] <= 0xFD) || (b[0] & 0x3F) + 1 <= m {
            lemma_fit_unfold(joined, pos, m, ix0, px0);
            lemma_fit_done(joined, pos + 1 + spec_op_extra(b[0]) as int, ix2, px2);
        }
    } else {
        if !(0 <= pos < bytes.len()) || pos + 1 + spec_op_extra(bytes[pos]) > bytes.len() {
            lemma_dec_short(bytes, pos, k, ix0, px0);
        }
        let b1 = bytes[pos];
        let ex = spec_op_extra(b1) as int;
        assert(joined[pos] == b1);
        let extra1 = bytes.subrange(pos + 1, pos + 1 + ex);
        assert(joined.subrange(pos + 1, pos + 1 + ex) =~= extra1);
        lemma_fit_unfold(bytes, pos, k, ix0, px0);
        let m1 = spec_wrote(b1, k);
        let m1j = spec_wrote(b1, (k + m) as nat);
        assert(m1j == m1);
        lemma_dec_unfold(bytes, pos, k, ix0, px0);
        lemma_dec_unfold(joined, pos, (k + m) as nat, ix0, px0);
        let ix1 = dec_op_ix(ix0, px0, b1, extra1);
        let px1 = dec_op_px(ix0, px0, b1, extra1);
        lemma_dec_append(bytes, b, pos + 1 + ex, (k - m1) as nat, m, ix1, px1);
        let sub = dec_ops(bytes, pos + 1 + ex, (k - m1) as nat, ix1, px1)->Some_0;
        let px2 = dec_op_px(sub.2, sub.3, b[0], extra);
        assert(rep_px(px1, m1) + (sub.0 + rep_px(px2, m)) =~= (rep_px(px1, m1) + sub.0) + rep_px(
            px2,
            m,
        ));
        if !(0xC0 <= b[0] && b[0] <= 0xFD) || (b[0] & 0x3F) + 1 <= m {
            lemma_fit_unfold(joined, pos, (k + m) as nat, ix0, px0);
        }
    }
}

/// The machine writes exactly the owed number of pixels.
pub proof fn lemma_dec_len(bytes: Seq<u8>, pos: int, remaining: nat, ix: Seq<Pixel>, px: Pixel)
    ensures
        dec_ops(bytes, pos, remaining, ix, px) matches Some(t) ==> t.0.len() == remaining,
    decreases remaining,
{
    reveal(dec_ops);
    if remaining == 0 {
    } else if !(0 <= pos < bytes.len()) {
    } else {
        let b1 = bytes[pos];
        let ex = spec_op_extra(b1) as int;
        if pos + 1 + ex <= bytes.len() {
            let extra = bytes.subrange(pos + 1, pos + 1 + ex);
            let m = spec_wrote(b1, remaining);
            lemma_dec_len(
                bytes,
                pos + 1 + ex,
                (remaining - m) as nat,
                dec_op_ix(ix, px, b1, extra),
                dec_op_px(ix, px, b1, extra),
            );
        }
    }
}

/// The running decoder state: the 64-entry pixel cache and the
/// previous-pixel register.
struct DecState {
    index: Vec<Pixel>,
    px: Pixel,
}

impl DecState {
    spec fn wf(&self) -> bool {
        self.index@.len() == 64
    }

    /// The initial decoder state.
    fn init() -> (r: Self)
        ensures
            r.wf(),
            r.index@ == init_index(),
            r.px == init_px(),
    {
        let index: Vec<Pixel> = vec![Pixel { r: 0u8, g: 0u8, b: 0u8, a: 0u8 }; 64];
        let r = DecState { index, px: Pixel { r: 0, g: 0, b: 0, a: 255 } };
        proof {
            assert(r.index@ =~= init_index());
        }
        r
    }
}

/// Pushes the output bytes of one pixel.
fn push_px(out: &mut Vec<u8>, p: Pixel, c4: bool)
    ensures
        final(out)@ == old(out)@ + px_bytes(p, c4),
{
    out.push(p.r);
    out.push(p.g);
    out.push(p.b);
    if c4 {
        out.push(p.a);
    }
    proof {
        assert(out@ =~= old(out)@ + px_bytes(p, c4));
    }
}

/// The number of continuation bytes of an opcode byte.
fn op_extra_len(b1: u8) -> (n: usize)
    ensures
        n == spec_op_extra(b1),
        n <= 4,
{
    if b1 == 0xFE {
        3
    } else if b1 == 0xFF {
        4
    } else if 0x80 <= b1 && b1 <= 0xBF {
        1
    } else {
        0
    }
}

/// Applies one opcode to the decoder state and writes the pixels it
/// produces; `extra` holds exactly the opcode's continuation bytes and
/// `remaining` how many pixels are still owed.
fn apply_op(st: &mut DecState, b1: u8, extra: &Vec<u8>, remaining: usize, c4: bool, out: &mut Vec<
    u8,
>) -> (wrote: usize)
    requires
        old(st).wf(),
        extra@.len() == spec_op_extra(b1),
        remaining >= 1,
    ensures
        final(st).wf(),
        wrote == spec_wrote(b1, remaining as nat),
        1 <= wrote <= remaining,
        final(st).px == dec_op_px(old(st).index@, old(st).px, b1, extra@),
        final(st).index@ == dec_op_ix(old(st).index@, old(st).px, b1, extra@),
        final(out)@ == old(out)@ + pixels_to_bytes(
            rep_px(dec_op_px(old(st).index@, old(st).px, b1, extra@), spec_wrote(
                b1,
                remaining as nat,
            )),
            c4,
        ),
{
    let mut wrote: usize = 1;
    if b1 <= 0x3F {
        st.px = st.index[b1 as usize];
    } else if b1 <= 0x7F {
        st.px.update_diff(b1);
        let h = st.px.hash_index();
        let p = st.px;
        st.index[h as usize] = p;
    } else if b1 <= 0xBF {
        st.px.update_luma(b1, extra[0]);
        let h = st.px.hash_index();
        let p = st.px;
        st.index[h as usize] = p;
    } else if b1 <= 0xFD {
        let n = (b1 & 0x3F) as usize + 1;
        wrote = if n <= remaining {
            n
        } else {
            remaining
        };
        let h = st.px.hash_index();
        let p = st.px;
        st.index[h as usize] = p;
    } else if b1 == 0xFE {
        st.px.update_rgb(extra[0], extra[1], extra[2]);
        let h = st.px.hash_index();
        let p = st.px;
        st.index[h as usize] = p;
    } else {
        st.px.update_rgba(extra[0], extra[1], extra[2], extra[3]);
        let h = st.px.hash_index();
        let p = st.px;
        st.index[h as usize] = p;
    }
    let ghost px2 = dec_op_px(old(st).index@, old(st).px, b1, extra@);
    proof {
        assert(st.px == px2);
        assert(st.index@ == dec_op_ix(old(st).index@, old(st).px, b1, extra@));
        assert(wrote == spec_wrote(b1, remaining as nat));
    }
    proof {
        assert(rep_px(px2, 0nat) =~= Seq::<Pixel>::empty());
        assert(old(out)@ + pixels_to_bytes(rep_px(px2, 0nat), c4) =~= old(out)@);
    }
    let mut j: usize = 0;
    while j < wrote
        invariant
            j <= wrote,
            st.px == px2,
            out@ == old(out)@ + pixels_to_bytes(rep_px(px2, j as nat), c4),
        decreases wrote - j,
    {
        let p = st.px;
        push_px(out, p, c4);
        j += 1;
        proof {
            assert(rep_px(px2, j as nat) =~= rep_px(px2, (j - 1) as nat).push(px2));
            lemma_ptb_push(rep_px(px2, (j - 1) as nat), px2, c4);
            assert(old(out)@ + pixels_to_bytes(rep_px(px2, (j - 1) as nat), c4) + px_bytes(
                px2,
                c4,
            ) =~= old(out)@ + pixels_to_bytes(rep_px(px2, j as nat), c4));
        }
    }
    wrote
}

/// Decodes `n_px` pixels from `data` starting at `start`, appends their
/// bytes to `out` (four per pixel if `c4`), checks the end-marker, and
/// returns the number of bytes consumed, end-marker included.
#[verifier::rlimit(60)]
fn qoi_decode_impl_slice(data: &Vec<u8>, start: usize, n_px: usize, c4: bool, out: &mut Vec<u8>)
    -> (r: Result<usize, Error>)
    requires
        start <= data@.len(),
    ensures
        ({
            let s = spec_decode_ops(data@, start as int, n_px as nat);
            match s {
                Ok(t) => r == Ok::<usize, Error>(t.1 as usize) && 0 <= t.1 <= data@.len() - start
                    && final(out)@ == old(out)@ + pixels_to_bytes(t.0, c4),
                Err(e) => r == Err::<usize, Error>(e),
            }
        }),
{
    let ghost full = dec_ops(data@, start as int, n_px as nat, init_index(), init_px());
    let mut st = DecState::init();
    let mut pos = start;
    let mut produced: usize = 0;
    let ghost mut written: Seq<Pixel> = Seq::empty();
    let total = data.len();
    proof {
        assert(written + Seq::<Pixel>::empty() =~= written);
    }
    while produced < n_px
        invariant
            full == dec_ops(data@, start as int, n_px as nat, init_index(), init_px()),
            st.wf(),
            start <= pos <= total,
            total == data@.len(),
            produced <= n_px,
            written.len() == produced,
            out@ == old(out)@ + pixels_to_bytes(written, c4),
            ({
                let rest = dec_ops(data@, pos as int, (n_px - produced) as nat, st.index@, st.px);
                match rest {
                    None => full is None,
                    Some(t) => full == Some((written + t.0, t.1, t.2, t.3)),
                }
            }),
        decreases n_px - produced,
    {
        let ghost rest0 = dec_ops(data@, pos as int, (n_px - produced) as nat, st.index@, st.px);
        if pos >= total {
            proof {
                lemma_dec_short(data@, pos as int, (n_px - produced) as nat, st.index@, st.px);
                assert(full is None);
                assert(spec_decode_ops(data@, start as int, n_px as nat) == Err::<
                    (Seq<Pixel>, int),
                    Error,
                >(Error::UnexpectedBufferEnd));
            }
            return Err(Error::UnexpectedBufferEnd);
        }
        let b1 = data[pos];
        let ex = op_extra_len(b1);
        if ex > total - 1 - pos {
            proof {
                lemma_dec_short(data@, pos as int, (n_px - produced) as nat, st.index@, st.px);
                assert(full is None);
                assert(spec_decode_ops(data@, start as int, n_px as nat) == Err::<
                    (Seq<Pixel>, int),
                    Error,
                >(Error::UnexpectedBufferEnd));
            }
            return Err(Error::UnexpectedBufferEnd);
        }
        let mut extra: Vec<u8> = Vec::new();
        let mut k: usize = 0;
        while k < ex
            invariant
                k <= ex,
                pos + 1 + ex <= data@.len(),
                data@.len() <= usize::MAX,
                extra@ == data@.subrange(pos + 1, pos + 1 + k),
            decreases ex - k,
        {
            extra.push(data[pos + 1 + k]);
            k += 1;
            proof {
                assert(extra@ =~= data@.subrange(pos + 1, pos + 1 + k));
            }
        }
        let ghost old_written = written;
        let ghost pre_ix = st.index@;
        let ghost pre_px = st.px;
        let wrote = apply_op(&mut st, b1, &extra, n_px - produced, c4, out);
        proof {
            let m = spec_wrote(b1, (n_px - produced) as nat);
            let px2 = dec_op_px(pre_ix, pre_px, b1, extra@);
            assert(extra@ == data@.subrange(pos + 1, pos + 1 + ex));
            written = written + rep_px(px2, m);
            lemma_ptb_concat(old_written, rep_px(px2, m), c4);
            lemma_dec_unfold(data@, pos as int, (n_px - produced) as nat, pre_ix, pre_px);
            let rest1 = dec_ops(
                data@,
                pos + 1 + ex,
                (n_px - produced - wrote) as nat,
                st.index@,
                st.px,
            );
            match rest1 {
                None => {
                    assert(rest0 is None);
                },
                Some(t) => {
                    assert(rest0 == Some((rep_px(px2, m) + t.0, t.1, t.2, t.3)));
                    assert(old_written + (rep_px(px2, m) + t.0) =~= written + t.0);
                },
            }
        }
        pos = pos + 1 + ex;
        produced = produced + wrote;
    }
    proof {
        lemma_dec_done(data@, pos as int, st.index@, st.px);
        assert(written + Seq::<Pixel>::empty() =~= written);
        assert(full == Some((written, pos as int, st.index@, st.px)));
    }
    if total - pos < QOI_PADDING_SIZE {
        return Err(Error::UnexpectedBufferEnd);
    }
    let ok = data[pos] == 0 && data[pos + 1] == 0 && data[pos + 2] == 0 && data[pos + 3] == 0
        && data[pos + 4] == 0 && data[pos + 5] == 0 && data[pos + 6] == 0 && data[pos + 7] == 1;
    proof {
        let pad = data@.subrange(pos as int, pos + QOI_PADDING_SIZE);
        if ok {
            assert(pad =~= spec_padding());
        } else {
            assert(pad != spec_padding()) by {
                if pad == spec_padding() {
                    assert(pad[0] == 0 && pad[1] == 0 && pad[2] == 0 && pad[3] == 0 && pad[4] == 0
                        && pad[5] == 0 && pad[6] == 0 && pad[7] == 1);
                }
            }
        }
    }
    if !ok {
        return Err(Error::InvalidPadding);
    }
    Ok(pos + QOI_PADDING_SIZE - start)
}

/// Concatenating pixel sequences concatenates their bytes.
pub proof fn lemma_ptb_concat(s1: Seq<Pixel>, s2: Seq<Pixel>, c4: bool)
    ensures
        pixels_to_bytes(s1 + s2, c4) == pixels_to_bytes(s1, c4) + pixels_to_bytes(s2, c4),
    decreases s2.len(),
{
    if s2.len() == 0 {
        assert(s1 + s2 =~= s1);
        assert(pixels_to_bytes(s1, c4) + pixels_to_bytes(s2, c4) =~= pixels_to_bytes(s1, c4));
    } else {
        lemma_ptb_concat(s1.push(s2[0]), s2.skip(1), c4);
        lemma_ptb_push(s1, s2[0], c4);
        assert(s1.push(s2[0]) + s2.skip(1) =~= s1 + s2);
        assert(pixels_to_bytes(s1, c4) + px_bytes(s2[0], c4) + pixels_to_bytes(s2.skip(1), c4)
            =~= pixels_to_bytes(s1, c4) + pixels_to_bytes(s2, c4));
    }
}

/// Validates the requested and stored channel counts, then decodes.
/// `channels` is the caller's output channel count, `src_channels` the
/// header's; both must be 3 or 4.
fn qoi_decode_impl_slice_all(
    data: &Vec<u8>,
    start: usize,
    n_px: usize,
    channels: u8,
    src_channels: u8,
    out: &mut Vec<u8>,
) -> (r: Result<usize, Error>)
    requires
        start <= data@.len(),
    ensures
        !((channels == 3 || channels == 4) && (src_channels == 3 || src_channels == 4)) ==> r
            == Err::<usize, Error>(Error::InvalidChannels { channels }),
        (channels == 3 || channels == 4) && (src_channels == 3 || src_channels == 4) ==> ({
            let s = spec_decode_ops(data@, start as int, n_px as nat);
            match s {
                Ok(t) => r == Ok::<usize, Error>(t.1 as usize) && 0 <= t.1 <= data@.len() - start
                    && final(out)@ == old(out)@ + pixels_to_bytes(t.0, channels == 4),
                Err(e) => r == Err::<usize, Error>(e),
            }
        }),
{
    if (channels == 3 || channels == 4) && (src_channels == 3 || src_channels == 4) {
        qoi_decode_impl_slice(data, start, n_px, channels == 4, out)
    } else {
        Err(Error::InvalidChannels { channels })
    }
}

/// Decodes a QOI image into a pre-allocated buffer.
///
/// The decoded bytes fill the front of `buf`; the rest of `buf` is left as
/// it was.  Returns the decoded image header.
pub fn qoi_decode_to_buf(buf: &mut Vec<u8>, data: &Vec<u8>) -> (r: Result<Header, Error>)
    ensures
        ({
            match spec_header_decode(data@) {
                Err(e) => r == Err::<Header, Error>(e),
                Ok(h) => {
                    let size = h.width * h.height * h.channels.spec_as_u8();
                    if old(buf)@.len() < size {
                        r == Err::<Header, Error>(
                            Error::OutputBufferTooSmall {
                                size: old(buf)@.len() as usize,
                                required: size as usize,
                            },
                        )
                    } else {
                        match spec_decode_ops(
                            data@,
                            QOI_HEADER_SIZE as int,
                            (h.width * h.height) as nat,
                        ) {
                            Ok(t) => r == Ok::<Header, Error>(h) && final(buf)@ == pixels_to_bytes(
                                t.0,
                                h.channels == Channels::Rgba,
                            ) + old(buf)@.skip(size as int),
                            Err(e) => r == Err::<Header, Error>(e),
                        }
                    }
                },
            }
        }),
{
    let mut decoder = match QoiDecoder::new(data) {
        Ok(d) => d,
        Err(e) => { return Err(e) },
    };
    match decoder.decode_to_buf(buf) {
        Ok(_) => Ok(*decoder.header()),
        Err(e) => Err(e),
    }
}

/// Decodes a QOI image into a newly allocated byte vector, together with
/// its header.
pub fn qoi_decode_to_vec(data: &Vec<u8>) -> (r: Result<(Header, Vec<u8>), Error>)
    ensures
        ({
            match spec_header_decode(data@) {
                Err(e) => r matches Err(e2) && e2 == e,
                Ok(h) => match spec_decode_ops(
                    data@,
                    QOI_HEADER_SIZE as int,
                    (h.width * h.height) as nat,
                ) {
                    Ok(t) => r matches Ok(p) && p.0 == h && p.1@ == pixels_to_bytes(
                        t.0,
                        h.channels == Channels::Rgba,
                    ),
                    Err(e) => r matches Err(e2) && e2 == e,
                },
            }
        }),
{
    let mut decoder = match QoiDecoder::new(data) {
        Ok(d) => d,
        Err(e) => { return Err(e) },
    };
    let out = match decoder.decode_to_vec() {
        Ok(v) => v,
        Err(e) => { return Err(e) },
    };
    Ok((*decoder.header(), out))
}

/// Decodes and validates the 14-byte header of a QOI image.
pub fn qoi_decode_header(data: &Vec<u8>) -> (r: Result<Header, Error>)
    ensures
        r == spec_header_decode(data@),
        r matches Ok(h) ==> spec_header_valid(h),
{
    Header::decode(data)
}

/// Decoder over an in-memory byte buffer: parses and keeps the header, then
/// decodes the opcode stream that follows it.
pub struct QoiDecoder<'a> {
    data: &'a Vec<u8>,
    pos: usize,
    header: Header,
    channels: Channels,
}

impl<'a> QoiDecoder<'a> {
    /// The header is validated and the position stays inside the buffer.
    #[verifier::type_invariant]
    closed spec fn type_inv(self) -> bool {
        &&& spec_header_valid(self.header)
        &&& QOI_HEADER_SIZE <= self.pos <= self.data@.len()
    }

    /// The whole input buffer.
    pub closed spec fn spec_data(&self) -> Seq<u8> {
        self.data@
    }

    /// The position decoding has reached.
    pub closed spec fn spec_pos(&self) -> int {
        self.pos as int
    }

    /// The image header.
    pub closed spec fn spec_header(&self) -> Header {
        self.header
    }

    /// The channel count of the output.
    pub closed spec fn spec_channels(&self) -> Channels {
        self.channels
    }

    /// Parses and validates the header; decoding will start right after it.
    pub fn new(data: &'a Vec<u8>) -> (r: Result<Self, Error>)
        ensures
            ({
                match spec_header_decode(data@) {
                    Ok(h) => r matches Ok(d) && d.spec_header() == h && d.spec_channels()
                        == h.channels && d.spec_data() == data@ && d.spec_pos() == QOI_HEADER_SIZE
                        && spec_header_valid(h),
                    Err(e) => r matches Err(e2) && e2 == e,
                }
            }),
    {
        let header = match Header::decode(data) {
            Ok(h) => h,
            Err(e) => { return Err(e) },
        };
        Ok(QoiDecoder { data, pos: QOI_HEADER_SIZE, header, channels: header.channels })
    }

    /// The decoder with its output channel count replaced.
    pub fn with_channels(self, channels: Channels) -> (r: Self)
        ensures
            r.spec_channels() == channels,
            r.spec_header() == self.spec_header(),
            r.spec_data() == self.spec_data(),
            r.spec_pos() == self.spec_pos(),
    {
        proof {
            use_type_invariant(&self);
        }
        let QoiDecoder { data, pos, header, channels: _ } = self;
        QoiDecoder { data, pos, header, channels }
    }

    /// The channel count the output will have.
    pub fn channels(&self) -> (r: Channels)
        ensures
            r == self.spec_channels(),
    {
        self.channels
    }

    /// The image header.
    pub fn header(&self) -> (r: &Header)
        ensures
            *r == self.spec_header(),
            spec_header_valid(*r),
    {
        proof {
            use_type_invariant(self);
        }
        &self.header
    }

    /// The part of the input buffer decoding has not consumed yet.
    pub fn data(&self) -> (r: &'a [u8])
        ensures
            r@ == self.spec_data().skip(self.spec_pos()),
    {
        proof {
            use_type_invariant(self);
        }
        let s: &'a [u8] = self.data.as_slice();
        let r = vstd::slice::slice_subrange(s, self.pos, s.len());
        proof {
            assert(r@ =~= self.spec_data().skip(self.spec_pos()));
        }
        r
    }

    /// Decodes the image into the front of `buf`, leaving the rest of `buf`
    /// unchanged, and returns the number of bytes the image fills.
    pub fn decode_to_buf(&mut self, buf: &mut Vec<u8>) -> (r: Result<usize, Error>)
        ensures
            ({
                let h = old(self).spec_header();
                let c4 = old(self).spec_channels() == Channels::Rgba;
                let size = h.width * h.height * old(self).spec_channels().spec_as_u8();
                if old(buf)@.len() < size {
                    r == Err::<usize, Error>(
                        Error::OutputBufferTooSmall {
                            size: old(buf)@.len() as usize,
                            required: size as usize,
                        },
                    ) && *final(self) == *old(self) && final(buf)@ == old(buf)@
                } else {
                    match spec_decode_ops(
                        old(self).spec_data(),
                        old(self).spec_pos(),
                        (h.width * h.height) as nat,
                    ) {
                        Ok(t) => r == Ok::<usize, Error>(size as usize) && final(buf)@
                            == pixels_to_bytes(t.0, c4) + old(buf)@.skip(size as int) && final(self).spec_pos() == old(self).spec_pos() + t.1 && final(self).spec_header()
                            == h && final(self).spec_channels() == old(self).spec_channels()
                            && final(self).spec_data() == old(self).spec_data(),
                        Err(e) => r == Err::<usize, Error>(e) && *final(self) == *old(self)
                            && final(buf)@ == old(buf)@,
                    }
                }
            }),
    {
        proof {
            use_type_invariant(&*self);
        }
        let n = self.header.n_pixels();
        let c = self.channels.as_u8() as usize;
        proof {
            assert(n * c <= 400_000_000 * 4) by {
                if c == 3 {
                    assert(n * c == n * 3);
                } else {
                    assert(n * c == n * 4);
                }
            }
        }
        let size = n * c;
        if buf.len() < size {
            return Err(Error::OutputBufferTooSmall { size: buf.len(), required: size });
        }
        let total = self.data.len();
        let mut tmp: Vec<u8> = Vec::new();
        let consumed = match qoi_decode_impl_slice_all(
            self.data,
            self.pos,
            n,
            self.channels.as_u8(),
            self.header.channels.as_u8(),
            &mut tmp,
        ) {
            Ok(c) => c,
            Err(e) => { return Err(e) },
        };
        proof {
            lemma_dec_len(
                self.data@,
                self.pos as int,
                (self.header.width * self.header.height) as nat,
                init_index(),
                init_px(),
            );
            let t = spec_decode_ops(
                self.data@,
                self.pos as int,
                (self.header.width * self.header.height) as nat,
            )->Ok_0;
            lemma_ptb_len(t.0, self.channels == Channels::Rgba);
            assert(tmp@.len() == size);
        }
        let mut i: usize = 0;
        while i < size
            invariant
                i <= size,
                size <= buf@.len(),
                buf@.len() == old(buf)@.len(),
                tmp@.len() >= size,
                buf@ == tmp@.take(i as int) + old(buf)@.skip(i as int),
            decreases size - i,
        {
            buf[i] = tmp[i];
            i += 1;
            proof {
                assert(buf@ =~= tmp@.take(i as int) + old(buf)@.skip(i as int));
            }
        }
        self.pos = self.pos + consumed;
        proof {
            let t = spec_decode_ops(
                self.data@,
                old(self).spec_pos(),
                (self.header.width * self.header.height) as nat,
            )->Ok_0;
            assert(tmp@ =~= pixels_to_bytes(t.0, self.channels == Channels::Rgba));
            assert(tmp@.take(size as int) =~= tmp@);
            assert(buf@ =~= tmp@ + old(buf)@.skip(size as int));
        }
        Ok(size)
    }

    /// Decodes the image into a newly allocated byte vector.
    pub fn decode_to_vec(&mut self) -> (r: Result<Vec<u8>, Error>)
        ensures
            ({
                let h = old(self).spec_header();
                let c4 = old(self).spec_channels() == Channels::Rgba;
                match spec_decode_ops(
                    old(self).spec_data(),
                    old(self).spec_pos(),
                    (h.width * h.height) as nat,
                ) {
                    Ok(t) => r matches Ok(v) && v@ == pixels_to_bytes(t.0, c4) && final(self).spec_pos() == old(self).spec_pos() + t.1 && final(self).spec_header() == h
                        && final(self).spec_channels() == old(self).spec_channels() && final(self).spec_data() == old(self).spec_data(),
                    Err(e) => r matches Err(e2) && e2 == e && *final(self) == *old(self),
                }
            }),
    {
        proof {
            use_type_invariant(&*self);
        }
        let n = self.header.n_pixels();
        let total = self.data.len();
        let mut out: Vec<u8> = Vec::new();
        let consumed = match qoi_decode_impl_slice_all(
            self.data,
            self.pos,
            n,
            self.channels.as_u8(),
            self.header.channels.as_u8(),
            &mut out,
        ) {
            Ok(c) => c,
            Err(e) => { return Err(e) },
        };
        self.pos = self.pos + consumed;
        Ok(out)
    }
}

/// Decodes `n_px` pixels from a byte source, appending their bytes to
/// `out`, and then demands the 8-byte end-marker from the source.  The
/// bytes come from outside, so the contract speaks of whatever came back:
/// on success, the bytes consumed from the source form exactly a valid
/// opcode stream plus end-marker, and the in-memory machine run on those
/// same bytes yields exactly the returned pixels -- the streaming and
/// slice paths agree byte for byte.  An `InvalidPadding` error likewise
/// means the consumed bytes decode to that very error.
fn qoi_decode_impl_stream<R: ByteRead>(reader: &mut R, n_px: usize, c4: bool, out: &mut Vec<u8>)
    -> (r: (Result<(), Error>, Ghost<Seq<Pixel>>))
    ensures
        old(reader).consumed().is_prefix_of(final(reader).consumed()),
        r.0 is Ok ==> ({
            let cs = read_bytes_of(old(reader).consumed(), final(reader).consumed());
            &&& spec_decode_ops(cs, 0, n_px as nat) == Ok::<(Seq<Pixel>, int), Error>(
                (r.1@, cs.len() as int),
            )
            &&& r.1@.len() == n_px
            &&& final(out)@ == old(out)@ + pixels_to_bytes(r.1@, c4)
        }),
        r.0 == Err::<(), Error>(Error::InvalidPadding) ==> ({
            let cs = read_bytes_of(old(reader).consumed(), final(reader).consumed());
            spec_decode_ops(cs, 0, n_px as nat) == Err::<(Seq<Pixel>, int), Error>(
                Error::InvalidPadding,
            )
        }),
        r.0 matches Err(e) ==> e == Error::IoError || e == Error::UnexpectedBufferEnd || e
            == Error::InvalidPadding,
{
    let mut st = DecState::init();
    let mut produced: usize = 0;
    let ghost mut written: Seq<Pixel> = Seq::empty();
    let ghost c0 = reader.consumed();
    let ghost mut cs: Seq<u8> = Seq::empty();
    proof {
        assert(old(out)@ + pixels_to_bytes(written, c4) =~= old(out)@);
        assert(c0 + cs =~= c0);
        lemma_dec_done(cs, 0, init_index(), init_px());
        lemma_fit_done(cs, 0, init_index(), init_px());
    }
    while produced < n_px
        invariant
            st.wf(),
            produced <= n_px,
            written.len() == produced,
            out@ == old(out)@ + pixels_to_bytes(written, c4),
            c0 == old(reader).consumed(),
            reader.consumed() == c0 + cs,
            dec_ops(cs, 0, produced as nat, init_index(), init_px()) == Some(
                (written, cs.len() as int, st.index@, st.px),
            ),
            produced < n_px ==> dec_runs_fit(cs, 0, produced as nat, init_index(), init_px()),
        decreases n_px - produced,
    {
        let op = match reader.read_exact_vec(1) {
            Ok(v) => v,
            Err(e) => {
                proof {
                    lemma_read_bytes_of(c0, cs);
                }
                return (Err(e), Ghost(Seq::empty()));
            },
        };
        let b1 = op[0];
        let ex = op_extra_len(b1);
        let extra = if ex > 0 {
            match reader.read_exact_vec(ex) {
                Ok(v) => v,
                Err(e) => {
                    proof {
                        lemma_read_bytes_of(c0, cs + op@);
                        assert(reader.consumed() =~= c0 + (cs + op@));
                    }
                    return (Err(e), Ghost(Seq::empty()));
                },
            }
        } else {
            Vec::new()
        };
        let ghost b = op@ + extra@;
        let ghost pre_ix = st.index@;
        let ghost pre_px = st.px;
        let ghost pre_written = written;
        let ghost pre_cs = cs;
        proof {
            assert(b.len() == 1 + spec_op_extra(b1));
            assert(b[0] == b1);
            assert(b.subrange(1, b.len() as int) =~= extra@);
            assert(reader.consumed() =~= c0 + (cs + b));
        }
        let wrote = apply_op(&mut st, b1, &extra, n_px - produced, c4, out);
        proof {
            let big = (n_px - produced) as nat;
            let m = spec_wrote(b1, big);
            let px2 = dec_op_px(pre_ix, pre_px, b1, extra@);
            assert(m == spec_wrote(b1, m));
            lemma_dec_append(pre_cs, b, 0, produced as nat, m, init_index(), init_px());
            written = pre_written + rep_px(px2, m);
            cs = pre_cs + b;
            lemma_ptb_concat(pre_written, rep_px(px2, m), c4);
            if produced + wrote < n_px {
                if 0xC0 <= b1 && b1 <= 0xFD {
                    assert((b1 & 0x3F) + 1 <= m);
                }
            }
        }
        produced = produced + wrote;
    }
    let pad = match reader.read_exact_vec(QOI_PADDING_SIZE) {
        Ok(v) => v,
        Err(e) => {
            proof {
                lemma_read_bytes_of(c0, cs);
            }
            return (Err(e), Ghost(Seq::empty()));
        },
    };
    let ghost cs2 = cs + pad@;
    proof {
        lemma_dec_extend(cs, pad@, 0, n_px as nat, init_index(), init_px());
        assert(reader.consumed() =~= c0 + cs2);
        lemma_read_bytes_of(c0, cs2);
        assert(cs2.subrange(cs.len() as int, cs.len() + QOI_PADDING_SIZE) =~= pad@);
    }
    let ok = pad[0] == 0 && pad[1] == 0 && pad[2] == 0 && pad[3] == 0 && pad[4] == 0 && pad[5]
        == 0 && pad[6] == 0 && pad[7] == 1;
    if !ok {
        proof {
            assert(pad@ != spec_padding()) by {
                if pad@ == spec_padding() {
                    assert(pad@[0] == 0 && pad@[1] == 0 && pad@[2] == 0 && pad@[3] == 0 && pad@[4]
                        == 0 && pad@[5] == 0 && pad@[6] == 0 && pad@[7] == 1);
                }
            }
        }
        return (Err(Error::InvalidPadding), Ghost(Seq::empty()));
    }
    proof {
        assert(pad@ =~= spec_padding());
    }
    (Ok(()), Ghost(written))
}

/// Validates the requested and stored channel counts, then decodes from
/// the byte source; the contract ties the result to the consumed bytes as
/// in the core above.
fn qoi_decode_impl_stream_all<R: ByteRead>(
    reader: &mut R,
    n_px: usize,
    channels: u8,
    src_channels: u8,
    out: &mut Vec<u8>,
) -> (r: (Result<(), Error>, Ghost<Seq<Pixel>>))
    ensures
        old(reader).consumed().is_prefix_of(final(reader).consumed()),
        !((channels == 3 || channels == 4) && (src_channels == 3 || src_channels == 4)) ==> r.0
            == Err::<(), Error>(Error::InvalidChannels { channels }),
        r.0 is Ok ==> ({
            let cs = read_bytes_of(old(reader).consumed(), final(reader).consumed());
            &&& spec_decode_ops(cs, 0, n_px as nat) == Ok::<(Seq<Pixel>, int), Error>(
                (r.1@, cs.len() as int),
            )
            &&& r.1@.len() == n_px
            &&& final(out)@ == old(out)@ + pixels_to_bytes(r.1@, channels == 4)
        }),
        r.0 == Err::<(), Error>(Error::InvalidPadding) ==> ({
            let cs = read_bytes_of(old(reader).consumed(), final(reader).consumed());
            spec_decode_ops(cs, 0, n_px as nat) == Err::<(Seq<Pixel>, int), Error>(
                Error::InvalidPadding,
            )
        }),
        (channels == 3 || channels == 4) && (src_channels == 3 || src_channels == 4) ==> (
        r.0 matches Err(e) ==> e == Error::IoError || e == Error::UnexpectedBufferEnd || e
            == Error::InvalidPadding),
{
    if (channels == 3 || channels == 4) && (src_channels == 3 || src_channels == 4) {
        qoi_decode_impl_stream(reader, n_px, channels == 4, out)
    } else {
        proof {
            assert(old(reader).consumed().is_prefix_of(reader.consumed())) by {
                assert(reader.consumed() =~= reader.consumed().subrange(
                    0,
                    reader.consumed().len() as int,
                ));
            }
        }
        (Err(Error::InvalidChannels { channels }), Ghost(Seq::empty()))
    }
}

/// Decoder over a byte source: reads and keeps the header, then decodes
/// the opcode stream as it arrives.
pub struct QoiStreamDecoder<R> {
    reader: R,
    header: Header,
    channels: Channels,
}

impl<R> QoiStreamDecoder<R> {
    /// The underlying byte source, as a value.
    pub closed spec fn spec_reader(&self) -> R {
        self.reader
    }

    /// The image header.
    pub closed spec fn spec_header(&self) -> Header {
        self.header
    }

    /// The channel count of the output.
    pub closed spec fn spec_channels(&self) -> Channels {
        self.channels
    }

    /// The decoder's header has been validated; `new` establishes this and
    /// every method keeps it.
    pub open spec fn wf(&self) -> bool {
        spec_header_valid(self.spec_header())
    }
}

impl<R: ByteRead> QoiStreamDecoder<R> {
    /// Reads exactly 14 bytes from the source and parses them as the
    /// header: on success the kept header is `Header::decode` of precisely
    /// the bytes the source handed out.
    pub fn new(reader: R) -> (r: Result<Self, Error>)
        ensures
            ({
                match r {
                    Ok(d) => {
                        let s = read_bytes_of(reader.consumed(), d.spec_reader().consumed());
                        &&& reader.consumed().is_prefix_of(d.spec_reader().consumed())
                        &&& s.len() == QOI_HEADER_SIZE
                        &&& spec_header_decode(s) == Ok::<Header, Error>(d.spec_header())
                        &&& spec_header_valid(d.spec_header())
                        &&& d.wf()
                        &&& d.spec_channels() == d.spec_header().channels
                    },
                    Err(e) => e == Error::IoError || e == Error::UnexpectedBufferEnd || (
                    exists|s: Seq<u8>|
                        s.len() == QOI_HEADER_SIZE && crate::header::spec_header_decode(s) == Err::<
                            Header,
                            Error,
                        >(e)),
                }
            }),
    {
        let mut reader = reader;
        let ghost c0 = reader.consumed();
        let b = match reader.read_exact_vec(QOI_HEADER_SIZE) {
            Ok(v) => v,
            Err(e) => { return Err(e) },
        };
        let header = match Header::decode(&b) {
            Ok(h) => h,
            Err(e) => { return Err(e) },
        };
        proof {
            lemma_read_bytes_of(c0, b@);
        }
        Ok(QoiStreamDecoder { reader, header, channels: header.channels })
    }

    /// The decoder with its output channel count replaced.
    pub fn with_channels(self, channels: Channels) -> (r: Self)
        ensures
            r.spec_channels() == channels,
            r.spec_header() == self.spec_header(),
            r.spec_reader() == self.spec_reader(),
            self.wf() ==> r.wf(),
    {
        let QoiStreamDecoder { reader, header, channels: _ } = self;
        QoiStreamDecoder { reader, header, channels }
    }

    /// The channel count the output will have.
    pub fn channels(&self) -> (r: Channels)
        ensures
            r == self.spec_channels(),
    {
        self.channels
    }

    /// The image header.
    pub fn header(&self) -> (r: &Header)
        ensures
            *r == self.spec_header(),
    {
        &self.header
    }

    /// A borrow of the underlying byte source.
    pub fn reader(&self) -> (r: &R) {
        &self.reader
    }

    /// Hands the underlying byte source back.
    pub fn into_reader(self) -> (r: R)
        ensures
            r == self.spec_reader(),
    {
        let QoiStreamDecoder { reader, header: _, channels: _ } = self;
        reader
    }

    /// Decodes the image into the front of `buf`, leaving the rest of the
    /// buffer unchanged, and returns the number of bytes the image fills.
    /// On success the bytes consumed from the source are exactly a valid
    /// opcode stream plus end-marker, and the buffer front is the
    /// in-memory decoder's output for those same bytes.
    pub fn decode_to_buf(&mut self, buf: &mut Vec<u8>) -> (r: Result<usize, Error>)
        requires
            old(self).wf(),
        ensures
            final(self).spec_header() == old(self).spec_header(),
            final(self).spec_channels() == old(self).spec_channels(),
            final(self).wf(),
            old(self).spec_reader().consumed().is_prefix_of(final(self).spec_reader().consumed()),
            ({
                let h = old(self).spec_header();
                let size = h.width * h.height * old(self).spec_channels().spec_as_u8();
                let c4 = old(self).spec_channels() == Channels::Rgba;
                let cs = read_bytes_of(
                    old(self).spec_reader().consumed(),
                    final(self).spec_reader().consumed(),
                );
                let rr = spec_decode_ops(cs, 0, (h.width * h.height) as nat);
                if old(buf)@.len() < size {
                    r == Err::<usize, Error>(
                        Error::OutputBufferTooSmall {
                            size: old(buf)@.len() as usize,
                            required: size as usize,
                        },
                    ) && final(buf)@ == old(buf)@ && *final(self) == *old(self)
                } else {
                    &&& r is Ok ==> r == Ok::<usize, Error>(size as usize) && rr is Ok
                        && rr->Ok_0.1 == cs.len() && final(buf)@ == pixels_to_bytes(
                        rr->Ok_0.0,
                        c4,
                    ) + old(buf)@.skip(size as int)
                    &&& r == Err::<usize, Error>(Error::InvalidPadding) ==> rr == Err::<
                        (Seq<Pixel>, int),
                        Error,
                    >(Error::InvalidPadding)
                    &&& (r matches Err(e) ==> e == Error::IoError || e
                        == Error::UnexpectedBufferEnd || e == Error::InvalidPadding)
                }
            }),
    {
        let n = self.header.n_pixels();
        let c = self.channels.as_u8() as usize;
        proof {
            assert(n * c <= 400_000_000 * 4) by {
                if c == 3 {
                    assert(n * c == n * 3);
                } else {
                    assert(n * c == n * 4);
                }
            }
        }
        let size = n * c;
        if buf.len() < size {
            proof {
                let pre = self.reader.consumed();
                assert(pre =~= pre.subrange(0, pre.len() as int));
            }
            return Err(Error::OutputBufferTooSmall { size: buf.len(), required: size });
        }
        let mut tmp: Vec<u8> = Vec::new();
        let src = self.header.channels.as_u8();
        let want = self.channels.as_u8();
        let (res, wit) = qoi_decode_impl_stream_all(&mut self.reader, n, want, src, &mut tmp);
        match res {
            Ok(_) => {},
            Err(e) => { return Err(e) },
        };
        proof {
            let cs = read_bytes_of(old(self).spec_reader().consumed(), self.reader.consumed());
            lemma_dec_len(cs, 0, n as nat, init_index(), init_px());
            lemma_ptb_len(wit@, want == 4);
            assert(tmp@ =~= pixels_to_bytes(wit@, want == 4));
            assert(tmp@.len() == size);
        }
        let mut i: usize = 0;
        while i < size
            invariant
                i <= size,
                size <= buf@.len(),
                buf@.len() == old(buf)@.len(),
                tmp@.len() >= size,
                buf@ == tmp@.take(i as int) + old(buf)@.skip(i as int),
            decreases size - i,
        {
            buf[i] = tmp[i];
            i += 1;
            proof {
                assert(buf@ =~= tmp@.take(i as int) + old(buf)@.skip(i as int));
            }
        }
        proof {
            assert(tmp@.take(size as int) =~= tmp@);
            let c4x = old(self).spec_channels() == Channels::Rgba;
            let sz: int = old(self).spec_header().width * old(self).spec_header().height * old(
                self,
            ).spec_channels().spec_as_u8();
            assert(sz == size);
            assert(c4x == (want == 4));
            assert(buf@ =~= pixels_to_bytes(wit@, c4x) + old(buf)@.skip(sz));
        }
        Ok(size)
    }

    /// Decodes the image into a newly allocated byte vector; on success
    /// the vector is the in-memory decoder's output for exactly the bytes
    /// consumed from the source.
    pub fn decode_to_vec(&mut self) -> (r: Result<Vec<u8>, Error>)
        requires
            old(self).wf(),
        ensures
            final(self).spec_header() == old(self).spec_header(),
            final(self).spec_channels() == old(self).spec_channels(),
            final(self).wf(),
            old(self).spec_reader().consumed().is_prefix_of(final(self).spec_reader().consumed()),
            ({
                let h = old(self).spec_header();
                let c4 = old(self).spec_channels() == Channels::Rgba;
                let cs = read_bytes_of(
                    old(self).spec_reader().consumed(),
                    final(self).spec_reader().consumed(),
                );
                let rr = spec_decode_ops(cs, 0, (h.width * h.height) as nat);
                &&& (r matches Ok(v) ==> rr is Ok && rr->Ok_0.1 == cs.len() && v@
                    == pixels_to_bytes(rr->Ok_0.0, c4))
                &&& (r matches Err(e) && e == Error::InvalidPadding ==> rr == Err::<
                    (Seq<Pixel>, int),
                    Error,
                >(Error::InvalidPadding))
                &&& (r matches Err(e) ==> e == Error::IoError || e == Error::UnexpectedBufferEnd
                    || e == Error::InvalidPadding)
            }),
    {
        let n = self.header.n_pixels();
        let mut out: Vec<u8> = Vec::new();
        let src = self.header.channels.as_u8();
        let want = self.channels.as_u8();
        let (res, wit) = qoi_decode_impl_stream_all(&mut self.reader, n, want, src, &mut out);
        match res {
            Ok(_) => {
                proof {
                    assert(out@ =~= pixels_to_bytes(wit@, want == 4));
                }
                Ok(out)
            },
            Err(e) => Err(e),
        }
    }
}

} // verus!
