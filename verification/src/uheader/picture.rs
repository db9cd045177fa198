//! Picture size and reference part of the uncompressed header.

use vstd::prelude::*;
use vstd::arithmetic::power2::*;

use crate::bitio::{self, BitReader, Cur};
use crate::error::Error;
use crate::frame_header::Prelude;
use crate::seq_header::{OperatingPoint, Sections, SequenceHeader};
use crate::uheader::codes::REFS_PER_FRAME;
use crate::uheader::{Dpb, RefSlot, NUM_REF_FRAMES};

verus! {

pub const SUPERRES_DENOM_BITS: usize = 3;

pub const SUPERRES_DENOM_MIN: u64 = 9;

pub const SUPERRES_NUM: u64 = 8;

/// The largest frame dimension a header walk deals with: a frame of 2^37 by
/// 2^37 pixels has 2^62 superblocks, which can still be counted when twice as
/// many, and 2^31 rows of them.
pub const MAX_DIMENSION: u64 = 0x20_0000_0000;

#[derive(Debug, Clone, Copy, PartialEq, Eq, Structural)]
pub struct Geometry {
    pub frame_width: u64,
    pub frame_height: u64,
    pub upscaled_width: u64,
    pub render_width: u64,
    pub render_height: u64,
}

/// What the header says about the picture between refresh_frame_flags and the
/// tiles. `Picture<Seq<u8>>` is the view of a `Picture`.
#[derive(Debug)]
pub struct Picture<I = Vec<u8>> {
    pub geometry: Geometry,
    pub allow_intrabc: bool,
    pub ref_frame_idx: I,
    pub allow_high_precision_mv: bool,
}

impl View for Picture {
    type V = Picture<Seq<u8>>;

    open spec fn view(&self) -> Picture<Seq<u8>> {
        Picture {
            geometry: self.geometry,
            allow_intrabc: self.allow_intrabc,
            ref_frame_idx: self.ref_frame_idx@,
            allow_high_precision_mv: self.allow_high_precision_mv,
        }
    }
}

// ---------- sizes ----------

/// superres_params(): the coded width of a frame that is `upscaled` wide.
#[verifier::opaque]
pub open spec fn superres_at(c: Cur, sh: Sections<Seq<OperatingPoint>>, upscaled: u64) -> (u64, Cur) {
    let (scaled, c) = if sh.tools.enable_superres {
        c.flag()
    } else {
        (false, c)
    };
    let (denom, c) = if scaled {
        let (d, c) = c.f(SUPERRES_DENOM_BITS as nat);
        (d + SUPERRES_DENOM_MIN, c)
    } else {
        (SUPERRES_NUM as int, c)
    };
    (((upscaled * SUPERRES_NUM + denom / 2) / denom) as u64, c)
}

/// frame_size(): width before superres, and height.
#[verifier::opaque]
pub open spec fn size_at(c: Cur, sh: Sections<Seq<OperatingPoint>>, over: bool) -> ((u64, u64), Cur) {
    if over {
        let (w, c) = c.f((sh.size.frame_width_bits_minus_1 + 1) as nat);
        let (h, c) = c.f((sh.size.frame_height_bits_minus_1 + 1) as nat);
        (((w + 1) as u64, (h + 1) as u64), c)
    } else {
        ((sh.size.max_frame_width as u64, sh.size.max_frame_height as u64), c)
    }
}

/// render_size(), which defaults to the upscaled size.
#[verifier::opaque]
pub open spec fn render_at(c: Cur, width: u64, height: u64) -> ((u64, u64), Cur) {
    let (different, c) = c.flag();
    if different {
        let (w, c) = c.f(16);
        let (h, c) = c.f(16);
        (((w + 1) as u64, (h + 1) as u64), c)
    } else {
        ((width, height), c)
    }
}

/// frame_size() and render_size().
#[verifier::opaque]
pub open spec fn geometry_at(c: Cur, sh: Sections<Seq<OperatingPoint>>, over: bool) -> (
    Geometry,
    Cur,
) {
    let ((upscaled, height), c) = size_at(c, sh, over);
    let (width, c) = superres_at(c, sh, upscaled);
    let ((render_width, render_height), c) = render_at(c, upscaled, height);
    (
        Geometry {
            frame_width: width,
            frame_height: height,
            upscaled_width: upscaled,
            render_width,
            render_height,
        },
        c,
    )
}

/// The found_ref flags from reference `i` on: the first reference whose flag
/// is set.
pub open spec fn found_ref_at(c: Cur, i: nat) -> (Option<nat>, Cur)
    decreases REFS_PER_FRAME - i,
{
    if i >= REFS_PER_FRAME {
        (None, c)
    } else {
        let (found, c) = c.flag();
        if found {
            (Some(i), c)
        } else {
            found_ref_at(c, i + 1)
        }
    }
}

/// frame_size_with_refs().
#[verifier::opaque]
pub open spec fn size_with_refs_at(
    c: Cur,
    sh: Sections<Seq<OperatingPoint>>,
    refs: Seq<u8>,
    slots: Seq<RefSlot>,
) -> (Geometry, Cur) {
    let (found, c) = found_ref_at(c, 0);
    match found {
        Some(i) => {
            let slot = slots[refs[i as int] as int];
            let (width, c) = superres_at(c, sh, slot.upscaled_width);
            (
                Geometry {
                    frame_width: width,
                    frame_height: slot.frame_height,
                    upscaled_width: slot.upscaled_width,
                    render_width: slot.render_width,
                    render_height: slot.render_height,
                },
                c,
            )
        },
        None => geometry_at(c, sh, true),
    }
}

// ---------- the picture part ----------

/// The picture part of an intra frame.
#[verifier::opaque]
pub open spec fn intra_at(c: Cur, sh: Sections<Seq<OperatingPoint>>, p: Prelude) -> (
    Picture<Seq<u8>>,
    Cur,
) {
    let (g, c) = geometry_at(c, sh, p.frame_size_override);
    let (intrabc, c) = if p.allow_screen_content_tools && g.upscaled_width == g.frame_width {
        c.flag()
    } else {
        (false, c)
    };
    (
        Picture {
            geometry: g,
            allow_intrabc: intrabc,
            ref_frame_idx: Seq::new(REFS_PER_FRAME as nat, |i: int| 0u8),
            allow_high_precision_mv: false,
        },
        c,
    )
}

/// frame_refs_short_signaling, which must be off.
#[verifier::opaque]
pub open spec fn short_signaling_at(c: Cur, sh: Sections<Seq<OperatingPoint>>) -> Cur {
    if sh.tools.inter.enable_order_hint {
        let (short, c) = c.flag();
        if short {
            let (_, c) = c.f(3);
            let (_, c) = c.f(3);
            c.fail(Error::ShortSignaling)
        } else {
            c
        }
    } else {
        c
    }
}

/// `n` ref_frame_idx entries.
pub open spec fn ref_idx_at(c: Cur, n: nat) -> (Seq<u8>, Cur)
    decreases n,
{
    if n == 0 {
        (Seq::empty(), c)
    } else {
        let (refs, c) = ref_idx_at(c, (n - 1) as nat);
        let (idx, c) = c.f(3);
        (refs.push(idx as u8), c)
    }
}

/// The fields from allow_high_precision_mv to use_ref_frame_mvs.
#[verifier::opaque]
pub open spec fn motion_at(
    c: Cur,
    sh: Sections<Seq<OperatingPoint>>,
    p: Prelude,
    resilient: bool,
) -> (bool, Cur) {
    let (hp, c) = if p.force_integer_mv {
        (false, c)
    } else {
        c.flag()
    };
    let (switchable, c) = c.flag();
    let c = if switchable {
        c
    } else {
        c.f(2).1
    };
    let (_, c) = c.flag();
    let c = if resilient || !sh.tools.inter.enable_ref_frame_mvs {
        c
    } else {
        c.flag().1
    };
    (hp, c)
}

/// The picture part of an inter frame.
#[verifier::opaque]
pub open spec fn inter_at(
    c: Cur,
    sh: Sections<Seq<OperatingPoint>>,
    p: Prelude,
    resilient: bool,
    slots: Seq<RefSlot>,
) -> (Picture<Seq<u8>>, Cur) {
    let c = short_signaling_at(c, sh);
    let (refs, c) = ref_idx_at(c, REFS_PER_FRAME as nat);
    let (g, c) = if p.frame_size_override && !resilient {
        size_with_refs_at(c, sh, refs, slots)
    } else {
        geometry_at(c, sh, p.frame_size_override)
    };
    let (hp, c) = motion_at(c, sh, p, resilient);
    (
        Picture {
            geometry: g,
            allow_intrabc: false,
            ref_frame_idx: refs,
            allow_high_precision_mv: hp,
        },
        c,
    )
}

// ---------- failed cursors stay ----------

pub broadcast proof fn superres_sticky(c: Cur, sh: Sections<Seq<OperatingPoint>>, upscaled: u64)
    requires
        c.err is Some,
    ensures
        (#[trigger] superres_at(c, sh, upscaled)).1 == c,
{
    reveal(superres_at);
}

pub broadcast proof fn size_sticky(c: Cur, sh: Sections<Seq<OperatingPoint>>, over: bool)
    requires
        c.err is Some,
    ensures
        (#[trigger] size_at(c, sh, over)).1 == c,
{
    reveal(size_at);
}

pub broadcast proof fn render_sticky(c: Cur, width: u64, height: u64)
    requires
        c.err is Some,
    ensures
        (#[trigger] render_at(c, width, height)).1 == c,
{
    reveal(render_at);
}

pub broadcast proof fn geometry_sticky(c: Cur, sh: Sections<Seq<OperatingPoint>>, over: bool)
    requires
        c.err is Some,
    ensures
        (#[trigger] geometry_at(c, sh, over)).1 == c,
{
    broadcast use {size_sticky, superres_sticky, render_sticky};

    reveal(geometry_at);
}

proof fn lemma_found_ref_sticky(c: Cur, i: nat)
    requires
        c.err is Some,
    ensures
        found_ref_at(c, i) == (None::<nat>, c),
    decreases REFS_PER_FRAME - i,
{
    if i < REFS_PER_FRAME {
        lemma_found_ref_sticky(c, i + 1);
    }
}

pub broadcast proof fn size_with_refs_sticky(
    c: Cur,
    sh: Sections<Seq<OperatingPoint>>,
    refs: Seq<u8>,
    slots: Seq<RefSlot>,
)
    requires
        c.err is Some,
    ensures
        (#[trigger] size_with_refs_at(c, sh, refs, slots)).1 == c,
{
    broadcast use geometry_sticky;

    reveal(size_with_refs_at);
    lemma_found_ref_sticky(c, 0);
}

pub broadcast proof fn intra_sticky(c: Cur, sh: Sections<Seq<OperatingPoint>>, p: Prelude)
    requires
        c.err is Some,
    ensures
        (#[trigger] intra_at(c, sh, p)).1 == c,
{
    broadcast use geometry_sticky;

    reveal(intra_at);
}

pub broadcast proof fn short_signaling_sticky(c: Cur, sh: Sections<Seq<OperatingPoint>>)
    requires
        c.err is Some,
    ensures
        (#[trigger] short_signaling_at(c, sh)) == c,
{
    reveal(short_signaling_at);
}

proof fn lemma_ref_idx_fail(c: Cur, i: nat, n: nat)
    requires
        i <= n,
        ref_idx_at(c, i).1.err is Some,
    ensures
        ref_idx_at(c, n).1 == ref_idx_at(c, i).1,
    decreases n,
{
    if i < n {
        lemma_ref_idx_fail(c, i, (n - 1) as nat);
    }
}

pub broadcast proof fn ref_idx_sticky(c: Cur, n: nat)
    requires
        c.err is Some,
    ensures
        (#[trigger] ref_idx_at(c, n)).1 == c,
{
    lemma_ref_idx_fail(c, 0, n);
}

pub broadcast proof fn motion_sticky(
    c: Cur,
    sh: Sections<Seq<OperatingPoint>>,
    p: Prelude,
    resilient: bool,
)
    requires
        c.err is Some,
    ensures
        (#[trigger] motion_at(c, sh, p, resilient)).1 == c,
{
    reveal(motion_at);
}

pub broadcast proof fn inter_sticky(
    c: Cur,
    sh: Sections<Seq<OperatingPoint>>,
    p: Prelude,
    resilient: bool,
    slots: Seq<RefSlot>,
)
    requires
        c.err is Some,
    ensures
        (#[trigger] inter_at(c, sh, p, resilient, slots)).1 == c,
{
    broadcast use {
        short_signaling_sticky,
        ref_idx_sticky,
        size_with_refs_sticky,
        geometry_sticky,
        motion_sticky,
    };

    reveal(inter_at);
}

// ---------- reading ----------

/// Whether a size field of this width holds no dimension that is too large:
/// one that is wider than 64 bits cannot be read at all.
pub open spec fn width_fits(bits_minus_1: u8) -> bool {
    bits_minus_1 < 37 || bits_minus_1 >= 64
}

/// A sequence header whose frame size fields a header walk can deal with.
pub open spec fn sizes_fit(sh: Sections<Seq<OperatingPoint>>) -> bool {
    width_fits(sh.size.frame_width_bits_minus_1) && width_fits(sh.size.frame_height_bits_minus_1)
}

fn superres_params(r: &mut BitReader, sh: &SequenceHeader, upscaled: u64) -> (res: Result<u64, Error>)
    requires
        upscaled <= MAX_DIMENSION,
    ensures
        bitio::reads(final(r)@, res, superres_at(old(r)@, sh@, upscaled)),
        res matches Ok(w) ==> w <= upscaled,
{
    broadcast use bitio::lemma_reader_ok;

    proof {
        reveal(superres_at);
        lemma2_to64();
    }
    let scaled = if sh.enable_superres {
        r.flag()?
    } else {
        false
    };
    let denom: u64 = if scaled {
        let ghost c = r@;
        let d = r.f(SUPERRES_DENOM_BITS)?;
        proof {
            bitio::f_consumes(c, SUPERRES_DENOM_BITS as nat);
        }
        d + SUPERRES_DENOM_MIN
    } else {
        SUPERRES_NUM
    };
    let n: u64 = upscaled * SUPERRES_NUM + denom / 2;
    assert(n / denom <= upscaled) by (nonlinear_arith)
        requires
            8 <= denom <= 16,
            n == upscaled * 8 + denom / 2,
    ;
    Ok(n / denom)
}

fn frame_size(r: &mut BitReader, sh: &SequenceHeader, over: bool) -> (res: Result<(u64, u64), Error>)
    requires
        sizes_fit(sh@),
    ensures
        bitio::reads(final(r)@, res, size_at(old(r)@, sh@, over)),
        res matches Ok((w, h)) ==> w <= MAX_DIMENSION && h <= MAX_DIMENSION,
{
    broadcast use bitio::lemma_reader_ok;

    proof {
        reveal(size_at);
        lemma2_to64_rest();
        if sh.frame_width_bits_minus_1 < 37 {
            bitio::lemma_pow2_monotone((sh.frame_width_bits_minus_1 + 1) as nat, 37);
        }
        if sh.frame_height_bits_minus_1 < 37 {
            bitio::lemma_pow2_monotone((sh.frame_height_bits_minus_1 + 1) as nat, 37);
        }
    }
    if over {
        let ghost c = r@;
        let w = r.f(sh.frame_width_bits_minus_1 as usize + 1)?;
        proof {
            bitio::f_consumes(c, (sh.frame_width_bits_minus_1 + 1) as nat);
        }
        let ghost c = r@;
        let h = r.f(sh.frame_height_bits_minus_1 as usize + 1)?;
        proof {
            bitio::f_consumes(c, (sh.frame_height_bits_minus_1 + 1) as nat);
        }
        Ok((w + 1, h + 1))
    } else {
        Ok((sh.max_frame_width as u64, sh.max_frame_height as u64))
    }
}

fn render_size(r: &mut BitReader, width: u64, height: u64) -> (res: Result<(u64, u64), Error>)
    ensures
        bitio::reads(final(r)@, res, render_at(old(r)@, width, height)),
{
    broadcast use bitio::lemma_reader_ok;

    proof {
        reveal(render_at);
        lemma2_to64();
    }
    if r.flag()? {
        let ghost c = r@;
        let w = r.f(16)?;
        proof {
            bitio::f_consumes(c, 16);
        }
        let ghost c = r@;
        let h = r.f(16)?;
        proof {
            bitio::f_consumes(c, 16);
        }
        Ok((w + 1, h + 1))
    } else {
        Ok((width, height))
    }
}

fn geometry(r: &mut BitReader, sh: &SequenceHeader, over: bool) -> (res: Result<Geometry, Error>)
    requires
        sizes_fit(sh@),
    ensures
        bitio::reads(final(r)@, res, geometry_at(old(r)@, sh@, over)),
        res matches Ok(g) ==> g.fits(),
{
    broadcast use {superres_sticky, render_sticky};

    proof {
        reveal(geometry_at);
    }
    let (upscaled_width, frame_height) = frame_size(r, sh, over)?;
    let frame_width = superres_params(r, sh, upscaled_width)?;
    let (render_width, render_height) = render_size(r, upscaled_width, frame_height)?;
    Ok(Geometry { frame_width, frame_height, upscaled_width, render_width, render_height })
}

impl Geometry {
    /// Dimensions that a header walk can deal with.
    pub open spec fn fits(self) -> bool {
        self.frame_width <= self.upscaled_width <= MAX_DIMENSION && self.frame_height
            <= MAX_DIMENSION
    }
}

fn found_ref(r: &mut BitReader) -> (res: Result<Option<usize>, Error>)
    ensures
        match res {
            Ok(found) => bitio::reads(
                final(r)@,
                Ok::<Option<nat>, Error>(
                    match found {
                        Some(i) => Some(i as nat),
                        None => None,
                    },
                ),
                found_ref_at(old(r)@, 0),
            ) && (found matches Some(i) ==> i < REFS_PER_FRAME),
            Err(e) => found_ref_at(old(r)@, 0).1.err == Some(e),
        },
{
    broadcast use bitio::lemma_reader_ok;

    let ghost start = r@;
    let mut i: usize = 0;
    while i < REFS_PER_FRAME
        invariant
            i <= REFS_PER_FRAME,
            start == old(r)@,
            found_ref_at(start, 0) == found_ref_at(r@, i as nat),
        decreases REFS_PER_FRAME - i,
    {
        proof {
            let c1 = r@.flag().1;
            if c1.err is Some {
                lemma_found_ref_sticky(c1, (i + 1) as nat);
            }
        }
        if r.flag()? {
            return Ok(Some(i));
        }
        i = i + 1;
    }
    Ok(None)
}

fn frame_size_with_refs(
    r: &mut BitReader,
    sh: &SequenceHeader,
    refs: &Vec<u8>,
    dpb: &Dpb,
) -> (res: Result<Geometry, Error>)
    requires
        sizes_fit(sh@),
        crate::uheader::slots_wf(dpb@),
        refs@.len() == REFS_PER_FRAME,
        forall|i: int| 0 <= i < refs@.len() ==> refs@[i] < NUM_REF_FRAMES,
    ensures
        bitio::reads(final(r)@, res, size_with_refs_at(old(r)@, sh@, refs@, dpb@)),
        res matches Ok(g) ==> g.fits(),
{
    broadcast use {superres_sticky, geometry_sticky};

    proof {
        reveal(size_with_refs_at);
    }
    let ghost c = r@;
    let res = found_ref(r);
    proof {
        if res is Err {
            lemma_found_ref_fails(c, 0);
        }
    }
    match res? {
        Some(i) => {
            let slot = dpb.slots[refs[i] as usize];
            assert(slot == dpb@[refs@[i as int] as int]);
            assert(slot.wf());
            let frame_width = superres_params(r, sh, slot.upscaled_width)?;
            Ok(
                Geometry {
                    frame_width,
                    frame_height: slot.frame_height,
                    upscaled_width: slot.upscaled_width,
                    render_width: slot.render_width,
                    render_height: slot.render_height,
                },
            )
        },
        None => geometry(r, sh, true),
    }
}

/// Flags that could not be read name no reference.
proof fn lemma_found_ref_fails(c: Cur, i: nat)
    requires
        found_ref_at(c, i).1.err is Some,
    ensures
        found_ref_at(c, i).0 is None,
    decreases REFS_PER_FRAME - i,
{
    if i < REFS_PER_FRAME {
        let (found, c1) = c.flag();
        if !found {
            lemma_found_ref_fails(c1, i + 1);
        }
    }
}

pub(crate) fn intra_picture(r: &mut BitReader, sh: &SequenceHeader, p: Prelude) -> (res: Result<
    Picture,
    Error,
>)
    requires
        sizes_fit(sh@),
    ensures
        match res {
            Ok(z) => bitio::reads(
                final(r)@,
                Ok::<Picture<Seq<u8>>, Error>(z@),
                intra_at(old(r)@, sh@, p),
            ) && z.geometry.fits() && refs_fit(z.ref_frame_idx@),
            Err(e) => intra_at(old(r)@, sh@, p).1.err == Some(e),
        },
{
    broadcast use geometry_sticky;

    proof {
        reveal(intra_at);
    }
    let g = geometry(r, sh, p.frame_size_override)?;
    let allow_intrabc = if p.allow_screen_content_tools && g.upscaled_width == g.frame_width {
        r.flag()?
    } else {
        false
    };
    let mut refs: Vec<u8> = Vec::new();
    while refs.len() < REFS_PER_FRAME
        invariant
            refs@.len() <= REFS_PER_FRAME,
            forall|i: int| 0 <= i < refs@.len() ==> refs@[i] == 0,
        decreases REFS_PER_FRAME - refs@.len(),
    {
        refs.push(0);
    }
    assert(refs@ =~= Seq::new(REFS_PER_FRAME as nat, |i: int| 0u8));
    Ok(
        Picture {
            geometry: g,
            allow_intrabc,
            ref_frame_idx: refs,
            allow_high_precision_mv: false,
        },
    )
}

/// One slot number for each reference.
pub open spec fn refs_fit(refs: Seq<u8>) -> bool {
    refs.len() == REFS_PER_FRAME && forall|i: int|
        0 <= i < refs.len() ==> (#[trigger] refs[i]) < NUM_REF_FRAMES
}

pub(crate) fn short_signaling(r: &mut BitReader, sh: &SequenceHeader) -> (res: Result<(), Error>)
    ensures
        bitio::skips(final(r)@, res, short_signaling_at(old(r)@, sh@)),
{
    broadcast use bitio::lemma_reader_ok;

    proof {
        reveal(short_signaling_at);
    }
    if sh.enable_order_hint {
        if r.flag()? {
            r.f(3)?;  // last_frame_idx
            r.f(3)?;  // gold_frame_idx
            return Err(Error::ShortSignaling);
        }
    }
    Ok(())
}

pub(crate) fn ref_frame_idx(r: &mut BitReader) -> (res: Result<Vec<u8>, Error>)
    ensures
        match res {
            Ok(v) => bitio::reads(
                final(r)@,
                Ok::<Seq<u8>, Error>(v@),
                ref_idx_at(old(r)@, REFS_PER_FRAME as nat),
            ) && refs_fit(v@),
            Err(e) => ref_idx_at(old(r)@, REFS_PER_FRAME as nat).1.err == Some(e),
        },
{
    broadcast use bitio::lemma_reader_ok;

    let mut refs: Vec<u8> = Vec::new();
    let ghost start = r@;
    assert(refs@ =~= Seq::empty());
    while refs.len() < REFS_PER_FRAME
        invariant
            refs@.len() <= REFS_PER_FRAME,
            start == old(r)@,
            ref_idx_at(start, refs@.len()) == (refs@, r@),
            forall|i: int| 0 <= i < refs@.len() ==> (#[trigger] refs@[i]) < NUM_REF_FRAMES,
        decreases REFS_PER_FRAME - refs@.len(),
    {
        let ghost k = refs@.len();
        let ghost c = r@;
        let res = r.f(3);
        proof {
            if res is Err {
                lemma_ref_idx_fail(start, k + 1, REFS_PER_FRAME as nat);
            } else {
                bitio::f_consumes(c, 3);
                lemma2_to64();
            }
        }
        let idx = res?;
        refs.push(idx as u8);
        assert(refs@ =~= ref_idx_at(start, k).0.push(idx as u8));
    }
    Ok(refs)
}

fn motion(r: &mut BitReader, sh: &SequenceHeader, p: Prelude, resilient: bool) -> (res: Result<
    bool,
    Error,
>)
    ensures
        bitio::reads(final(r)@, res, motion_at(old(r)@, sh@, p, resilient)),
{
    broadcast use bitio::lemma_reader_ok;

    proof {
        reveal(motion_at);
    }
    let hp = if p.force_integer_mv {
        false
    } else {
        r.flag()?
    };
    if !r.flag()? {
        r.f(2)?;  // interpolation_filter
    }
    r.flag()?;  // is_motion_mode_switchable
    if !(resilient || !sh.enable_ref_frame_mvs) {
        r.flag()?;  // use_ref_frame_mvs
    }
    Ok(hp)
}

pub(crate) fn inter_picture(
    r: &mut BitReader,
    sh: &SequenceHeader,
    p: Prelude,
    resilient: bool,
    dpb: &Dpb,
) -> (res: Result<Picture, Error>)
    requires
        sizes_fit(sh@),
        crate::uheader::slots_wf(dpb@),
    ensures
        match res {
            Ok(z) => bitio::reads(
                final(r)@,
                Ok::<Picture<Seq<u8>>, Error>(z@),
                inter_at(old(r)@, sh@, p, resilient, dpb@),
            ) && z.geometry.fits() && refs_fit(z.ref_frame_idx@),
            Err(e) => inter_at(old(r)@, sh@, p, resilient, dpb@).1.err == Some(e),
        },
{
    broadcast use {
        short_signaling_sticky,
        ref_idx_sticky,
        size_with_refs_sticky,
        geometry_sticky,
        motion_sticky,
    };

    proof {
        reveal(inter_at);
    }
    short_signaling(r, sh)?;
    let refs = ref_frame_idx(r)?;
    let geometry = if p.frame_size_override && !resilient {
        frame_size_with_refs(r, sh, &refs, dpb)?
    } else {
        geometry(r, sh, p.frame_size_override)?
    };
    let hp = motion(r, sh, p, resilient)?;
    Ok(
        Picture {
            geometry,
            allow_intrabc: false,
            ref_frame_idx: refs,
            allow_high_precision_mv: hp,
        },
    )
}

} // verus!
