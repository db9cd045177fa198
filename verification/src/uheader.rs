//! Full uncompressed-header bit walker (AV1 spec 5.9.2).
//!
//! `frame_header` only walks to `refresh_frame_flags`. This module walks
//! the *entire* header so the assembler can splice
//! `buffer_removal_time_present_flag` into encoder-produced frame headers when
//! enabling the decoder model: it yields (a) the insertion bit position —
//! right after `primary_ref_frame` — and (b) the total header bit length so
//! the tail bits plus tile data can be re-packed around the insertion.
//!
//! Only syntax that still-image encodes or the assembler itself can emit
//! is supported; anything else (frame ids, film grain, short ref signaling,
//! reduced still headers) is an error instead of a guess.

use vstd::prelude::*;
use vstd::arithmetic::power2::*;

use crate::bitio::{self, BitReader, BitWriter, Cur};
use crate::error::Error;
use crate::frame_header::{self, KEY_FRAME, PRIMARY_REF_NONE};
use crate::seq_header::{OperatingPoint, Sections, SequenceHeader};
use picture::Picture;

pub mod codes;
pub mod filters;
pub mod picture;
pub mod quant;
pub mod rescan;
pub mod shift;
pub mod skip_mode;
pub mod stored;
pub mod tiles;
pub mod writer;

verus! {

pub const NUM_REF_FRAMES: usize = 8;

/// Per-slot decoder state the header syntax depends on.
#[derive(Debug, Clone, Copy, PartialEq, Eq, Structural)]
pub struct RefSlot {
    pub order_hint: u64,
    pub upscaled_width: u64,
    pub frame_width: u64,
    pub frame_height: u64,
    pub render_width: u64,
    pub render_height: u64,
    pub is_key_frame: bool,
}

impl RefSlot {
    /// A slot that nothing was stored in.
    pub open spec fn blank() -> RefSlot {
        RefSlot {
            order_hint: 0,
            upscaled_width: 0,
            frame_width: 0,
            frame_height: 0,
            render_width: 0,
            render_height: 0,
            is_key_frame: false,
        }
    }

    /// Dimensions that a header walk can deal with.
    pub open spec fn wf(self) -> bool {
        self.upscaled_width <= picture::MAX_DIMENSION && self.frame_height <= picture::MAX_DIMENSION
    }
}

impl Default for RefSlot {
    fn default() -> (r: Self)
        ensures
            r == RefSlot::blank(),
    {
        RefSlot {
            order_hint: 0,
            upscaled_width: 0,
            frame_width: 0,
            frame_height: 0,
            render_width: 0,
            render_height: 0,
            is_key_frame: false,
        }
    }
}

/// The reference-buffer state an inter frame's header is parsed against.
/// For the assembler this is seeded once from the parsed key frame.
pub struct Dpb {
    pub slots: [RefSlot; NUM_REF_FRAMES],
}

impl View for Dpb {
    type V = Seq<RefSlot>;

    open spec fn view(&self) -> Seq<RefSlot> {
        self.slots@
    }
}

/// A buffer that nothing was stored in.
pub open spec fn blank_slots() -> Seq<RefSlot> {
    Seq::new(NUM_REF_FRAMES as nat, |i: int| RefSlot::blank())
}

pub open spec fn slots_wf(slots: Seq<RefSlot>) -> bool {
    slots.len() == NUM_REF_FRAMES && forall|i: int|
        0 <= i < NUM_REF_FRAMES ==> (#[trigger] slots[i]).wf()
}

impl Clone for Dpb {
    fn clone(&self) -> (r: Self)
        ensures
            r@ == self@,
    {
        Dpb { slots: self.slots }
    }
}

impl Default for Dpb {
    fn default() -> (r: Self)
        ensures
            r@ == blank_slots(),
    {
        let r = Dpb { slots: [RefSlot::default();NUM_REF_FRAMES] };
        assert(r@ =~= blank_slots());
        r
    }
}

impl Dpb {
    /// DPB state right after a shown KEY_FRAME of the given geometry:
    /// all slots refreshed to the key frame's parameters.
    pub fn after_key_frame(w: u64, h: u64, render_w: u64, render_h: u64, upscaled_w: u64) -> (r:
        Self)
        ensures
            r@ == Seq::new(
                NUM_REF_FRAMES as nat,
                |i: int|
                    RefSlot {
                        order_hint: 0,
                        upscaled_width: upscaled_w,
                        frame_width: w,
                        frame_height: h,
                        render_width: render_w,
                        render_height: render_h,
                        is_key_frame: true,
                    },
            ),
    {
        let s = RefSlot {
            order_hint: 0,
            upscaled_width: upscaled_w,
            frame_width: w,
            frame_height: h,
            render_width: render_w,
            render_height: render_h,
            is_key_frame: true,
        };
        let r = Dpb { slots: [s;NUM_REF_FRAMES] };
        assert(r@ =~= Seq::new(NUM_REF_FRAMES as nat, |i: int| s));
        r
    }
}

// ---------- the whole header ----------

#[derive(Debug, Clone, Copy, PartialEq, Eq, Structural)]
pub struct HeaderScan {
    /// Bit position right after `primary_ref_frame` — where
    /// `buffer_removal_time_present_flag` is spliced in.
    pub removal_insert_pos: usize,
    /// Bit length of the complete uncompressed_header (before byte_alignment).
    pub end_pos: usize,
    pub frame_type: u8,
    pub show_frame: bool,
    pub showable_frame: bool,
    pub refresh_frame_flags: u8,
    /// Frame geometry after superres (for seeding the DPB).
    pub frame_width: u64,
    pub frame_height: u64,
    pub upscaled_width: u64,
    pub render_width: u64,
    pub render_height: u64,
    pub order_hint: u64,
}

/// The fields from frame_type to error_resilient_mode.
#[derive(Debug, Clone, Copy, PartialEq, Eq, Structural)]
pub struct Kind {
    pub frame_type: u8,
    pub show_frame: bool,
    pub showable_frame: bool,
    pub resilient: bool,
}

impl Kind {
    pub open spec fn intra(self) -> bool {
        frame_header::is_intra(self.frame_type)
    }

    /// A shown key frame resets the decoder.
    pub open spec fn resets(self) -> bool {
        self.frame_type == KEY_FRAME && self.show_frame
    }
}

/// The front of a header that is not show_existing_frame.
#[verifier::opaque]
pub open spec fn kind_at(c: Cur, sh: Sections<Seq<OperatingPoint>>) -> (Kind, Cur) {
    let (existing, c) = c.flag();
    let c = if existing {
        c.fail(Error::ScanShowExisting)
    } else {
        c
    };
    let (ft, c) = c.f(2);
    let (show, c) = c.flag();
    let c = if show && sh.needs_temporal_point_info() {
        c.f((sh.timing.model.frame_presentation_time_length_minus_1 + 1) as nat).1
    } else {
        c
    };
    let ((showable, resilient), c) = frame_header::resilience_at(c, ft as u8, show);
    (Kind { frame_type: ft as u8, show_frame: show, showable_frame: showable, resilient }, c)
}

/// refresh_frame_flags and the ref_order_hint entries.
#[verifier::opaque]
pub open spec fn refreshes_at(c: Cur, sh: Sections<Seq<OperatingPoint>>, k: Kind) -> (u8, Cur) {
    let (refresh, c) = frame_header::refresh_at(c, k.frame_type, k.show_frame);
    let bits = sh.tools.inter.order_hint_bits as nat;
    if (!k.intra() || refresh != 0xff) && k.resilient && sh.tools.inter.enable_order_hint {
        (refresh, bitio::times(c, NUM_REF_FRAMES as nat, |c: Cur| c.f(bits).1))
    } else {
        (refresh, c)
    }
}

/// The picture part.
pub open spec fn picture_at(
    c: Cur,
    sh: Sections<Seq<OperatingPoint>>,
    k: Kind,
    p: frame_header::Prelude,
    slots: Seq<RefSlot>,
) -> (Picture<Seq<u8>>, Cur) {
    if k.intra() {
        picture::intra_at(c, sh, p)
    } else {
        picture::inter_at(c, sh, p, k.resilient, slots)
    }
}

/// disable_frame_end_update_cdf, the tiles, the quantizer and the segments:
/// whether the frame is coded lossless.
#[verifier::opaque]
pub open spec fn coding_at(
    c: Cur,
    sh: Sections<Seq<OperatingPoint>>,
    p: frame_header::Prelude,
    z: Picture<Seq<u8>>,
) -> (bool, Cur) {
    let c = if p.disable_cdf_update {
        c
    } else {
        c.flag().1
    };
    let c = tiles::tile_info_at(c, z.geometry, sh.tools.use_128x128_superblock);
    let (q, c) = quant::quant_at(c, sh);
    let (offsets, c) = quant::segmentation_at(c, p.primary_ref_frame == PRIMARY_REF_NONE);
    let c = quant::deltas_at(c, q.base_q_idx, z.allow_intrabc);
    (quant::is_lossless(q, offsets), c)
}

/// The loop filter, cdef and restoration parts.
#[verifier::opaque]
pub open spec fn filters_at(
    c: Cur,
    sh: Sections<Seq<OperatingPoint>>,
    z: Picture<Seq<u8>>,
    lossless: bool,
) -> Cur {
    let mono = sh.depth.mono_chrome;
    let all_lossless = lossless && z.geometry.frame_width == z.geometry.upscaled_width;
    let c = filters::loop_filter_at(c, mono, lossless || z.allow_intrabc);
    let c = filters::cdef_at(c, mono, lossless || z.allow_intrabc || !sh.tools.enable_cdef);
    filters::restoration_at(
        c,
        sh,
        all_lossless || z.allow_intrabc || !sh.tools.enable_restoration,
    )
}

/// What follows the filters: transform mode, compound references, skip mode,
/// warped motion, reduced transforms and global motion.
#[verifier::opaque]
pub open spec fn tail_at(
    c: Cur,
    sh: Sections<Seq<OperatingPoint>>,
    k: Kind,
    z: Picture<Seq<u8>>,
    order_hint: u64,
    slots: Seq<RefSlot>,
    lossless: bool,
) -> Cur {
    let inter = sh.tools.inter;
    let c = if lossless {
        c
    } else {
        c.flag().1
    };
    let (select, c) = if k.intra() {
        (false, c)
    } else {
        c.flag()
    };
    let c = if select && inter.enable_order_hint {
        skip_mode::skip_mode_at(
            c,
            skip_mode::ref_hints(slots, z.ref_frame_idx),
            order_hint,
            inter.order_hint_bits as nat,
        )
    } else {
        c
    };
    let c = if k.intra() || k.resilient || !inter.enable_warped_motion {
        c
    } else {
        c.flag().1
    };
    let (_, c) = c.flag();
    if k.intra() {
        c
    } else {
        codes::global_motions_at(c, z.allow_high_precision_mv)
    }
}

/// The slots that the frame is parsed against.
pub open spec fn slots_before(slots: Seq<RefSlot>, k: Kind) -> Seq<RefSlot> {
    if k.resets() {
        blank_slots()
    } else {
        slots
    }
}

/// The header from after the picture part to its end.
pub open spec fn rest_at(
    c: Cur,
    sh: Sections<Seq<OperatingPoint>>,
    k: Kind,
    p: frame_header::Prelude,
    z: Picture<Seq<u8>>,
    slots: Seq<RefSlot>,
) -> Cur {
    let (lossless, c) = coding_at(c, sh, p, z);
    let c = filters_at(c, sh, z, lossless);
    tail_at(c, sh, k, z, p.order_hint, slots, lossless)
}

/// uncompressed_header(), but for the headers that are not walked.
#[verifier::opaque]
pub open spec fn scan_at(c: Cur, sh: Sections<Seq<OperatingPoint>>, slots: Seq<RefSlot>) -> (
    HeaderScan,
    Cur,
) {
    let (k, c) = kind_at(c, sh);
    let slots = slots_before(slots, k);
    let (p, c) = frame_header::prelude_at(c, sh, k.frame_type, k.resilient);
    let insert = c.pos;
    let c = frame_header::removal_at(c, sh);
    let (refresh, c) = refreshes_at(c, sh, k);
    let (z, c) = picture_at(c, sh, k, p, slots);
    let c = rest_at(c, sh, k, p, z, slots);
    (
        HeaderScan {
            removal_insert_pos: insert as usize,
            end_pos: c.pos as usize,
            frame_type: k.frame_type,
            show_frame: k.show_frame,
            showable_frame: k.showable_frame,
            refresh_frame_flags: refresh,
            frame_width: z.geometry.frame_width,
            frame_height: z.geometry.frame_height,
            upscaled_width: z.geometry.upscaled_width,
            render_width: z.geometry.render_width,
            render_height: z.geometry.render_height,
            order_hint: p.order_hint,
        },
        c,
    )
}

/// Why headers under this sequence header are not walked.
pub open spec fn unscannable(sh: Sections<Seq<OperatingPoint>>) -> Option<Error> {
    if sh.reduced {
        Some(Error::ScanReducedStillPicture)
    } else if sh.film_grain {
        Some(Error::ScanFilmGrain)
    } else if sh.ids.present {
        Some(Error::ScanFrameIds)
    } else {
        None
    }
}

/// What walking the header of `payload` gives.
pub open spec fn scan_of(
    payload: Seq<u8>,
    sh: Sections<Seq<OperatingPoint>>,
    slots: Seq<RefSlot>,
) -> Result<HeaderScan, Error> {
    match unscannable(sh) {
        Some(e) => Err(e),
        None => bitio::outcome(scan_at(Cur::start(payload), sh, slots)),
    }
}

/// Whether `refresh_frame_flags` names slot `i`.
pub open spec fn refreshed(flags: u8, i: int) -> bool {
    (flags >> (i as u8)) & 1u8 == 1u8
}

/// What a frame leaves in the slots it refreshes.
pub open spec fn stored_slot(s: HeaderScan) -> RefSlot {
    RefSlot {
        order_hint: s.order_hint,
        upscaled_width: s.upscaled_width,
        frame_width: s.frame_width,
        frame_height: s.frame_height,
        render_width: s.render_width,
        render_height: s.render_height,
        is_key_frame: s.frame_type == KEY_FRAME,
    }
}

/// The slots after a frame: those that it refreshes hold it, the others keep
/// what a shown key frame leaves of them, which is nothing.
pub open spec fn slots_after(slots: Seq<RefSlot>, s: HeaderScan) -> Seq<RefSlot> {
    Seq::new(
        NUM_REF_FRAMES as nat,
        |i: int|
            if refreshed(s.refresh_frame_flags, i) {
                stored_slot(s)
            } else if s.frame_type == KEY_FRAME && s.show_frame {
                RefSlot::blank()
            } else {
                slots[i]
            },
    )
}

/// Whether the walk gets as far as to reset the slots.
pub open spec fn scan_resets(payload: Seq<u8>, sh: Sections<Seq<OperatingPoint>>) -> bool {
    let (k, c) = kind_at(Cur::start(payload), sh);
    unscannable(sh) is None && c.err is None && k.resets()
}

/// A sequence header whose fields are as wide as a header walk can deal with:
/// distances between order hints of 64 bits cannot be counted, and wider ones
/// cannot be read at all.
pub open spec fn walkable(sh: Sections<Seq<OperatingPoint>>) -> bool {
    &&& picture::sizes_fit(sh)
    &&& sh.tools.inter.enable_order_hint ==> 1 <= sh.tools.inter.order_hint_bits
        && sh.tools.inter.order_hint_bits != 64
}

// ---------- failed cursors stay ----------

pub broadcast proof fn refreshes_sticky(c: Cur, sh: Sections<Seq<OperatingPoint>>, k: Kind)
    requires
        c.err is Some,
    ensures
        (#[trigger] refreshes_at(c, sh, k)).1 == c,
{
    reveal(refreshes_at);
    let bits = sh.tools.inter.order_hint_bits as nat;
    let step = |c: Cur| c.f(bits).1;
    assert(bitio::sticky(step));
    bitio::lemma_times_fail(c, 0, NUM_REF_FRAMES as nat, step);
}

pub broadcast proof fn coding_sticky(
    c: Cur,
    sh: Sections<Seq<OperatingPoint>>,
    p: frame_header::Prelude,
    z: Picture<Seq<u8>>,
)
    requires
        c.err is Some,
    ensures
        (#[trigger] coding_at(c, sh, p, z)).1 == c,
{
    broadcast use {
        tiles::tile_info_sticky,
        quant::quant_sticky,
        quant::segmentation_sticky,
        quant::deltas_sticky,
    };

    reveal(coding_at);
}

pub broadcast proof fn filters_sticky(
    c: Cur,
    sh: Sections<Seq<OperatingPoint>>,
    z: Picture<Seq<u8>>,
    lossless: bool,
)
    requires
        c.err is Some,
    ensures
        (#[trigger] filters_at(c, sh, z, lossless)) == c,
{
    broadcast use {filters::levels_sticky, filters::cdef_sticky, filters::restoration_sticky};

    reveal(filters_at);
}

pub broadcast proof fn tail_sticky(
    c: Cur,
    sh: Sections<Seq<OperatingPoint>>,
    k: Kind,
    z: Picture<Seq<u8>>,
    order_hint: u64,
    slots: Seq<RefSlot>,
    lossless: bool,
)
    requires
        c.err is Some,
    ensures
        (#[trigger] tail_at(c, sh, k, z, order_hint, slots, lossless)) == c,
{
    broadcast use codes::global_motions_sticky;

    reveal(tail_at);
}

pub broadcast group group_sticky {
    frame_header::prelude_sticky,
    frame_header::removal_sticky,
    refreshes_sticky,
    picture::intra_sticky,
    picture::inter_sticky,
    coding_sticky,
    filters_sticky,
    tail_sticky,
}

// ---------- reading ----------

pub(crate) fn kind(r: &mut BitReader, sh: &SequenceHeader) -> (res: Result<Kind, Error>)
    ensures
        bitio::reads(final(r)@, res, kind_at(old(r)@, sh@)),
{
    proof {
        reveal(kind_at);
    }
    if r.flag()? {
        return Err(Error::ScanShowExisting);
    }
    let ft = r.f(2)?;
    let show_frame = r.flag()?;
    if show_frame && sh.needs_temporal_point_info() {
        // temporal_point_info()
        r.f(sh.frame_presentation_time_length_minus_1 as usize + 1)?;
    }
    let (showable_frame, resilient) = frame_header::resilience(r, ft as u8, show_frame)?;
    Ok(Kind { frame_type: ft as u8, show_frame, showable_frame, resilient })
}

fn is_intra(frame_type: u8) -> (r: bool)
    ensures
        r == frame_header::is_intra(frame_type),
{
    frame_type == frame_header::INTRA_ONLY_FRAME || frame_type == KEY_FRAME
}

pub(crate) fn refreshes(r: &mut BitReader, sh: &SequenceHeader, k: Kind) -> (res: Result<u8, Error>)
    ensures
        bitio::reads(final(r)@, res, refreshes_at(old(r)@, sh@, k)),
{
    let ghost bits = sh.order_hint_bits as nat;
    let ghost step = |c: Cur| c.f(bits).1;
    proof {
        reveal(refreshes_at);
        assert(bitio::sticky(step));
        let c1 = frame_header::refresh_at(r@, k.frame_type, k.show_frame).1;
        if c1.err is Some {
            bitio::lemma_times_fail(c1, 0, NUM_REF_FRAMES as nat, step);
        }
    }
    let refresh = frame_header::refresh_flags(r, k.frame_type, k.show_frame)?;
    proof {
        bitio::lemma_reader_ok(*r);
    }
    if (!is_intra(k.frame_type) || refresh != 0xff) && k.resilient && sh.enable_order_hint {
        let ghost start = r@;
        let mut i: usize = 0;
        while i < NUM_REF_FRAMES
            invariant
                i <= NUM_REF_FRAMES,
                bitio::sticky(step),
                bits == sh.order_hint_bits as nat,
                step == (|c: Cur| c.f(bits).1),
                r@.err is None,
                r@ == bitio::times(start, i as nat, step),
                refreshes_at(old(r)@, sh@, k) == (
                    refresh,
                    bitio::times(start, NUM_REF_FRAMES as nat, step),
                ),
            decreases NUM_REF_FRAMES - i,
        {
            proof {
                if bitio::times(start, (i + 1) as nat, step).err is Some {
                    bitio::lemma_times_fail(start, (i + 1) as nat, NUM_REF_FRAMES as nat, step);
                }
            }
            r.f(sh.order_hint_bits)?;  // ref_order_hint
            i = i + 1;
        }
    }
    Ok(refresh)
}

fn coding(r: &mut BitReader, sh: &SequenceHeader, p: frame_header::Prelude, z: &Picture) -> (res:
    Result<bool, Error>)
    requires
        z.geometry.fits(),
    ensures
        bitio::reads(final(r)@, res, coding_at(old(r)@, sh@, p, z@)),
{
    broadcast use {
        tiles::tile_info_sticky,
        quant::quant_sticky,
        quant::segmentation_sticky,
        quant::deltas_sticky,
    };

    proof {
        reveal(coding_at);
        bitio::lemma_reader_ok(*r);
    }
    if !p.disable_cdf_update {
        r.flag()?;  // disable_frame_end_update_cdf
    }
    tiles::tile_info(r, z.geometry, sh.use_128x128_superblock)?;
    let q = quant::quantization_params(r, sh)?;
    let offsets = quant::segmentation_params(r, p.primary_ref_frame == PRIMARY_REF_NONE)?;
    quant::delta_params(r, q.base_q_idx, z.allow_intrabc)?;
    Ok(quant::coded_lossless(q, &offsets))
}

fn filter_params(r: &mut BitReader, sh: &SequenceHeader, z: &Picture, lossless: bool) -> (res:
    Result<(), Error>)
    ensures
        bitio::skips(final(r)@, res, filters_at(old(r)@, sh@, z@, lossless)),
{
    broadcast use {filters::levels_sticky, filters::cdef_sticky, filters::restoration_sticky};

    proof {
        reveal(filters_at);
        bitio::lemma_reader_ok(*r);
    }
    let all_lossless = lossless && z.geometry.frame_width == z.geometry.upscaled_width;
    filters::loop_filter_params(r, sh.mono_chrome, lossless || z.allow_intrabc)?;
    filters::cdef_params(r, sh.mono_chrome, lossless || z.allow_intrabc || !sh.enable_cdef)?;
    filters::lr_params(r, sh, all_lossless || z.allow_intrabc || !sh.enable_restoration)
}

fn tail(
    r: &mut BitReader,
    sh: &SequenceHeader,
    k: Kind,
    z: &Picture,
    order_hint: u64,
    dpb: &Dpb,
    lossless: bool,
) -> (res: Result<(), Error>)
    requires
        walkable(sh@),
        sh.order_hint_bits <= 64,
        slots_wf(dpb@),
        picture::refs_fit(z.ref_frame_idx@),
    ensures
        bitio::skips(final(r)@, res, tail_at(old(r)@, sh@, k, z@, order_hint, dpb@, lossless)),
{
    broadcast use codes::global_motions_sticky;

    proof {
        reveal(tail_at);
        bitio::lemma_reader_ok(*r);
    }
    let intra = is_intra(k.frame_type);
    if !lossless {
        r.flag()?;  // tx_mode_select
    }
    let select = if intra {
        false
    } else {
        r.flag()?
    };
    if select && sh.enable_order_hint {
        skip_mode::skip_mode_params(r, dpb, &z.ref_frame_idx, order_hint, sh.order_hint_bits)?;
    }
    if !(intra || k.resilient || !sh.enable_warped_motion) {
        r.flag()?;  // allow_warped_motion
    }
    r.flag()?;  // reduced_tx_set
    if !intra {
        codes::global_motion_params(r, z.allow_high_precision_mv)?;
    }
    Ok(())
}

/// Store a frame in the slots that it refreshes.
fn store(dpb: &mut Dpb, flags: u8, slot: RefSlot)
    requires
        slots_wf(old(dpb)@),
        slot.wf(),
    ensures
        final(dpb)@ == Seq::new(
            NUM_REF_FRAMES as nat,
            |i: int|
                if refreshed(flags, i) {
                    slot
                } else {
                    old(dpb)@[i]
                },
        ),
        slots_wf(final(dpb)@),
{
    let mut i: usize = 0;
    while i < NUM_REF_FRAMES
        invariant
            i <= NUM_REF_FRAMES,
            slot.wf(),
            slots_wf(dpb@),
            forall|j: int|
                0 <= j < NUM_REF_FRAMES ==> #[trigger] dpb@[j] == if j < i && refreshed(flags, j) {
                    slot
                } else {
                    old(dpb)@[j]
                },
        decreases NUM_REF_FRAMES - i,
    {
        if (flags >> (i as u8)) & 1 == 1 {
            dpb.slots[i] = slot;
        }
        i = i + 1;
    }
    assert(dpb@ =~= Seq::new(
        NUM_REF_FRAMES as nat,
        |i: int|
            if refreshed(flags, i) {
                slot
            } else {
                old(dpb)@[i]
            },
    ));
}

/// Walk a complete uncompressed_header for an OBU_FRAME / OBU_FRAME_HEADER
/// payload. `dpb` holds reference-slot state going into the frame and is
/// updated for the caller's next frame.
pub fn scan_uncompressed_header(payload: &[u8], sh: &SequenceHeader, dpb: &mut Dpb) -> (res: Result<
    HeaderScan,
    Error,
>)
    requires
        walkable(sh@),
        slots_wf(old(dpb)@),
    ensures
        res == scan_of(payload@, sh@, old(dpb)@),
        match res {
            Ok(s) => final(dpb)@ == slots_after(old(dpb)@, s),
            Err(_) => final(dpb)@ == if scan_resets(payload@, sh@) {
                blank_slots()
            } else {
                old(dpb)@
            },
        },
        slots_wf(final(dpb)@),
{
    broadcast use group_sticky;

    proof {
        reveal(scan_at);
    }
    if sh.reduced_still_picture_header {
        return Err(Error::ScanReducedStillPicture);
    }
    if sh.film_grain_params_present {
        return Err(Error::ScanFilmGrain);
    }
    if sh.frame_id_numbers_present {
        return Err(Error::ScanFrameIds);
    }
    let mut r = BitReader::new(payload);
    let k = kind(&mut r, sh)?;
    if k.frame_type == KEY_FRAME && k.show_frame {
        *dpb = Dpb::default();  // decoder reset
    }
    let ghost slots = dpb@;
    assert(slots == slots_before(old(dpb)@, k));
    let p = frame_header::prelude(&mut r, sh, k.frame_type, k.resilient)?;
    let removal_insert_pos = r.position();
    frame_header::removal_times(&mut r, sh)?;
    let refresh_frame_flags = refreshes(&mut r, sh, k)?;
    let z = if is_intra(k.frame_type) {
        picture::intra_picture(&mut r, sh, p)?
    } else {
        picture::inter_picture(&mut r, sh, p, k.resilient, dpb)?
    };
    let lossless = coding(&mut r, sh, p, &z)?;
    filter_params(&mut r, sh, &z, lossless)?;
    tail(&mut r, sh, k, &z, p.order_hint, dpb, lossless)?;
    let end_pos = r.position();
    let g = z.geometry;
    let s = HeaderScan {
        removal_insert_pos,
        end_pos,
        frame_type: k.frame_type,
        show_frame: k.show_frame,
        showable_frame: k.showable_frame,
        refresh_frame_flags,
        frame_width: g.frame_width,
        frame_height: g.frame_height,
        upscaled_width: g.upscaled_width,
        render_width: g.render_width,
        render_height: g.render_height,
        order_hint: p.order_hint,
    };
    store(
        dpb,
        refresh_frame_flags,
        RefSlot {
            order_hint: p.order_hint,
            upscaled_width: g.upscaled_width,
            frame_width: g.frame_width,
            frame_height: g.frame_height,
            render_width: g.render_width,
            render_height: g.render_height,
            is_key_frame: k.frame_type == KEY_FRAME,
        },
    );
    assert(dpb@ =~= slots_after(old(dpb)@, s));
    Ok(s)
}

// ---------- splicing ----------

/// The bits of the fields, each `(width, value)`.
pub open spec fn field_bits(fields: Seq<(usize, u64)>) -> Seq<bool>
    decreases fields.len(),
{
    if fields.len() == 0 {
        Seq::empty()
    } else {
        field_bits(fields.drop_last()) + bitio::be_bits(
            fields.last().0 as nat,
            fields.last().1 as nat,
        )
    }
}

/// How many bytes hold `n` bits.
pub open spec fn bytes_for(n: int) -> int {
    (n + 7) / 8
}

/// The header bits of `payload` up to `end` with `insert` put in at `pos`.
pub open spec fn spliced_bits(payload: Seq<u8>, pos: int, end: int, insert: Seq<bool>) -> Seq<bool> {
    let bits = bitio::bits_of(payload);
    bits.take(pos) + insert + bits.subrange(pos, end)
}

/// `payload` with `insert` put into its header, which ends at bit `end`. The
/// bytes behind the header's last byte stay as they are.
pub open spec fn spliced(payload: Seq<u8>, pos: int, end: int, insert: Seq<bool>) -> Seq<u8> {
    bitio::pack(spliced_bits(payload, pos, end, insert)) + payload.skip(bytes_for(end))
}

/// What splicing gives.
pub open spec fn splice_of(payload: Seq<u8>, pos: int, end: int, insert: Seq<bool>) -> Result<
    Seq<u8>,
    Error,
> {
    if pos > end {
        Err(Error::SplicePastHeader)
    } else if end > 8 * payload.len() {
        Err(Error::HeaderPastPayload)
    } else {
        Ok(spliced(payload, pos, end, insert))
    }
}

/// Copy the bits from `from` to `to`.
fn copy_bits(w: &mut BitWriter, payload: &[u8], from: usize, to: usize)
    requires
        old(w).wf(),
        from <= to <= 8 * payload@.len(),
    ensures
        final(w).wf(),
        final(w)@ == old(w)@ + bitio::bits_of(payload@).subrange(from as int, to as int),
{
    let ghost bits = bitio::bits_of(payload@);
    let mut i: usize = from;
    assert(w@ + bits.subrange(from as int, from as int) =~= w@);
    while i < to
        invariant
            from <= i <= to <= 8 * payload@.len(),
            bits == bitio::bits_of(payload@),
            w.wf(),
            w@ == old(w)@ + bits.subrange(from as int, i as int),
        decreases to - i,
    {
        let byte = payload[i / 8];
        let k: u8 = 7 - (i % 8) as u8;
        let bit = (byte >> k) & 1 == 1;
        assert(bit == bits[i as int]);
        w.flag(bit);
        i = i + 1;
        assert(w@ =~= old(w)@ + bits.subrange(from as int, i as int));
    }
}

/// Splice `insert` (a list of (nbits, value) fields) into `payload` at bit
/// position `pos`, keeping bits [pos..header_end) of the original header,
/// re-emitting byte_alignment, then copying the bytes that followed the
/// original header's alignment (tile data) verbatim.
pub fn splice_header_bits(
    payload: &[u8],
    pos: usize,
    header_end: usize,
    insert: &[(usize, u64)],
) -> (res: Result<Vec<u8>, Error>)
    requires
        forall|i: int| 0 <= i < insert@.len() ==> (#[trigger] insert@[i]).0 <= 64,
    ensures
        crate::model::view_ok(res) == splice_of(
            payload@,
            pos as int,
            header_end as int,
            field_bits(insert@),
        ),
{
    if pos > header_end {
        return Err(Error::SplicePastHeader);
    }
    let tile_start: usize = header_end / 8 + if header_end % 8 == 0 {
        0
    } else {
        1
    };
    if tile_start > payload.len() {
        return Err(Error::HeaderPastPayload);
    }
    let ghost bits = bitio::bits_of(payload@);
    let mut w = BitWriter::new();
    copy_bits(&mut w, payload, 0, pos);
    assert(w@ =~= bits.take(pos as int));
    let mut i: usize = 0;
    assert(insert@.take(0) =~= Seq::empty());
    assert(w@ + field_bits(insert@.take(0)) =~= bits.take(pos as int));
    while i < insert.len()
        invariant
            i <= insert@.len(),
            w.wf(),
            forall|j: int| 0 <= j < insert@.len() ==> (#[trigger] insert@[j]).0 <= 64,
            w@ == bits.take(pos as int) + field_bits(insert@.take(i as int)),
        decreases insert@.len() - i,
    {
        let (n, v) = insert[i];
        assert(insert@[i as int].0 <= 64);
        w.f(n, v);
        i = i + 1;
        proof {
            assert(insert@.take(i as int).drop_last() =~= insert@.take(i - 1));
            assert(w@ =~= bits.take(pos as int) + field_bits(insert@.take(i as int)));
        }
    }
    assert(insert@.take(i as int) =~= insert@);
    copy_bits(&mut w, payload, pos, header_end);
    let ghost all = w@;
    assert(all =~= spliced_bits(
        payload@,
        pos as int,
        header_end as int,
        field_bits(insert@),
    ));
    w.byte_alignment();
    let mut bytes = w.into_bytes();
    assert(bitio::aligned(bitio::aligned(all)) =~= bitio::aligned(all));
    assert(bytes@ =~= bitio::pack(all));
    bytes.extend_from_slice(vstd::slice::slice_subrange(payload, tile_start, payload.len()));
    assert(bytes@ =~= bitio::pack(all) + payload@.skip(tile_start as int));
    Ok(bytes)
}

/// A splice keeps every header bit, the ones behind the insertion moved by its
/// length, and the tile data after the header's last byte.
pub proof fn splice_keeps_header_and_tiles(
    payload: Seq<u8>,
    pos: int,
    end: int,
    insert: Seq<bool>,
)
    requires
        0 <= pos <= end <= 8 * payload.len(),
    ensures
        ({
            let bits = bitio::bits_of(payload);
            let out = spliced(payload, pos, end, insert);
            let out_bits = bitio::bits_of(out);
            let n = insert.len() as int;
            &&& end + n <= out_bits.len()
            &&& forall|i: int| 0 <= i < pos ==> #[trigger] out_bits[i] == bits[i]
            &&& forall|i: int| 0 <= i < n ==> #[trigger] insert[i] == out_bits[pos + i]
            &&& forall|i: int| pos <= i < end ==> #[trigger] bits[i] == out_bits[i + n]
            &&& out.skip(bytes_for(end + n)) == payload.skip(bytes_for(end))
        }),
{
    let bits = bitio::bits_of(payload);
    let head = spliced_bits(payload, pos, end, insert);
    let packed = bitio::pack(head);
    let tiles = payload.skip(bytes_for(end));
    let out = spliced(payload, pos, end, insert);
    let n = insert.len() as int;
    bitio::lemma_bits_of_pack(head);
    assert(head.len() == end + n);
    assert(packed.len() == bytes_for(end + n));
    assert forall|i: int| 0 <= i < end + n implies #[trigger] bitio::bits_of(out)[i] == head[i] by {
        assert(out[i / 8] == packed[i / 8]);
        assert(bitio::bits_of(packed)[i] == bitio::aligned(head)[i]);
    }
    assert forall|i: int| 0 <= i < n implies #[trigger] insert[i] == bitio::bits_of(out)[pos + i] by {
        assert(head[pos + i] == insert[i]);
    }
    assert forall|i: int| pos <= i < end implies #[trigger] bits[i] == bitio::bits_of(out)[i
        + n] by {
        assert(head[i + n] == bits[i]);
    }
    assert(out.skip(bytes_for(end + n)) =~= tiles);
}

/// Splicing nothing in keeps the header bits where they are and the length and
/// tile data of the payload.
pub proof fn splice_of_nothing_is_identical(payload: Seq<u8>, pos: int, end: int)
    requires
        0 <= pos <= end <= 8 * payload.len(),
    ensures
        ({
            let out = spliced(payload, pos, end, Seq::empty());
            &&& out.len() == payload.len()
            &&& bitio::bits_of(out).take(end) == bitio::bits_of(payload).take(end)
            &&& out.skip(bytes_for(end)) == payload.skip(bytes_for(end))
        }),
{
    let none = Seq::<bool>::empty();
    splice_keeps_header_and_tiles(payload, pos, end, none);
    let out = spliced(payload, pos, end, none);
    let bits = bitio::bits_of(payload);
    assert(spliced_bits(payload, pos, end, none) =~= bits.take(end));
    assert forall|i: int| 0 <= i < end implies bitio::bits_of(out)[i] == bits[i] by {
        if i >= pos {
            assert(bits[i] == bitio::bits_of(out)[i + 0]);
        }
    }
    assert(bitio::bits_of(out).take(end) =~= bits.take(end));
}

// ---------- the two header readers agree ----------

/// Where a header can be walked to its end, reading its front gives the same
/// frame type, visibility, order hint and refreshed slots.
pub proof fn scan_agrees_with_info(
    payload: Seq<u8>,
    sh: Sections<Seq<OperatingPoint>>,
    slots: Seq<RefSlot>,
)
    requires
        scan_of(payload, sh, slots) is Ok,
        !sh.needs_temporal_point_info(),
    ensures
        ({
            let s = scan_of(payload, sh, slots)->Ok_0;
            frame_header::info_of(payload, sh) == Ok::<frame_header::FrameHeaderInfo, Error>(
                frame_header::FrameHeaderInfo {
                    show_existing_frame: false,
                    frame_to_show_map_idx: None,
                    frame_type: Some(s.frame_type),
                    show_frame: s.show_frame,
                    showable_frame: s.showable_frame,
                    order_hint: s.order_hint,
                    refresh_frame_flags: s.refresh_frame_flags,
                },
            )
        }),
{
    broadcast use group_sticky;

    reveal(scan_at);
    reveal(kind_at);
    reveal(refreshes_at);
    let c = Cur::start(payload);
    let (k, c1) = kind_at(c, sh);
    let (p, c2) = frame_header::prelude_at(c1, sh, k.frame_type, k.resilient);
    let c3 = frame_header::removal_at(c2, sh);
    let bits = sh.tools.inter.order_hint_bits as nat;
    let step = |c: Cur| c.f(bits).1;
    assert(bitio::sticky(step));
    let c4 = frame_header::refresh_at(c3, k.frame_type, k.show_frame).1;
    if c4.err is Some {
        bitio::lemma_times_fail(c4, 0, NUM_REF_FRAMES as nat, step);
    }
}

} // verus!
