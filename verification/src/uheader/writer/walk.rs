//! The walk undoes the writer.

use vstd::arithmetic::power2::*;
use vstd::prelude::*;

use crate::bitio::{self, Cur};
use crate::error::Error;
use crate::fields::{self, flag, width, Field};
use crate::frame_header::{self, FrameHeaderInfo, Prelude};
use crate::seq_header::SequenceHeader;
use crate::uheader::picture::Picture;
use crate::uheader::writer::filters;
use crate::uheader::writer::frame::{self, Frame};
use crate::uheader::writer::motion;
use crate::uheader::writer::picture;
use crate::uheader::writer::quant;
use crate::uheader::writer::skip_mode;
use crate::uheader::writer::tiles;
use crate::uheader::writer::{self, behind, fits};
use crate::uheader::{self, HeaderScan, Kind, RefSlot};

verus! {

/// Whether the walk made out the choices for the whole frame.
pub open spec fn told_prelude(p: Prelude, h: Frame) -> bool {
    &&& p.disable_cdf_update == h.disable_cdf_update
    &&& p.allow_screen_content_tools == h.screen_content
    &&& p.force_integer_mv == (h.integer_mv || h.intra())
    &&& p.frame_size_override == h.size_override
    &&& p.order_hint == h.order_hint
    &&& p.primary_ref_frame == h.primary_ref
}

/// Whether the walk made out what kind of frame it is.
pub open spec fn told_kind(k: Kind, h: Frame) -> bool {
    &&& k.frame_type == h.frame_type
    &&& k.show_frame == h.show_frame
    &&& k.showable_frame == h.showable_frame
    &&& k.resilient == h.error_resilient
    &&& k.intra() == h.intra()
    &&& k.resets() == (h.frame_type == 0 && h.show_frame)
}

/// Whether the walk made out the picture.
pub open spec fn told_picture(z: Picture<Seq<u8>>, h: Frame) -> bool {
    &&& picture::made_out(z.geometry, h.size)
    &&& z.allow_intrabc == h.intra_block_copy
    &&& z.geometry.frame_width <= 65536
    &&& z.geometry.frame_height <= 65536
    &&& !h.intra() ==> {
        &&& z.ref_frame_idx.len() == 7
        &&& forall|i: int| 0 <= i < 7 ==> #[trigger] z.ref_frame_idx[i] == h.refs[i]
        &&& z.allow_high_precision_mv == (!h.integer_mv && h.high_precision_mv)
    }
}

proof fn lemma_motion_vectors(
    bits: Seq<bool>,
    t: Seq<Field>,
    r: SequenceHeader,
    h: Frame,
    p: Prelude,
)
    requires
        fits(bits, frame::motion_vectors(t, r, h)),
        h.interpolation matches Some(v) ==> v < 4,
        !h.intra(),
        told_prelude(p, h),
    ensures
        fits(bits, t),
        uheader::picture::motion_at(behind(bits, t), r@, p, h.error_resilient) == (
            !h.integer_mv && h.high_precision_mv,
            behind(bits, frame::motion_vectors(t, r, h)),
        ),
{
    broadcast use writer::group_reads;

    reveal(uheader::picture::motion_at);
    lemma2_to64();
    let t1 = if h.integer_mv {
        t
    } else {
        t.push(flag(h.high_precision_mv))
    };
    let t2 = match h.interpolation {
        None => t1.push(flag(true)),
        Some(v) => t1.push(flag(false)).push((2, v)),
    };
    let t3 = t2.push(flag(h.motion_mode_switchable));
    assert(fits(bits, t3));
    assert(fits(bits, t2));
    assert(fits(bits, t1));
}

proof fn lemma_intra(
    bits: Seq<bool>,
    t: Seq<Field>,
    r: SequenceHeader,
    slots: Seq<RefSlot>,
    h: Frame,
    p: Prelude,
)
    requires
        fits(bits, frame::picture(t, r, h)),
        r@.canonical(),
        h.picture_valid(r, slots),
        h.intra(),
        told_prelude(p, h),
    ensures
        fits(bits, t),
        uheader::picture::intra_at(behind(bits, t), r@, p).1 == behind(
            bits,
            frame::picture(t, r, h),
        ),
        told_picture(uheader::picture::intra_at(behind(bits, t), r@, p).0, h),
{
    broadcast use writer::group_reads;

    reveal(uheader::picture::intra_at);
    let t1 = picture::size(t, r, h.size_override, h.size);
    assert(fits(bits, t1));
    picture::lemma_size(bits, t, r, h.size_override, h.size);
}

proof fn lemma_inter(
    bits: Seq<bool>,
    t: Seq<Field>,
    r: SequenceHeader,
    slots: Seq<RefSlot>,
    h: Frame,
    p: Prelude,
)
    requires
        fits(bits, frame::picture(t, r, h)),
        r@.canonical(),
        h.picture_valid(r, slots),
        !h.intra(),
        told_prelude(p, h),
    ensures
        fits(bits, t),
        ({
            let (z, c) = uheader::picture::inter_at(
                behind(bits, t),
                r@,
                p,
                h.error_resilient,
                slots,
            );
            &&& c == behind(bits, frame::picture(t, r, h))
            &&& told_picture(z, h)
        }),
{
    broadcast use writer::group_reads;

    reveal(uheader::picture::inter_at);
    reveal(uheader::picture::short_signaling_at);
    let t1 = if r.enable_order_hint {
        t.push(flag(false))
    } else {
        t
    };
    let t2 = picture::references(t1, h.refs, 7);
    let own = !(h.size_override && !h.error_resilient);
    let t3 = if own {
        picture::size(t2, r, h.size_override, h.size)
    } else {
        picture::size_with_refs(t2, r, h.size_taken, h.size)
    };
    lemma_motion_vectors(bits, t3, r, h, p);
    let refs = uheader::picture::ref_idx_at(behind(bits, t1), 7).0;
    if own {
        picture::lemma_size(bits, t2, r, h.size_override, h.size);
        picture::lemma_references(bits, t1, h.refs, 7);
    } else {
        assert(fits(bits, picture::size_with_refs(t2, r, h.size_taken, h.size)));
        lemma_fits_refs(bits, t2, r, h.size_taken, h.size);
        picture::lemma_references(bits, t1, h.refs, 7);
        if let Some(i) = h.size_taken {
            assert(refs[i as int] == h.refs[i as int]);
        }
        picture::lemma_size_with_refs(bits, t2, r, refs, slots, h.size_taken, h.size);
    }
    assert(fits(bits, t1));
}

/// What stands in front of a size fits where the size does.
proof fn lemma_fits_refs(
    bits: Seq<bool>,
    t: Seq<Field>,
    r: SequenceHeader,
    taken: Option<nat>,
    z: picture::Size,
)
    requires
        fits(bits, picture::size_with_refs(t, r, taken, z)),
        r@.canonical(),
        z.valid(r),
        taken is None ==> picture::told(r, true, z),
    ensures
        fits(bits, t),
{
    broadcast use writer::group_reads;

    match taken {
        Some(i) => {
            let t1 = picture::passed(t, i).push(flag(true));
            picture::lemma_reduction(bits, t1, r, z);
            picture::lemma_passed(bits, t, i);
        },
        None => {
            picture::lemma_size(bits, picture::passed(t, 7), r, true, z);
            picture::lemma_passed(bits, t, 7);
        },
    }
}

proof fn lemma_coding(
    bits: Seq<bool>,
    t: Seq<Field>,
    r: SequenceHeader,
    h: Frame,
    p: Prelude,
    z: Picture<Seq<u8>>,
)
    requires
        fits(bits, frame::coding(t, r, h)),
        h.rest_valid(r),
        told_prelude(p, h),
        told_picture(z, h),
    ensures
        fits(bits, t),
        uheader::coding_at(behind(bits, t), r@, p, z) == (
            h.lossless(r),
            behind(bits, frame::coding(t, r, h)),
        ),
{
    broadcast use writer::group_reads;

    reveal(uheader::coding_at);
    let t1 = if h.disable_cdf_update {
        t
    } else {
        t.push(flag(h.disable_end_update))
    };
    let m = tiles::limits(h.size.coded_width(), h.size.height, r.use_128x128_superblock);
    let t2 = tiles::layout(t1, m, h.layout);
    let t3 = quant::quantizer(t2, r, h.quantizer);
    let alone = h.primary_ref == 7;
    let t4 = quant::segmentation(t3, alone, h.segmentation);
    quant::lemma_deltas(bits, t4, h.quantizer.base as u64, h.intra_block_copy, h.deltas);
    quant::lemma_segmentation(bits, t3, alone, h.segmentation);
    quant::lemma_quantizer(bits, t2, r, h.quantizer);
    tiles::lemma_layout(bits, t1, z.geometry, r.use_128x128_superblock, h.layout);
    assert(fits(bits, t1));
    let q = uheader::quant::quant_at(behind(bits, t2), r@).0;
    let offsets = uheader::quant::segmentation_at(behind(bits, t3), alone).0;
    assert forall|s: int| 0 <= s < 8 implies #[trigger] offsets[s] == h.offset(s) by {
        assert(offsets[s] == h.segmentation.offset(alone, s));
    }
    lemma_lossless(r, h, q, offsets);
}

proof fn lemma_lossless(
    r: SequenceHeader,
    h: Frame,
    q: uheader::quant::Quant,
    offsets: Seq<i64>,
)
    requires
        q.base_q_idx == h.quantizer.base,
        h.quantizer.flat(r) <==> q.delta_q_y_dc == 0 && q.delta_q_u_dc == 0 && q.delta_q_u_ac == 0
            && q.delta_q_v_dc == 0 && q.delta_q_v_ac == 0,
        offsets.len() == 8,
        forall|s: int|
            0 <= s < 8 ==> #[trigger] offsets[s] == h.offset(s),
    ensures
        uheader::quant::is_lossless(q, offsets) == h.lossless(r),
{
    if uheader::quant::is_lossless(q, offsets) {
        assert forall|s: int| 0 <= s < 8 implies h.quantizer.base + #[trigger] h.offset(s)
            <= 0 by {
            assert(offsets[s] == h.offset(s));
        }
    }
    if h.lossless(r) {
        assert forall|s: int| 0 <= s < 8 implies uheader::quant::clamped(
            q.base_q_idx + #[trigger] offsets[s],
            0,
            255,
        ) == 0 by {
            assert(h.quantizer.base + h.offset(s) <= 0);
        }
    }
}

proof fn lemma_filtering(
    bits: Seq<bool>,
    t: Seq<Field>,
    r: SequenceHeader,
    h: Frame,
    z: Picture<Seq<u8>>,
)
    requires
        fits(bits, frame::filtering(t, r, h)),
        h.rest_valid(r),
        told_picture(z, h),
    ensures
        fits(bits, t),
        uheader::filters_at(behind(bits, t), r@, z, h.lossless(r)) == behind(
            bits,
            frame::filtering(t, r, h),
        ),
{
    reveal(uheader::filters_at);
    reveal(uheader::filters::cdef_at);
    reveal(uheader::filters::restoration_at);
    let lossless = h.lossless(r);
    let mono = r.mono_chrome;
    let t1 = if lossless || h.intra_block_copy {
        t
    } else {
        filters::loop_filter(t, mono, h.loop_filter)
    };
    let t2 = if lossless || h.intra_block_copy || !r.enable_cdef {
        t1
    } else {
        filters::cdef(t1, mono, h.cdef)
    };
    if !((lossless && h.full_width()) || h.intra_block_copy || !r.enable_restoration) {
        filters::lemma_restoration(bits, t2, r, h.restoration);
    }
    assert(fits(bits, t2));
    if !(lossless || h.intra_block_copy || !r.enable_cdef) {
        filters::lemma_cdef(bits, t1, mono, h.cdef);
    }
    assert(fits(bits, t1));
    if !(lossless || h.intra_block_copy) {
        filters::lemma_loop_filter(bits, t, mono, h.loop_filter);
    }
}

/// The flags behind the transforms of an inter frame.
proof fn lemma_compound(
    bits: Seq<bool>,
    t: Seq<Field>,
    r: SequenceHeader,
    h: Frame,
    two: bool,
)
    requires
        fits(bits, compound(t, r, h, two)),
    ensures
        fits(bits, t),
        ({
            let (select, c) = behind(bits, t).flag();
            let c = if two {
                c.flag().1
            } else {
                c
            };
            let c = if h.error_resilient || !r.enable_warped_motion {
                c
            } else {
                c.flag().1
            };
            &&& select == h.reference_select
            &&& c.flag().1 == behind(bits, compound(t, r, h, two))
        }),
{
    broadcast use writer::group_reads;

    let t2 = t.push(flag(h.reference_select));
    let t3 = if two {
        t2.push(flag(h.skip_mode))
    } else {
        t2
    };
    let t4 = if h.error_resilient || !r.enable_warped_motion {
        t3
    } else {
        t3.push(flag(h.warped_motion))
    };
    assert(fits(bits, t4));
    assert(fits(bits, t3));
    assert(fits(bits, t2));
}

/// The flags behind the transforms of an inter frame.
pub open spec fn compound(t: Seq<Field>, r: SequenceHeader, h: Frame, two: bool) -> Seq<Field> {
    let t = t.push(flag(h.reference_select));
    let t = if two {
        t.push(flag(h.skip_mode))
    } else {
        t
    };
    let t = if h.error_resilient || !r.enable_warped_motion {
        t
    } else {
        t.push(flag(h.warped_motion))
    };
    t.push(flag(h.reduced_transforms))
}

#[verifier::rlimit(30)]
proof fn lemma_closing(
    bits: Seq<bool>,
    t: Seq<Field>,
    r: SequenceHeader,
    slots: Seq<RefSlot>,
    h: Frame,
    k: Kind,
    z: Picture<Seq<u8>>,
)
    requires
        fits(bits, frame::closing(t, r, slots, h)),
        h.rest_valid(r),
        h.order_hint <= u64::MAX,
        r@.canonical(),
        !r.reduced_still_picture_header,
        told_kind(k, h),
        told_picture(z, h),
    ensures
        fits(bits, t),
        uheader::tail_at(
            behind(bits, t),
            r@,
            k,
            z,
            h.order_hint as u64,
            slots,
            h.lossless(r),
        ) == behind(bits, frame::closing(t, r, slots, h)),
{
    reveal(uheader::tail_at);
    let lossless = h.lossless(r);
    let t1 = if lossless {
        t
    } else {
        t.push(flag(h.transform_select))
    };
    if h.intra() {
        writer::lemma_flag(bits, t1, h.reduced_transforms);
    } else {
        let now = h.order_hint as u64;
        let n = r.order_hint_bits as nat;
        let hints = h.hints(slots);
        assert(uheader::skip_mode::ref_hints(slots, z.ref_frame_idx) =~= hints);
        assert(r@.tools == r.tools());
        assert(r@.tools.inter.canonical());
        if r.enable_order_hint {
            skip_mode::lemma_two_references(hints, now, n);
        }
        let two = h.reference_select && r.enable_order_hint && skip_mode::two_references(
            hints,
            now,
            n,
        );
        let t5 = compound(t1, r, h, two);
        motion::lemma_motions(bits, t5, z.allow_high_precision_mv, h.motions);
        lemma_compound(bits, t1, r, h, two);
    }
    if !lossless {
        writer::lemma_flag(bits, t, h.transform_select);
    }
}

/// What the walk makes out of a header.
pub open spec fn scan_of_frame(r: SequenceHeader, slots: Seq<RefSlot>, h: Frame) -> HeaderScan {
    HeaderScan {
        removal_insert_pos: width(frame::front_fields(r, h)) as usize,
        end_pos: width(frame::frame_fields(r, slots, h)) as usize,
        frame_type: h.frame_type as u8,
        show_frame: h.show_frame,
        showable_frame: h.showable_frame,
        refresh_frame_flags: h.refresh as u8,
        frame_width: h.size.coded_width() as u64,
        frame_height: h.size.height as u64,
        upscaled_width: h.size.width as u64,
        render_width: h.size.displayed().0 as u64,
        render_height: h.size.displayed().1 as u64,
        order_hint: h.order_hint as u64,
    }
}

/// The kind of a frame.
pub open spec fn kind_of(h: Frame) -> Kind {
    Kind {
        frame_type: h.frame_type as u8,
        show_frame: h.show_frame,
        showable_frame: h.showable_frame,
        resilient: h.error_resilient,
    }
}

/// The choices for the whole frame.
pub open spec fn prelude_of(h: Frame) -> Prelude {
    Prelude {
        disable_cdf_update: h.disable_cdf_update,
        allow_screen_content_tools: h.screen_content,
        force_integer_mv: h.integer_mv || h.intra(),
        frame_size_override: h.size_override,
        order_hint: h.order_hint as u64,
        primary_ref_frame: h.primary_ref as u8,
    }
}

/// The picture of a frame.
pub open spec fn picture_of(h: Frame) -> Picture<Seq<u8>> {
    Picture {
        geometry: uheader::picture::Geometry {
            frame_width: h.size.coded_width() as u64,
            frame_height: h.size.height as u64,
            upscaled_width: h.size.width as u64,
            render_width: h.size.displayed().0 as u64,
            render_height: h.size.displayed().1 as u64,
        },
        allow_intrabc: h.intra_block_copy,
        ref_frame_idx: Seq::new(7, |i: int| h.refs[i] as u8),
        allow_high_precision_mv: !h.integer_mv && h.high_precision_mv,
    }
}

pub proof fn lemma_told(r: SequenceHeader, slots: Seq<RefSlot>, h: Frame)
    requires
        h.valid(r, slots),
        r@.canonical(),
        !r.reduced_still_picture_header,
    ensures
        told_kind(kind_of(h), h),
        told_prelude(prelude_of(h), h),
        told_picture(picture_of(h), h),
        h.order_hint <= u64::MAX,
{
    assert(r@.tools == r.tools() && r@.tools.inter.canonical());
    bitio::lemma_pow2_monotone(r.order_hint_bits as nat, 8);
    lemma2_to64();
    let w = h.size.width;
    if let Some(d) = h.size.denominator {
        assert(0 <= (w * 8 + d / 2) / d <= w) by (nonlinear_arith)
            requires
                9 <= d <= 16,
                1 <= w,
        ;
    }
    if !h.intra() && h.size_override && !h.error_resilient && h.size_taken is Some {
        assert(h.size.displayed().0 <= u64::MAX);
    }
}

/// Each part of the header starts where the part in front of it ends.
pub proof fn lemma_parts(bits: Seq<bool>, r: SequenceHeader, slots: Seq<RefSlot>, h: Frame)
    requires
        fits(bits, frame::frame_fields(r, slots, h)),
        h.valid(r, slots),
        r@.canonical(),
        !r.reduced_still_picture_header,
    ensures
        ({
            let t1 = frame::opening(r, h);
            let t2 = frame::front_fields(r, h);
            let t3 = frame::removal(t2, r, h);
            let t4 = frame::slots_told(frame::refresh(t3, h), r, h);
            let t5 = frame::picture(t4, r, h);
            let t6 = frame::coding(t5, r, h);
            let t7 = frame::filtering(t6, r, h);
            &&& fits(bits, t7)
            &&& fits(bits, t6)
            &&& fits(bits, t5)
            &&& fits(bits, t4)
            &&& fits(bits, t3)
            &&& fits(bits, t2)
            &&& fits(bits, t1)
        }),
{
    lemma_told(r, slots, h);
    let t1 = frame::opening(r, h);
    let t2 = frame::front_fields(r, h);
    let t3 = frame::removal(t2, r, h);
    let t4 = frame::slots_told(frame::refresh(t3, h), r, h);
    let t5 = frame::picture(t4, r, h);
    let t6 = frame::coding(t5, r, h);
    let t7 = frame::filtering(t6, r, h);
    let k = kind_of(h);
    let p = prelude_of(h);
    let z = picture_of(h);
    lemma_closing(bits, t7, r, slots, h, k, z);
    lemma_filtering(bits, t6, r, h, z);
    lemma_coding(bits, t5, r, h, p, z);
    if h.intra() {
        lemma_intra(bits, t4, r, slots, h, p);
    } else {
        lemma_inter(bits, t4, r, slots, h, p);
    }
    frame::lemma_refreshes(bits, t3, r, h, k);
    frame::lemma_removal(bits, t2, r, h);
    frame::lemma_prelude(bits, t1, r, h);
}

pub proof fn lemma_front(bits: Seq<bool>, r: SequenceHeader, slots: Seq<RefSlot>, h: Frame)
    requires
        fits(bits, frame::frame_fields(r, slots, h)),
        h.valid(r, slots),
        r@.canonical(),
        !r.reduced_still_picture_header,
    ensures
        ({
            let t1 = frame::opening(r, h);
            let t2 = frame::front_fields(r, h);
            let t3 = frame::removal(t2, r, h);
            let t4 = frame::slots_told(frame::refresh(t3, h), r, h);
            let k = kind_of(h);
            &&& uheader::kind_at(behind(bits, Seq::empty()), r@) == (k, behind(bits, t1))
            &&& frame_header::prelude_at(behind(bits, t1), r@, k.frame_type, k.resilient) == (
                prelude_of(h),
                behind(bits, t2),
            )
            &&& frame_header::removal_at(behind(bits, t2), r@) == behind(bits, t3)
            &&& uheader::refreshes_at(behind(bits, t3), r@, k) == (
                h.refresh as u8,
                behind(bits, t4),
            )
        }),
{
    lemma_told(r, slots, h);
    lemma_parts(bits, r, slots, h);
    let t1 = frame::opening(r, h);
    let t2 = frame::front_fields(r, h);
    let t3 = frame::removal(t2, r, h);
    frame::lemma_opening(bits, r, h);
    frame::lemma_prelude(bits, t1, r, h);
    frame::lemma_removal(bits, t2, r, h);
    frame::lemma_refreshes(bits, t3, r, h, kind_of(h));
}

proof fn lemma_rest(bits: Seq<bool>, r: SequenceHeader, slots: Seq<RefSlot>, h: Frame)
    requires
        fits(bits, frame::frame_fields(r, slots, h)),
        h.valid(r, slots),
        r@.canonical(),
        !r.reduced_still_picture_header,
    ensures
        ({
            let t3 = frame::removal(frame::front_fields(r, h), r, h);
            let t4 = frame::slots_told(frame::refresh(t3, h), r, h);
            let t5 = frame::picture(t4, r, h);
            let k = kind_of(h);
            let p = prelude_of(h);
            let known = uheader::slots_before(slots, k);
            let (z, c) = uheader::picture_at(behind(bits, t4), r@, k, p, known);
            &&& c == behind(bits, t5)
            &&& told_picture(z, h)
            &&& uheader::rest_at(c, r@, k, p, z, known) == behind(
                bits,
                frame::frame_fields(r, slots, h),
            )
        }),
{
    lemma_told(r, slots, h);
    lemma_parts(bits, r, slots, h);
    let t3 = frame::removal(frame::front_fields(r, h), r, h);
    let t4 = frame::slots_told(frame::refresh(t3, h), r, h);
    let t5 = frame::picture(t4, r, h);
    let t6 = frame::coding(t5, r, h);
    let t7 = frame::filtering(t6, r, h);
    let k = kind_of(h);
    let p = prelude_of(h);
    let known = uheader::slots_before(slots, k);
    let z = uheader::picture_at(behind(bits, t4), r@, k, p, known).0;
    if h.intra() {
        lemma_intra(bits, t4, r, slots, h, p);
    } else {
        assert(known == slots);
        lemma_inter(bits, t4, r, slots, h, p);
    }
    lemma_coding(bits, t5, r, h, p, z);
    lemma_filtering(bits, t6, r, h, z);
    assert(frame::closing(t7, r, known, h) == frame::closing(t7, r, slots, h));
    lemma_closing(bits, t7, r, known, h, k, z);
}

proof fn lemma_scan(bits: Seq<bool>, r: SequenceHeader, slots: Seq<RefSlot>, h: Frame)
    requires
        fits(bits, frame::frame_fields(r, slots, h)),
        h.valid(r, slots),
        r@.canonical(),
        !r.reduced_still_picture_header,
    ensures
        uheader::scan_at(behind(bits, Seq::empty()), r@, slots) == (
            scan_of_frame(r, slots, h),
            behind(bits, frame::frame_fields(r, slots, h)),
        ),
{
    reveal(uheader::scan_at);
    lemma_front(bits, r, slots, h);
    lemma_rest(bits, r, slots, h);
}

/// The references of an inter frame.
pub proof fn lemma_references(bits: Seq<bool>, r: SequenceHeader, slots: Seq<RefSlot>, h: Frame)
    requires
        fits(bits, frame::frame_fields(r, slots, h)),
        h.valid(r, slots),
        r@.canonical(),
        !r.reduced_still_picture_header,
        !h.intra(),
    ensures
        ({
            let t3 = frame::removal(frame::front_fields(r, h), r, h);
            let t4 = frame::slots_told(frame::refresh(t3, h), r, h);
            let c = uheader::picture::short_signaling_at(behind(bits, t4), r@);
            let (refs, end) = uheader::picture::ref_idx_at(c, 7);
            &&& end.err is None
            &&& refs.len() == 7
            &&& forall|i: int| 0 <= i < 7 ==> #[trigger] refs[i] == h.refs[i]
        }),
{
    broadcast use writer::group_reads;

    reveal(uheader::picture::short_signaling_at);
    lemma_told(r, slots, h);
    lemma_parts(bits, r, slots, h);
    let t3 = frame::removal(frame::front_fields(r, h), r, h);
    let t4 = frame::slots_told(frame::refresh(t3, h), r, h);
    let t1 = if r.enable_order_hint {
        t4.push(flag(false))
    } else {
        t4
    };
    let t2 = picture::references(t1, h.refs, 7);
    let own = !(h.size_override && !h.error_resilient);
    let t5 = if own {
        picture::size(t2, r, h.size_override, h.size)
    } else {
        picture::size_with_refs(t2, r, h.size_taken, h.size)
    };
    lemma_motion_vectors(bits, t5, r, h, prelude_of(h));
    if own {
        picture::lemma_size(bits, t2, r, h.size_override, h.size);
    } else {
        lemma_fits_refs(bits, t2, r, h.size_taken, h.size);
    }
    picture::lemma_references(bits, t1, h.refs, 7);
    assert(fits(bits, t1));
}

/// The walk undoes the writer: of every header that can be written, the walk
/// gives the type, the flags and the sizes that were written, stops right
/// behind the last bit that was written, and finds the place of the removal
/// flag right behind the fields in front of it.
pub proof fn the_walk_undoes_the_writer(
    payload: Seq<u8>,
    r: SequenceHeader,
    slots: Seq<RefSlot>,
    h: Frame,
)
    requires
        r@.canonical(),
        !r.reduced_still_picture_header && !r.film_grain_params_present
            && !r.frame_id_numbers_present,
        h.valid(r, slots),
        8 * payload.len() <= usize::MAX,
        fields::lead(payload, frame::frame_fields(r, slots, h)),
    ensures
        uheader::scan_of(payload, r@, slots) == Ok::<HeaderScan, Error>(
            scan_of_frame(r, slots, h),
        ),
{
    let bits = bitio::bits_of(payload);
    let t = frame::frame_fields(r, slots, h);
    fields::lemma_lead_starts(payload, t);
    lemma_scan(bits, r, slots, h);
    assert(behind(bits, Seq::empty()) == Cur::start(payload));
}

/// What the short reading makes of the same header.
pub proof fn the_short_reading_agrees(
    payload: Seq<u8>,
    r: SequenceHeader,
    slots: Seq<RefSlot>,
    h: Frame,
)
    requires
        r@.canonical(),
        !r.reduced_still_picture_header && !r.frame_id_numbers_present,
        !r.decoder_model_info_present || r.equal_picture_interval,
        h.valid(r, slots),
        8 * payload.len() <= usize::MAX,
        fields::lead(payload, frame::frame_fields(r, slots, h)),
    ensures
        frame_header::info_of(payload, r@) == Ok::<FrameHeaderInfo, Error>(
            FrameHeaderInfo {
                show_existing_frame: false,
                frame_to_show_map_idx: None,
                frame_type: Some(h.frame_type as u8),
                show_frame: h.show_frame,
                showable_frame: h.showable_frame,
                order_hint: h.order_hint as u64,
                refresh_frame_flags: h.refresh as u8,
            },
        ),
{
    let bits = bitio::bits_of(payload);
    let t = frame::frame_fields(r, slots, h);
    fields::lemma_lead_starts(payload, t);
    assert(behind(bits, Seq::empty()) == Cur::start(payload));
    lemma_front(bits, r, slots, h);
    lemma_parts(bits, r, slots, h);
    let t3 = frame::removal(frame::front_fields(r, h), r, h);
    frame::lemma_slots_told(bits, frame::refresh(t3, h), r, h);
    frame::lemma_refresh(bits, t3, h, r);
    reveal(uheader::kind_at);
}

} // verus!
