//! The whole uncompressed header.

use vstd::arithmetic::power2::*;
use vstd::prelude::*;

use crate::bitio::{self, Cur};
use crate::fields::{flag, width, Field};
use crate::frame_header;
use crate::seq_header::SequenceHeader;
use crate::uheader::writer::filters::{self, Cdef, LoopFilter, Restoration};
use crate::uheader::writer::motion::{self, Motion};
use crate::uheader::writer::picture::{self, Size};
use crate::uheader::writer::quant::{self, Deltas, Quantizer, Segmentation};
use crate::uheader::writer::skip_mode;
use crate::uheader::writer::tiles::{self, Layout};
use crate::uheader::writer::{self, behind, fits};
use crate::uheader::{self, RefSlot};

verus! {

/// What an uncompressed header says.
pub struct Frame {
    /// 0 key, 1 inter, 2 intra only, 3 switch.
    pub frame_type: nat,
    pub show_frame: bool,
    pub presentation_time: nat,
    pub showable_frame: bool,
    pub error_resilient: bool,
    pub disable_cdf_update: bool,
    pub screen_content: bool,
    pub integer_mv: bool,
    pub size_override: bool,
    pub order_hint: nat,
    /// 7 for none.
    pub primary_ref: nat,
    pub removal_times: Option<Seq<nat>>,
    pub refresh: nat,
    pub ref_order_hints: Seq<nat>,
    pub size: Size,
    pub intra_block_copy: bool,
    pub refs: Seq<nat>,
    pub size_taken: Option<nat>,
    pub high_precision_mv: bool,
    /// None where each block chooses.
    pub interpolation: Option<nat>,
    pub motion_mode_switchable: bool,
    pub use_ref_frame_mvs: bool,
    pub disable_end_update: bool,
    pub layout: Layout,
    pub quantizer: Quantizer,
    pub segmentation: Segmentation,
    pub deltas: Deltas,
    pub loop_filter: LoopFilter,
    pub cdef: Cdef,
    pub restoration: Restoration,
    pub transform_select: bool,
    pub reference_select: bool,
    pub skip_mode: bool,
    pub warped_motion: bool,
    pub reduced_transforms: bool,
    pub motions: Seq<Motion>,
}

impl Frame {
    pub open spec fn intra(self) -> bool {
        self.frame_type == 0 || self.frame_type == 2
    }

    /// Whether all slots are refreshed, and errors contained, without a word.
    pub open spec fn implicit(self) -> bool {
        self.frame_type == 3 || (self.frame_type == 0 && self.show_frame)
    }

    /// Whether no segment quantizes.
    pub open spec fn lossless(self, r: SequenceHeader) -> bool {
        self.quantizer.flat(r) && forall|s: int|
            0 <= s < 8 ==> self.quantizer.base + #[trigger] self.offset(s) <= 0
    }

    /// What segment `s` changes the quantizer index by.
    pub open spec fn offset(self, s: int) -> int {
        self.segmentation.offset(self.primary_ref == 7, s)
    }

    /// Whether the frame is coded in its full width.
    pub open spec fn full_width(self) -> bool {
        self.size.coded_width() == self.size.width
    }

    /// The order hints of the references.
    pub open spec fn hints(self, slots: Seq<RefSlot>) -> Seq<u64> {
        Seq::new(7, |i: int| slots[self.refs[i] as int].order_hint)
    }
}

// ---------- what stands in front of the picture ----------

/// The type of the frame and how it is shown.
pub open spec fn opening(r: SequenceHeader, h: Frame) -> Seq<Field> {
    let t = Seq::<Field>::empty().push(flag(false));
    let t = t.push((2, h.frame_type)).push(flag(h.show_frame));
    let t = if h.show_frame && r.decoder_model_info_present && !r.equal_picture_interval {
        t.push(((r.frame_presentation_time_length_minus_1 + 1) as nat, h.presentation_time))
    } else {
        t
    };
    let t = if h.show_frame {
        t
    } else {
        t.push(flag(h.showable_frame))
    };
    if h.implicit() {
        t
    } else {
        t.push(flag(h.error_resilient))
    }
}

/// The choices for the whole frame.
pub open spec fn prelude(t: Seq<Field>, r: SequenceHeader, h: Frame) -> Seq<Field> {
    let t = t.push(flag(h.disable_cdf_update));
    let t = if r.seq_force_screen_content_tools == 2 {
        t.push(flag(h.screen_content))
    } else {
        t
    };
    let t = if h.screen_content && r.seq_force_integer_mv == 2 {
        t.push(flag(h.integer_mv))
    } else {
        t
    };
    let t = if h.frame_type == 3 {
        t
    } else {
        t.push(flag(h.size_override))
    };
    let t = t.push((r.order_hint_bits as nat, h.order_hint));
    if h.intra() || h.error_resilient {
        t
    } else {
        t.push((3, h.primary_ref))
    }
}

/// The removal times of the first `n` operating points that have a model.
pub open spec fn removal_times(t: Seq<Field>, r: SequenceHeader, list: Seq<nat>, n: nat) -> Seq<
    Field,
>
    decreases n,
{
    if n == 0 {
        t
    } else {
        let t = removal_times(t, r, list, (n - 1) as nat);
        if r.operating_points@[n - 1].decoder_model_present {
            t.push(((r.buffer_removal_time_length_minus_1 + 1) as nat, list[n - 1]))
        } else {
            t
        }
    }
}

/// When the frame is removed from the buffer.
pub open spec fn removal(t: Seq<Field>, r: SequenceHeader, h: Frame) -> Seq<Field> {
    if !r.decoder_model_info_present {
        t
    } else {
        match h.removal_times {
            None => t.push(flag(false)),
            Some(list) => removal_times(t.push(flag(true)), r, list, r.operating_points@.len()),
        }
    }
}

/// The first `n` order hints of the slots.
pub open spec fn slot_hints(t: Seq<Field>, r: SequenceHeader, list: Seq<nat>, n: nat) -> Seq<Field>
    decreases n,
{
    if n == 0 {
        t
    } else {
        slot_hints(t, r, list, (n - 1) as nat).push((r.order_hint_bits as nat, list[n - 1]))
    }
}

/// Which slots the frame is stored in.
pub open spec fn refresh(t: Seq<Field>, h: Frame) -> Seq<Field> {
    if h.implicit() {
        t
    } else {
        t.push((8, h.refresh))
    }
}

/// What the slots hold, where errors are contained and some slots stay.
pub open spec fn slots_told(t: Seq<Field>, r: SequenceHeader, h: Frame) -> Seq<Field> {
    if h.error_resilient && r.enable_order_hint && !(h.intra() && h.refresh == 0xff) {
        slot_hints(t, r, h.ref_order_hints, 8)
    } else {
        t
    }
}

/// The size and the references.
pub open spec fn picture(t: Seq<Field>, r: SequenceHeader, h: Frame) -> Seq<Field> {
    if h.intra() {
        let t = picture::size(t, r, h.size_override, h.size);
        if h.screen_content && h.full_width() {
            t.push(flag(h.intra_block_copy))
        } else {
            t
        }
    } else {
        let t = if r.enable_order_hint {
            t.push(flag(false))
        } else {
            t
        };
        let t = picture::references(t, h.refs, 7);
        let t = if h.size_override && !h.error_resilient {
            picture::size_with_refs(t, r, h.size_taken, h.size)
        } else {
            picture::size(t, r, h.size_override, h.size)
        };
        motion_vectors(t, r, h)
    }
}

/// How motion is told.
pub open spec fn motion_vectors(t: Seq<Field>, r: SequenceHeader, h: Frame) -> Seq<Field> {
    let t = if h.integer_mv {
        t
    } else {
        t.push(flag(h.high_precision_mv))
    };
    let t = match h.interpolation {
        None => t.push(flag(true)),
        Some(v) => t.push(flag(false)).push((2, v)),
    };
    let t = t.push(flag(h.motion_mode_switchable));
    if h.error_resilient || !r.enable_ref_frame_mvs {
        t
    } else {
        t.push(flag(h.use_ref_frame_mvs))
    }
}

// ---------- what stands behind it ----------

/// Tiles and quantization.
pub open spec fn coding(t: Seq<Field>, r: SequenceHeader, h: Frame) -> Seq<Field> {
    let t = if h.disable_cdf_update {
        t
    } else {
        t.push(flag(h.disable_end_update))
    };
    let m = tiles::limits(h.size.coded_width(), h.size.height, r.use_128x128_superblock);
    let t = tiles::layout(t, m, h.layout);
    let t = quant::quantizer(t, r, h.quantizer);
    let t = quant::segmentation(t, h.primary_ref == 7, h.segmentation);
    quant::deltas(t, h.quantizer.base, h.intra_block_copy, h.deltas)
}

/// The filters that run.
pub open spec fn filtering(t: Seq<Field>, r: SequenceHeader, h: Frame) -> Seq<Field> {
    let lossless = h.lossless(r);
    let t = if lossless || h.intra_block_copy {
        t
    } else {
        filters::loop_filter(t, r.mono_chrome, h.loop_filter)
    };
    let t = if lossless || h.intra_block_copy || !r.enable_cdef {
        t
    } else {
        filters::cdef(t, r.mono_chrome, h.cdef)
    };
    if (lossless && h.full_width()) || h.intra_block_copy || !r.enable_restoration {
        t
    } else {
        filters::restoration(t, r, h.restoration)
    }
}

/// Transforms, compound prediction and global motion.
pub open spec fn closing(
    t: Seq<Field>,
    r: SequenceHeader,
    slots: Seq<RefSlot>,
    h: Frame,
) -> Seq<Field> {
    let t = if h.lossless(r) {
        t
    } else {
        t.push(flag(h.transform_select))
    };
    if h.intra() {
        t.push(flag(h.reduced_transforms))
    } else {
        let t = t.push(flag(h.reference_select));
        let t = if h.reference_select && r.enable_order_hint && skip_mode::two_references(
            h.hints(slots),
            h.order_hint as u64,
            r.order_hint_bits as nat,
        ) {
            t.push(flag(h.skip_mode))
        } else {
            t
        };
        let t = if h.error_resilient || !r.enable_warped_motion {
            t
        } else {
            t.push(flag(h.warped_motion))
        };
        let t = t.push(flag(h.reduced_transforms));
        motion::motions(t, !h.integer_mv && h.high_precision_mv, h.motions, 7)
    }
}

/// The fields in front of the removal flag.
pub open spec fn front_fields(r: SequenceHeader, h: Frame) -> Seq<Field> {
    prelude(opening(r, h), r, h)
}

/// The fields of the header.
pub open spec fn frame_fields(r: SequenceHeader, slots: Seq<RefSlot>, h: Frame) -> Seq<Field> {
    let t = front_fields(r, h);
    let t = removal(t, r, h);
    let t = refresh(t, h);
    let t = slots_told(t, r, h);
    let t = picture(t, r, h);
    let t = coding(t, r, h);
    let t = filtering(t, r, h);
    closing(t, r, slots, h)
}

// ---------- which headers there are ----------

impl Frame {
    /// Whether what stands in front of the picture can be told.
    pub open spec fn front_valid(self, r: SequenceHeader) -> bool {
        let bits = r.order_hint_bits as nat;
        &&& self.frame_type < 4
        &&& self.presentation_time < pow2(
            (r.frame_presentation_time_length_minus_1 + 1) as nat,
        )
        &&& self.show_frame ==> self.showable_frame == (self.frame_type != 0)
        &&& self.implicit() ==> self.error_resilient && self.refresh == 0xff
        &&& r.seq_force_screen_content_tools != 2 ==> self.screen_content == (
        r.seq_force_screen_content_tools == 1)
        &&& !self.screen_content ==> !self.integer_mv
        &&& self.screen_content && r.seq_force_integer_mv != 2 ==> self.integer_mv == (
        r.seq_force_integer_mv == 1)
        &&& self.frame_type == 3 ==> self.size_override
        &&& self.order_hint < pow2(bits)
        &&& self.primary_ref < 8
        &&& self.intra() || self.error_resilient ==> self.primary_ref == 7
        &&& self.refresh < 256
        &&& self.ref_order_hints.len() == 8
        &&& forall|i: int| 0 <= i < 8 ==> #[trigger] self.ref_order_hints[i] < pow2(bits)
        &&& self.removal_times matches Some(list) ==> list.len() == r.operating_points@.len()
            && forall|i: int|
            0 <= i < list.len() ==> #[trigger] list[i] < pow2(
                (r.buffer_removal_time_length_minus_1 + 1) as nat,
            )
    }

    /// Whether the size and the references can be told.
    pub open spec fn picture_valid(self, r: SequenceHeader, slots: Seq<RefSlot>) -> bool {
        &&& self.size.valid(r)
        &&& self.intra_block_copy ==> self.intra() && self.screen_content && self.full_width()
        &&& self.refs.len() == 7
        &&& forall|i: int| 0 <= i < 7 ==> #[trigger] self.refs[i] < 8
        &&& self.interpolation matches Some(v) ==> v < 4
        &&& if !self.intra() && self.size_override && !self.error_resilient
            && self.size_taken is Some {
            let i = self.size_taken->Some_0;
            let slot = slots[self.refs[i as int] as int];
            &&& i < 7
            &&& self.size.width == slot.upscaled_width
            &&& self.size.height == slot.frame_height
            &&& self.size.displayed() == (slot.render_width as nat, slot.render_height as nat)
        } else {
            picture::told(r, self.size_override, self.size)
        }
    }

    /// Whether the rest can be told.
    pub open spec fn rest_valid(self, r: SequenceHeader) -> bool {
        &&& self.layout.valid(
            tiles::limits(self.size.coded_width(), self.size.height, r.use_128x128_superblock),
        )
        &&& self.quantizer.valid()
        &&& self.segmentation.valid()
        &&& self.deltas.valid()
        &&& self.loop_filter.valid()
        &&& self.cdef.valid()
        &&& self.restoration.valid()
        &&& self.motions.len() == 7
        &&& forall|i: int|
            0 <= i < 7 ==> (#[trigger] self.motions[i]).valid(
                !self.integer_mv && self.high_precision_mv,
            )
    }

    /// Whether there is such a header.
    pub open spec fn valid(self, r: SequenceHeader, slots: Seq<RefSlot>) -> bool {
        self.front_valid(r) && self.picture_valid(r, slots) && self.rest_valid(r)
    }
}

// ---------- the walk ----------

pub proof fn lemma_opening(bits: Seq<bool>, r: SequenceHeader, h: Frame)
    requires
        fits(bits, opening(r, h)),
        h.front_valid(r),
        r@.canonical(),
    ensures
        ({
            let (k, c) = uheader::kind_at(behind(bits, Seq::empty()), r@);
            &&& c == behind(bits, opening(r, h))
            &&& k.frame_type == h.frame_type
            &&& k.show_frame == h.show_frame
            &&& k.showable_frame == h.showable_frame
            &&& k.resilient == h.error_resilient
            &&& k.intra() == h.intra()
            &&& k.resets() == (h.frame_type == 0 && h.show_frame)
        }),
{
    broadcast use writer::group_reads;

    reveal(uheader::kind_at);
    lemma2_to64();
    assert(r@.timing == r.timing());
    assert(r@.timing.canonical());
    let t0 = Seq::<Field>::empty();
    let t1 = t0.push(flag(false)).push((2, h.frame_type)).push(flag(h.show_frame));
    let t2 = if h.show_frame && r.decoder_model_info_present && !r.equal_picture_interval {
        t1.push(((r.frame_presentation_time_length_minus_1 + 1) as nat, h.presentation_time))
    } else {
        t1
    };
    let t3 = if h.show_frame {
        t2
    } else {
        t2.push(flag(h.showable_frame))
    };
    assert(fits(bits, t3));
    assert(fits(bits, t2));
    assert(fits(bits, t1));
}

pub proof fn lemma_prelude(bits: Seq<bool>, t: Seq<Field>, r: SequenceHeader, h: Frame)
    requires
        fits(bits, prelude(t, r, h)),
        h.front_valid(r),
        r@.canonical(),
        !r.reduced_still_picture_header,
    ensures
        fits(bits, t),
        ({
            let (p, c) = frame_header::prelude_at(
                behind(bits, t),
                r@,
                h.frame_type as u8,
                h.error_resilient,
            );
            &&& c == behind(bits, prelude(t, r, h))
            &&& p.disable_cdf_update == h.disable_cdf_update
            &&& p.allow_screen_content_tools == h.screen_content
            &&& p.force_integer_mv == (h.integer_mv || h.intra())
            &&& p.frame_size_override == h.size_override
            &&& p.order_hint == h.order_hint
            &&& p.primary_ref_frame == h.primary_ref
        }),
{
    broadcast use writer::group_reads;

    reveal(frame_header::prelude_at);
    lemma2_to64();
    assert(r@.tools == r.tools());
    assert(r@.tools.inter.canonical());
    bitio::lemma_pow2_monotone(r.order_hint_bits as nat, 8);
    let t1 = t.push(flag(h.disable_cdf_update));
    let t2 = if r.seq_force_screen_content_tools == 2 {
        t1.push(flag(h.screen_content))
    } else {
        t1
    };
    let t3 = if h.screen_content && r.seq_force_integer_mv == 2 {
        t2.push(flag(h.integer_mv))
    } else {
        t2
    };
    let t4 = if h.frame_type == 3 {
        t3
    } else {
        t3.push(flag(h.size_override))
    };
    let t5 = t4.push((r.order_hint_bits as nat, h.order_hint));
    assert(fits(bits, t5));
    assert(fits(bits, t4));
    assert(fits(bits, t3));
    assert(fits(bits, t2));
    assert(fits(bits, t1));
    assert(frame_header::screen_tools_at(behind(bits, t1), r@) == (
        (h.screen_content, h.integer_mv),
        behind(bits, t3),
    ));
}

proof fn lemma_removal_times(
    bits: Seq<bool>,
    t: Seq<Field>,
    r: SequenceHeader,
    list: Seq<nat>,
    n: nat,
)
    requires
        fits(bits, removal_times(t, r, list, n)),
        n <= list.len(),
        list.len() == r.operating_points@.len(),
        r.buffer_removal_time_length_minus_1 < 32,
        forall|i: int|
            0 <= i < list.len() ==> #[trigger] list[i] < pow2(
                (r.buffer_removal_time_length_minus_1 + 1) as nat,
            ),
    ensures
        fits(bits, t),
        frame_header::removal_times_at(
            behind(bits, t),
            r.operating_points@.take(n as int),
            (r.buffer_removal_time_length_minus_1 + 1) as nat,
        ) == behind(bits, removal_times(t, r, list, n)),
    decreases n,
{
    broadcast use writer::group_reads;

    if n > 0 {
        let t1 = removal_times(t, r, list, (n - 1) as nat);
        assert(fits(bits, t1));
        lemma_removal_times(bits, t, r, list, (n - 1) as nat);
        let ops = r.operating_points@.take(n as int);
        assert(ops.drop_last() =~= r.operating_points@.take(n - 1));
        assert(ops.last() == r.operating_points@[n - 1]);
    }
}

pub proof fn lemma_removal(bits: Seq<bool>, t: Seq<Field>, r: SequenceHeader, h: Frame)
    requires
        fits(bits, removal(t, r, h)),
        h.front_valid(r),
        r@.canonical(),
    ensures
        fits(bits, t),
        frame_header::removal_at(behind(bits, t), r@) == behind(bits, removal(t, r, h)),
{
    broadcast use writer::group_reads;

    reveal(frame_header::removal_at);
    assert(r@.timing == r.timing());
    assert(r@.timing.canonical());
    if r.decoder_model_info_present {
        if let Some(list) = h.removal_times {
            let n = r.operating_points@.len();
            lemma_removal_times(bits, t.push(flag(true)), r, list, n);
            assert(r.operating_points@.take(n as int) =~= r.operating_points@);
            assert(r@.points == r.operating_points@);
        }
    }
}

proof fn lemma_slot_hints(
    bits: Seq<bool>,
    t: Seq<Field>,
    r: SequenceHeader,
    list: Seq<nat>,
    n: nat,
)
    requires
        fits(bits, slot_hints(t, r, list, n)),
        n <= list.len(),
        r.order_hint_bits <= 8,
        forall|i: int|
            0 <= i < list.len() ==> #[trigger] list[i] < pow2(r.order_hint_bits as nat),
    ensures
        fits(bits, t),
        bitio::times(behind(bits, t), n, |c: Cur| c.f(r.order_hint_bits as nat).1) == behind(
            bits,
            slot_hints(t, r, list, n),
        ),
    decreases n,
{
    broadcast use writer::group_reads;

    if n > 0 {
        assert(fits(bits, slot_hints(t, r, list, (n - 1) as nat)));
        lemma_slot_hints(bits, t, r, list, (n - 1) as nat);
    }
}

pub proof fn lemma_refresh(bits: Seq<bool>, t: Seq<Field>, h: Frame, r: SequenceHeader)
    requires
        fits(bits, refresh(t, h)),
        h.front_valid(r),
    ensures
        fits(bits, t),
        frame_header::refresh_at(behind(bits, t), h.frame_type as u8, h.show_frame) == (
            h.refresh as u8,
            behind(bits, refresh(t, h)),
        ),
{
    broadcast use writer::group_reads;

    lemma2_to64();
}

pub proof fn lemma_refreshes(
    bits: Seq<bool>,
    t: Seq<Field>,
    r: SequenceHeader,
    h: Frame,
    k: uheader::Kind,
)
    requires
        fits(bits, slots_told(refresh(t, h), r, h)),
        h.front_valid(r),
        r@.canonical(),
        !r.reduced_still_picture_header,
        k.frame_type == h.frame_type,
        k.show_frame == h.show_frame,
        k.resilient == h.error_resilient,
    ensures
        fits(bits, t),
        uheader::refreshes_at(behind(bits, t), r@, k) == (
            h.refresh as u8,
            behind(bits, slots_told(refresh(t, h), r, h)),
        ),
{
    reveal(uheader::refreshes_at);
    assert(r@.tools == r.tools());
    assert(r@.tools.inter.canonical());
    let t1 = refresh(t, h);
    if h.error_resilient && r.enable_order_hint && !(h.intra() && h.refresh == 0xff) {
        lemma_slot_hints(bits, t1, r, h.ref_order_hints, 8);
    }
    lemma_refresh(bits, t, h, r);
}

pub proof fn lemma_slots_told(bits: Seq<bool>, t: Seq<Field>, r: SequenceHeader, h: Frame)
    requires
        fits(bits, slots_told(t, r, h)),
        h.front_valid(r),
        r@.canonical(),
        !r.reduced_still_picture_header,
    ensures
        fits(bits, t),
{
    assert(r@.tools == r.tools());
    assert(r@.tools.inter.canonical());
    if h.error_resilient && r.enable_order_hint && !(h.intra() && h.refresh == 0xff) {
        lemma_slot_hints(bits, t, r, h.ref_order_hints, 8);
    }
}

} // verus!
