//! What an analysis tells of a frame that was written.

use vstd::arithmetic::power2::*;
use vstd::prelude::*;

use crate::bitio::{self, Cur};
use crate::fields;
use crate::inspect::{self, TuKind, Walked};
use crate::seq_header::SequenceHeader;
use crate::uheader;
use crate::uheader::writer::frame::{self, Frame};
use crate::uheader::writer::walk;
use crate::uheader::writer::{self, behind};
use crate::uheader::RefSlot;

verus! {

/// The references of a frame that was written are read back.
pub proof fn references_read_back(
    payload: Seq<u8>,
    r: SequenceHeader,
    slots: Seq<RefSlot>,
    h: Frame,
)
    requires
        r@.canonical(),
        !r.reduced_still_picture_header,
        h.valid(r, slots),
        !h.intra(),
        8 * payload.len() <= usize::MAX,
        fields::lead(payload, frame::frame_fields(r, slots, h)),
    ensures
        inspect::ref_slots_of(payload, r@) is Ok,
        inspect::ref_slots_of(payload, r@)->Ok_0.len() == 7,
        forall|i: int|
            0 <= i < 7 ==> #[trigger] inspect::ref_slots_of(payload, r@)->Ok_0[i] == h.refs[i],
{
    let bits = bitio::bits_of(payload);
    let t = frame::frame_fields(r, slots, h);
    fields::lemma_lead_starts(payload, t);
    assert(behind(bits, Seq::empty()) == Cur::start(payload));
    walk::lemma_front(bits, r, slots, h);
    walk::lemma_parts(bits, r, slots, h);
    walk::lemma_references(bits, r, slots, h);
    lemma_referring(bits, r, h);
    reveal(inspect::ref_slots_at);
}

proof fn lemma_referring(bits: Seq<bool>, r: SequenceHeader, h: Frame)
    requires
        writer::fits(bits, frame::opening(r, h)),
        h.front_valid(r),
        r@.canonical(),
        !h.intra(),
    ensures
        inspect::referring_at(behind(bits, Seq::empty())).err is None,
{
    frame::lemma_opening(bits, r, h);
    reveal(uheader::kind_at);
}

/// A frame that was written is reported as it was written: its type, how it is
/// shown, where it is stored, its order hint, and the slots that it refers to,
/// zeros where it refers to none.
pub proof fn a_written_frame_is_reported(
    w: Walked,
    payload: Seq<u8>,
    r: SequenceHeader,
    h: Frame,
    tu: usize,
)
    requires
        w.header == Some(r@),
        r@.canonical(),
        !r.reduced_still_picture_header && !r.film_grain_params_present
            && !r.frame_id_numbers_present,
        !r.decoder_model_info_present || r.equal_picture_interval,
        h.valid(r, w.dpb),
        8 * payload.len() <= usize::MAX,
        fields::lead(payload, frame::frame_fields(r, w.dpb, h)),
    ensures
        w.with_frame(payload, tu) is Ok,
        w.with_frame(payload, tu)->Ok_0.1 matches TuKind::Coded {
            frame_type,
            show_frame,
            showable_frame,
            refresh_frame_flags,
            order_hint,
            ref_slots,
        } && {
            &&& frame_type == h.frame_type
            &&& show_frame == h.show_frame
            &&& showable_frame == h.showable_frame
            &&& refresh_frame_flags == h.refresh
            &&& order_hint == h.order_hint
            &&& ref_slots.len() == 7
            &&& forall|i: int|
                0 <= i < 7 ==> #[trigger] ref_slots[i] == if h.intra() {
                    0
                } else {
                    h.refs[i]
                }
        },
{
    walk::the_walk_undoes_the_writer(payload, r, w.dpb, h);
    walk::the_short_reading_agrees(payload, r, w.dpb, h);
    walk::lemma_told(r, w.dpb, h);
    if !h.intra() {
        references_read_back(payload, r, w.dpb, h);
    }
}

} // verus!
