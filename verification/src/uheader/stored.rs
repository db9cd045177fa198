//! What the reference slots hold.

use vstd::arithmetic::power2::*;
use vstd::prelude::*;

use crate::uheader::{self, HeaderScan, RefSlot};

verus! {

/// Whether the flags name slot `i`: the lowest bit names slot 0.
pub open spec fn names(flags: u8, i: int) -> bool {
    (flags as nat / pow2(i as nat)) % 2 == 1
}

/// Whether a slot holds a frame.
pub open spec fn holds(slot: RefSlot, s: HeaderScan) -> bool {
    &&& slot.order_hint == s.order_hint
    &&& slot.upscaled_width == s.upscaled_width
    &&& slot.frame_width == s.frame_width
    &&& slot.frame_height == s.frame_height
    &&& slot.render_width == s.render_width
    &&& slot.render_height == s.render_height
    &&& slot.is_key_frame == (s.frame_type == 0)
}

/// Whether a slot holds nothing.
pub open spec fn is_blank(slot: RefSlot) -> bool {
    &&& slot.order_hint == 0
    &&& slot.upscaled_width == 0
    &&& slot.frame_width == 0
    &&& slot.frame_height == 0
    &&& slot.render_width == 0
    &&& slot.render_height == 0
    &&& !slot.is_key_frame
}

proof fn lemma_names(flags: u8, i: int)
    requires
        0 <= i < 8,
    ensures
        uheader::refreshed(flags, i) == names(flags, i),
{
    lemma2_to64();
    assert((flags >> 0u8) & 1 == (flags / 1) % 2 && (flags >> 1u8) & 1 == (flags / 2) % 2 && (flags
        >> 2u8) & 1 == (flags / 4) % 2 && (flags >> 3u8) & 1 == (flags / 8) % 2 && (flags >> 4u8)
        & 1 == (flags / 16) % 2 && (flags >> 5u8) & 1 == (flags / 32) % 2 && (flags >> 6u8) & 1 == (
    flags / 64) % 2 && (flags >> 7u8) & 1 == (flags / 128) % 2) by (bit_vector);
    assert(i == 0 || i == 1 || i == 2 || i == 3 || i == 4 || i == 5 || i == 6 || i == 7);
}

/// A frame is stored where its flags say: in every slot that they name, and in
/// no other. The other slots stay as they are, but that a key frame that is
/// shown empties them.
pub proof fn a_frame_is_stored_where_its_flags_say(slots: Seq<RefSlot>, s: HeaderScan, i: int)
    requires
        0 <= i < 8,
    ensures
        ({
            let after = uheader::slots_after(slots, s);
            &&& after.len() == 8
            &&& if names(s.refresh_frame_flags, i) {
                holds(after[i], s)
            } else if s.frame_type == 0 && s.show_frame {
                is_blank(after[i])
            } else {
                after[i] == slots[i]
            }
        }),
{
    lemma_names(s.refresh_frame_flags, i);
}

} // verus!
