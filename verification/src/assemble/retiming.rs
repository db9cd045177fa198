//! What an assembled stream declares about its rate, told from the header that
//! was handed in.

use vstd::prelude::*;

use crate::assemble::playlist;
use crate::assemble::{self, AssembleError, AssembleOutput, AssembleParams, Assembled, Segment};
use crate::seq_header::{self, OperatingPoint, SequenceHeader};

verus! {

/// Whether two headers say the same of everything but timing and decoder model.
pub open spec fn same_pictures(a: SequenceHeader, b: SequenceHeader) -> bool {
    &&& b.seq_profile == a.seq_profile
    &&& b.still_picture == a.still_picture
    &&& b.reduced_still_picture_header == a.reduced_still_picture_header
    &&& b.frame_id_numbers_present == a.frame_id_numbers_present
    &&& b.id_len == a.id_len
    &&& b.use_128x128_superblock == a.use_128x128_superblock
    &&& b.enable_order_hint == a.enable_order_hint
    &&& b.order_hint_bits == a.order_hint_bits
    &&& b.seq_force_screen_content_tools == a.seq_force_screen_content_tools
    &&& b.seq_force_integer_mv == a.seq_force_integer_mv
    &&& b.film_grain_params_present == a.film_grain_params_present
    &&& b.max_frame_width == a.max_frame_width
    &&& b.max_frame_height == a.max_frame_height
    &&& b.bit_depth == a.bit_depth
    &&& b.mono_chrome == a.mono_chrome
    &&& b.seq_level_idx == a.seq_level_idx
    &&& b.seq_tier == a.seq_tier
    &&& b.subsample_x == a.subsample_x
    &&& b.subsample_y == a.subsample_y
    &&& b.chroma_sample_position == a.chroma_sample_position
    &&& b.initial_display_delay_present == a.initial_display_delay_present
    &&& b.frame_width_bits_minus_1 == a.frame_width_bits_minus_1
    &&& b.frame_height_bits_minus_1 == a.frame_height_bits_minus_1
    &&& b.delta_frame_id_length_minus_2 == a.delta_frame_id_length_minus_2
    &&& b.additional_frame_id_length_minus_1 == a.additional_frame_id_length_minus_1
    &&& same_tools(a, b)
}

/// Whether two headers allow the same coding tools and colours.
pub open spec fn same_tools(a: SequenceHeader, b: SequenceHeader) -> bool {
    &&& b.enable_filter_intra == a.enable_filter_intra
    &&& b.enable_intra_edge_filter == a.enable_intra_edge_filter
    &&& b.enable_interintra_compound == a.enable_interintra_compound
    &&& b.enable_masked_compound == a.enable_masked_compound
    &&& b.enable_warped_motion == a.enable_warped_motion
    &&& b.enable_dual_filter == a.enable_dual_filter
    &&& b.enable_jnt_comp == a.enable_jnt_comp
    &&& b.enable_ref_frame_mvs == a.enable_ref_frame_mvs
    &&& b.seq_choose_screen_content_tools == a.seq_choose_screen_content_tools
    &&& b.seq_choose_integer_mv == a.seq_choose_integer_mv
    &&& b.enable_superres == a.enable_superres
    &&& b.enable_cdef == a.enable_cdef
    &&& b.enable_restoration == a.enable_restoration
    &&& b.high_bitdepth == a.high_bitdepth
    &&& b.twelve_bit == a.twelve_bit
    &&& b.color_description_present == a.color_description_present
    &&& b.color_primaries == a.color_primaries
    &&& b.transfer_characteristics == a.transfer_characteristics
    &&& b.matrix_coefficients == a.matrix_coefficients
    &&& b.color_range == a.color_range
    &&& b.separate_uv_delta_q == a.separate_uv_delta_q
}

/// Whether two headers say the same of display timing.
pub open spec fn same_timing(a: SequenceHeader, b: SequenceHeader) -> bool {
    &&& b.timing_info_present == a.timing_info_present
    &&& b.num_units_in_display_tick == a.num_units_in_display_tick
    &&& b.time_scale == a.time_scale
    &&& b.equal_picture_interval == a.equal_picture_interval
    &&& b.num_ticks_per_picture_minus_1 == a.num_ticks_per_picture_minus_1
}

/// Whether two headers say the same of the decoder model.
pub open spec fn same_model(a: SequenceHeader, b: SequenceHeader) -> bool {
    &&& b.decoder_model_info_present == a.decoder_model_info_present
    &&& b.buffer_delay_length_minus_1 == a.buffer_delay_length_minus_1
    &&& b.num_units_in_decoding_tick == a.num_units_in_decoding_tick
    &&& b.buffer_removal_time_length_minus_1 == a.buffer_removal_time_length_minus_1
    &&& b.frame_presentation_time_length_minus_1 == a.frame_presentation_time_length_minus_1
    &&& b.operating_points@ == a.operating_points@
}

/// Whether the header declares a picture every `den / num` seconds.
pub open spec fn shows_at(h: SequenceHeader, num: u32, den: u32) -> bool {
    &&& h.timing_info_present
    &&& h.equal_picture_interval
    &&& h.num_ticks_per_picture_minus_1 == 0
    &&& h.time_scale == num
    &&& h.num_units_in_display_tick == den
}

/// Whether the operating point `b` is `a` with a decoder model of about a second
/// of buffer.
pub open spec fn buffers(a: OperatingPoint, b: OperatingPoint) -> bool {
    &&& b.idc == a.idc
    &&& b.seq_level_idx == a.seq_level_idx
    &&& b.seq_tier == a.seq_tier
    &&& b.initial_display_delay_present == a.initial_display_delay_present
    &&& b.initial_display_delay_minus_1 == a.initial_display_delay_minus_1
    &&& b.decoder_model_present
    &&& b.decoder_buffer_delay == 90_000
    &&& b.encoder_buffer_delay == 90_000
    &&& !b.low_delay_mode
}

/// A rate of which no part is zero: a zero counts as one.
pub open spec fn rate_part(v: u32) -> u32 {
    if v == 0 {
        1
    } else {
        v
    }
}

/// An assembled stream declares the pictures that its input declares. Timing is
/// kept where the input declares it, and else is one picture every `fps_den /
/// fps` seconds. A decoder model is kept where the input declares one; else it
/// is declared where it is asked for, with delays of 32 bits that tick `fps`
/// times a second, removal times of 16 and presentation times of 24 bits.
pub proof fn assembled_streams_declare_their_rate<'a>(
    segments: Seq<Segment<'a>>,
    p: AssembleParams,
    out: AssembleOutput,
    input: SequenceHeader,
)
    requires
        assemble::assembled(assemble::segment_views(segments), p) == Ok::<
            Assembled,
            AssembleError,
        >(out@),
        playlist::leads_with(segments[0].key_tu@, input@),
    ensures
        ({
            let h = out.seq_header;
            &&& same_pictures(input, h)
            &&& if input.timing_info_present {
                same_timing(input, h)
            } else {
                shows_at(h, rate_part(p.fps), rate_part(p.fps_den))
            }
            &&& if input.decoder_model_info_present || !p.decoder_model {
                same_model(input, h)
            } else {
                &&& input.timing_info_present ==> input.equal_picture_interval
                &&& h.decoder_model_info_present
                &&& h.buffer_delay_length_minus_1 == 31
                &&& h.num_units_in_decoding_tick == rate_part(p.fps)
                &&& h.buffer_removal_time_length_minus_1 == 15
                &&& h.frame_presentation_time_length_minus_1 == 23
                &&& h.operating_points@.len() == input.operating_points@.len()
                &&& forall|i: int|
                    0 <= i < input.operating_points@.len() ==> buffers(
                        #[trigger] input.operating_points@[i],
                        h.operating_points@[i],
                    )
            }
        }),
{
    let all = assemble::segment_views(segments);
    assert(all[0] == segments[0]@);
    let obus = crate::obu::obus_of(all[0].key_tu)->Ok_0;
    let k = playlist::lemma_leads(obus);
    let (o, sh) = assemble::governing_header(all[0].key_tu)->Ok_0;
    assert(sh == input@);
    seq_header::parsed_header_re_emits(o.payload);
    let h = out.seq_header;
    let rewrite = assemble::rewritten_header(sh, p)->Ok_0;
    let num = assemble::at_least_one(p.fps);
    let den = assemble::at_least_one(p.fps_den);
    assert(h@ == match rewrite {
        Some(sh2) => sh2,
        None => sh,
    });
    assert(h@.points == h.operating_points@ && input@.points == input.operating_points@);
    assert(h.timing() == h@.timing && input.timing() == input@.timing);
    assert(h.size() == input.size() && h.ids() == input.ids() && h.tools() == input.tools());
    assert(h.depth() == input.depth() && h.desc() == input.desc() && h.chroma() == input.chroma());
    assert(h@.seq_profile == sh.seq_profile && h@.film_grain == sh.film_grain);
}

} // verus!
