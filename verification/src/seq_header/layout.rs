//! Where the fields of a sequence header stand in its payload.

use vstd::prelude::*;

use crate::bitio;
use crate::error::Error;
use crate::fields::{self, flag, spelled, Field};
use crate::seq_header::color;
use crate::seq_header::frame;
use crate::seq_header::points;
use crate::seq_header::timing;
use crate::seq_header::tools;
use crate::seq_header::{self, Header, OperatingPoint, SequenceHeader};

verus! {

/// The fields of display timing, and behind them those of the decoder model.
pub open spec fn timing_fields(t: Seq<Field>, r: SequenceHeader) -> Seq<Field> {
    let t = t.push(flag(r.timing_info_present));
    if !r.timing_info_present {
        t
    } else {
        let t = t.push((32, r.num_units_in_display_tick as nat)).push((32, r.time_scale as nat));
        let t = t.push(flag(r.equal_picture_interval));
        let t = if r.equal_picture_interval {
            t.push(fields::uvlc(r.num_ticks_per_picture_minus_1 as nat))
        } else {
            t
        };
        let t = t.push(flag(r.decoder_model_info_present));
        if !r.decoder_model_info_present {
            t
        } else {
            let t = t.push((5, r.buffer_delay_length_minus_1 as nat));
            let t = t.push((32, r.num_units_in_decoding_tick as nat));
            let t = t.push((5, r.buffer_removal_time_length_minus_1 as nat));
            t.push((5, r.frame_presentation_time_length_minus_1 as nat))
        }
    }
}

/// The fields of an operating point.
pub open spec fn point_fields(t: Seq<Field>, r: SequenceHeader, op: OperatingPoint) -> Seq<Field> {
    let t = t.push((12, op.idc as nat)).push((5, op.seq_level_idx as nat));
    let t = if op.seq_level_idx > 7 {
        t.push(flag(op.seq_tier))
    } else {
        t
    };
    let t = if r.decoder_model_info_present {
        let t = t.push(flag(op.decoder_model_present));
        if op.decoder_model_present {
            let n = (r.buffer_delay_length_minus_1 + 1) as nat;
            let t = t.push((n, op.decoder_buffer_delay as nat));
            let t = t.push((n, op.encoder_buffer_delay as nat));
            t.push(flag(op.low_delay_mode))
        } else {
            t
        }
    } else {
        t
    };
    if r.initial_display_delay_present {
        let t = t.push(flag(op.initial_display_delay_present));
        if op.initial_display_delay_present {
            t.push((4, op.initial_display_delay_minus_1 as nat))
        } else {
            t
        }
    } else {
        t
    }
}

/// The fields of the first `n` operating points.
pub open spec fn points_fields(t: Seq<Field>, r: SequenceHeader, n: nat) -> Seq<Field>
    decreases n,
{
    if n == 0 {
        t
    } else {
        point_fields(points_fields(t, r, (n - 1) as nat), r, r.operating_points@[n - 1])
    }
}

/// The fields of the frame size limits and the frame ids.
pub open spec fn frame_fields(t: Seq<Field>, r: SequenceHeader) -> Seq<Field> {
    let t = t.push((4, r.frame_width_bits_minus_1 as nat));
    let t = t.push((4, r.frame_height_bits_minus_1 as nat));
    let t = t.push(((r.frame_width_bits_minus_1 + 1) as nat, (r.max_frame_width - 1) as nat));
    let t = t.push(((r.frame_height_bits_minus_1 + 1) as nat, (r.max_frame_height - 1) as nat));
    if r.reduced_still_picture_header {
        t
    } else {
        let t = t.push(flag(r.frame_id_numbers_present));
        if r.frame_id_numbers_present {
            t.push((4, r.delta_frame_id_length_minus_2 as nat)).push(
                (3, r.additional_frame_id_length_minus_1 as nat),
            )
        } else {
            t
        }
    }
}

/// The fields of the tools that only inter pictures have.
pub open spec fn inter_fields(t: Seq<Field>, r: SequenceHeader) -> Seq<Field> {
    let t = t.push(flag(r.enable_interintra_compound));
    let t = t.push(flag(r.enable_masked_compound));
    let t = t.push(flag(r.enable_warped_motion));
    let t = t.push(flag(r.enable_dual_filter));
    let t = t.push(flag(r.enable_order_hint));
    let t = if r.enable_order_hint {
        t.push(flag(r.enable_jnt_comp)).push(flag(r.enable_ref_frame_mvs))
    } else {
        t
    };
    let t = t.push(flag(r.seq_choose_screen_content_tools));
    let t = if r.seq_choose_screen_content_tools {
        t
    } else {
        t.push((1, r.seq_force_screen_content_tools as nat))
    };
    let t = if r.seq_force_screen_content_tools == 0 {
        t
    } else {
        let t = t.push(flag(r.seq_choose_integer_mv));
        if r.seq_choose_integer_mv {
            t
        } else {
            t.push((1, r.seq_force_integer_mv as nat))
        }
    };
    if r.enable_order_hint {
        t.push((3, (r.order_hint_bits - 1) as nat))
    } else {
        t
    }
}

/// The fields of the coding tools.
pub open spec fn tools_fields(t: Seq<Field>, r: SequenceHeader) -> Seq<Field> {
    let t = t.push(flag(r.use_128x128_superblock));
    let t = t.push(flag(r.enable_filter_intra));
    let t = t.push(flag(r.enable_intra_edge_filter));
    let t = if r.reduced_still_picture_header {
        t
    } else {
        inter_fields(t, r)
    };
    let t = t.push(flag(r.enable_superres));
    let t = t.push(flag(r.enable_cdef));
    t.push(flag(r.enable_restoration))
}

/// color_range as it is written.
pub open spec fn range(r: SequenceHeader) -> bool {
    r.color_range == Some(true)
}

/// The fields of the bit depth.
pub open spec fn depth_fields(t: Seq<Field>, r: SequenceHeader) -> Seq<Field> {
    let t = t.push(flag(r.high_bitdepth));
    let t = if r.seq_profile == 2 && r.high_bitdepth {
        t.push(flag(r.twelve_bit))
    } else {
        t
    };
    if r.seq_profile == 1 {
        t
    } else {
        t.push(flag(r.mono_chrome))
    }
}

/// The fields of the colours.
pub open spec fn description_fields(t: Seq<Field>, r: SequenceHeader) -> Seq<Field> {
    let t = t.push(flag(r.color_description_present));
    if r.color_description_present {
        t.push((8, r.color_primaries as nat)).push((8, r.transfer_characteristics as nat)).push(
            (8, r.matrix_coefficients as nat),
        )
    } else {
        t
    }
}

/// The fields of the sample range and the chroma format.
pub open spec fn chroma_fields(t: Seq<Field>, r: SequenceHeader) -> Seq<Field> {
    let t = if r.mono_chrome {
        t.push(flag(range(r)))
    } else if r.color_primaries == 1 && r.transfer_characteristics == 13 && r.matrix_coefficients
        == 0 {
        t
    } else {
        let t = t.push(flag(range(r)));
        let t = if r.seq_profile == 2 && r.bit_depth == 12 {
            let t = t.push(flag(r.subsample_x));
            if r.subsample_x {
                t.push(flag(r.subsample_y))
            } else {
                t
            }
        } else {
            t
        };
        if r.subsample_x && r.subsample_y {
            t.push((2, r.chroma_sample_position as nat))
        } else {
            t
        }
    };
    t.push(flag(r.separate_uv_delta_q))
}

/// All fields of the header, in order.
pub open spec fn header_fields(r: SequenceHeader) -> Seq<Field> {
    let t = Seq::<Field>::empty().push((3, r.seq_profile as nat));
    let t = t.push(flag(r.still_picture)).push(flag(r.reduced_still_picture_header));
    let t = if r.reduced_still_picture_header {
        t.push((5, r.seq_level_idx as nat))
    } else {
        let t = timing_fields(t, r);
        let t = t.push(flag(r.initial_display_delay_present));
        let n = r.operating_points@.len();
        points_fields(t.push((5, (n - 1) as nat)), r, n)
    };
    let t = frame_fields(t, r);
    let t = tools_fields(t, r);
    let t = chroma_fields(description_fields(depth_fields(t, r), r), r);
    t.push(flag(r.film_grain_params_present))
}

proof fn lemma_timing(t: Seq<Field>, r: SequenceHeader)
    ensures
        timing::timing_bits(spelled(t), r.timing()) == spelled(timing_fields(t, r)),
{
    broadcast use fields::group_spelled;

    reveal(timing::timing_bits);
    reveal(timing::decoder_model_bits);
}

proof fn lemma_point(t: Seq<Field>, r: SequenceHeader, op: OperatingPoint)
    ensures
        points::point_bits(spelled(t), r@.point_syntax(), op) == spelled(point_fields(t, r, op)),
{
    broadcast use fields::group_spelled;

    reveal(points::point_bits);
}

proof fn lemma_points(t: Seq<Field>, r: SequenceHeader, n: nat)
    requires
        n <= r.operating_points@.len(),
    ensures
        points::points_bits(spelled(t), r@.point_syntax(), r.operating_points@.take(n as int))
            == spelled(points_fields(t, r, n)),
    decreases n,
{
    let ops = r.operating_points@.take(n as int);
    if n > 0 {
        lemma_points(t, r, (n - 1) as nat);
        assert(ops.drop_last() =~= r.operating_points@.take(n - 1));
        lemma_point(points_fields(t, r, (n - 1) as nat), r, ops.last());
    }
}

proof fn lemma_frame(t: Seq<Field>, r: SequenceHeader)
    ensures
        frame::frame_ids_bits(
            frame::frame_size_bits(spelled(t), r.size()),
            r.reduced_still_picture_header,
            r.ids(),
        ) == spelled(frame_fields(t, r)),
{
    broadcast use fields::group_spelled;

    reveal(frame::frame_size_bits);
    reveal(frame::frame_ids_bits);
}

proof fn lemma_inter(t: Seq<Field>, r: SequenceHeader)
    ensures
        tools::inter_tools_bits(spelled(t), r.tools().inter) == spelled(inter_fields(t, r)),
{
    broadcast use fields::group_spelled;

    reveal(tools::inter_tools_bits);
    reveal(tools::screen_tools_bits);
}

proof fn lemma_tools(t: Seq<Field>, r: SequenceHeader)
    ensures
        tools::tools_bits(spelled(t), r.reduced_still_picture_header, r.tools()) == spelled(
            tools_fields(t, r),
        ),
{
    broadcast use fields::group_spelled;

    reveal(tools::tools_bits);
    let t1 = t.push(flag(r.use_128x128_superblock)).push(flag(r.enable_filter_intra)).push(
        flag(r.enable_intra_edge_filter),
    );
    lemma_inter(t1, r);
}

proof fn lemma_depth(t: Seq<Field>, r: SequenceHeader)
    ensures
        color::depth_bits(spelled(t), r.seq_profile, r.depth()) == spelled(depth_fields(t, r)),
{
    broadcast use fields::group_spelled;

    reveal(color::depth_bits);
}

proof fn lemma_description(t: Seq<Field>, r: SequenceHeader)
    ensures
        color::description_bits(spelled(t), r.desc()) == spelled(description_fields(t, r)),
{
    broadcast use fields::group_spelled;

    reveal(color::description_bits);
}

proof fn lemma_chroma(t: Seq<Field>, r: SequenceHeader)
    ensures
        color::chroma_bits(spelled(t), r.seq_profile, r.depth(), r.desc(), r.chroma()) == spelled(
            chroma_fields(t, r),
        ),
{
    broadcast use fields::group_spelled;

    reveal(color::chroma_bits);
    assert(color::coded_range(r.color_range) == range(r));
}

proof fn lemma_header(r: SequenceHeader)
    ensures
        seq_header::header_bits(r@) == spelled(header_fields(r)),
{
    broadcast use fields::group_spelled;

    reveal(seq_header::header_bits);
    reveal(seq_header::front_bits);
    let t = Seq::<Field>::empty().push((3, r.seq_profile as nat));
    assert(spelled(Seq::<Field>::empty()) =~= Seq::<bool>::empty());
    let t = t.push(flag(r.still_picture)).push(flag(r.reduced_still_picture_header));
    let n = r.operating_points@.len();
    if !r.reduced_still_picture_header {
        lemma_timing(t, r);
        let t = timing_fields(t, r).push(flag(r.initial_display_delay_present)).push(
            (5, (n - 1) as nat),
        );
        lemma_points(t, r, n);
        assert(r.operating_points@.take(n as int) =~= r.operating_points@);
    }
    let t = if r.reduced_still_picture_header {
        t.push((5, r.seq_level_idx as nat))
    } else {
        let t = timing_fields(t, r).push(flag(r.initial_display_delay_present));
        points_fields(t.push((5, (n - 1) as nat)), r, n)
    };
    lemma_frame(t, r);
    let t = frame_fields(t, r);
    lemma_tools(t, r);
    let t = tools_fields(t, r);
    lemma_depth(t, r);
    let t = depth_fields(t, r);
    lemma_description(t, r);
    let t = description_fields(t, r);
    lemma_chroma(t, r);
}

/// What a header says of itself beyond what stands in it: the fields that the
/// syntax leaves out have the values that it implies.
pub open spec fn complete(r: SequenceHeader) -> bool {
    let first = r.operating_points@[0];
    &&& r.seq_profile <= 2
    &&& 1 <= r.operating_points@.len() <= 32
    &&& r.seq_level_idx == first.seq_level_idx
    &&& r.seq_tier == 1 <==> first.seq_tier
    &&& r.seq_tier == 0 <==> !first.seq_tier
    &&& r.bit_depth == if !r.high_bitdepth {
        8int
    } else if r.twelve_bit {
        12
    } else {
        10
    }
    &&& r.twelve_bit ==> r.seq_profile == 2 && r.high_bitdepth
    &&& r.frame_id_numbers_present ==> r.id_len == r.additional_frame_id_length_minus_1
        + r.delta_frame_id_length_minus_2 + 3
    &&& !r.enable_order_hint ==> r.order_hint_bits == 0 && !r.enable_jnt_comp
        && !r.enable_ref_frame_mvs
    &&& r.reduced_still_picture_header || r.seq_choose_screen_content_tools
        ==> r.seq_force_screen_content_tools == 2
    &&& r.reduced_still_picture_header || r.seq_choose_integer_mv
        || r.seq_force_screen_content_tools == 0 ==> r.seq_force_integer_mv == 2
    &&& r.reduced_still_picture_header ==> !r.timing_info_present && !r.frame_id_numbers_present
        && !r.enable_order_hint && r.operating_points@.len() == 1
    &&& !r.timing_info_present ==> !r.decoder_model_info_present && !r.equal_picture_interval
    &&& r.seq_profile == 1 ==> !r.mono_chrome
    &&& !r.color_description_present ==> r.color_primaries == 2 && r.transfer_characteristics == 2
        && r.matrix_coefficients == 2
    &&& complete_chroma(r)
}

/// The chroma format: none without chroma and 4:4:4 where the colours imply it;
/// else 4:2:0 in profile 0, 4:4:4 in profile 1, and 4:2:2 in profile 2 where it
/// is not written.
pub open spec fn complete_chroma(r: SequenceHeader) -> bool {
    let implied = r.color_primaries == 1 && r.transfer_characteristics == 13
        && r.matrix_coefficients == 0;
    &&& r.color_range is None <==> !r.mono_chrome && implied
    &&& r.mono_chrome || implied || r.seq_profile == 1 ==> !r.subsample_x && !r.subsample_y
    &&& !r.mono_chrome && !implied && r.seq_profile == 0 ==> r.subsample_x && r.subsample_y
    &&& !r.mono_chrome && !implied && r.seq_profile == 2 && r.bit_depth != 12 ==> r.subsample_x
        && !r.subsample_y
    &&& r.subsample_y ==> r.subsample_x
}

proof fn lemma_complete(r: SequenceHeader)
    requires
        r@.canonical(),
    ensures
        complete(r),
{
    let z = r@;
    assert(z.points == r.operating_points@);
    assert(z.timing == r.timing() && z.ids == r.ids() && z.tools == r.tools());
    assert(z.depth == r.depth() && z.desc == r.desc() && z.chroma == r.chroma());
    assert(z.timing.canonical() && z.depth.canonical(z.seq_profile) && z.desc.canonical());
    assert(z.chroma.canonical(z.seq_profile, z.depth, z.desc));
    assert(z.ids.canonical(z.reduced));
    if z.reduced {
        assert(z.tools.inter == tools::InterTools::absent());
        assert(z.tools.inter.screen == tools::ScreenTools::absent());
    } else {
        assert(z.tools.inter.canonical() && z.tools.inter.screen.canonical());
    }
}

/// A payload that parses starts with the fields of the parsed header, in order,
/// each with its most significant bit first; and what the syntax leaves out has
/// the value that it implies.
pub proof fn parsed_fields_stand_in_order(payload: Seq<u8>, r: SequenceHeader)
    requires
        seq_header::header_of(payload) == Ok::<Header, Error>(r@),
    ensures
        fields::lead(payload, header_fields(r)),
        complete(r),
{
    seq_header::parsed_header_re_emits(payload);
    lemma_header(r);
    fields::lemma_lead(payload, header_fields(r));
    lemma_complete(r);
}

/// An emitted header is its fields in order, each with its most significant bit
/// first, then a one bit and zero bits up to the end of the byte.
pub proof fn emitted_fields_stand_in_order(r: SequenceHeader)
    ensures
        ({
            let n = fields::width(header_fields(r));
            let bytes = seq_header::header_bytes(r@);
            &&& fields::lead(bytes, header_fields(r))
            &&& bytes.len() == n / 8 + 1
            &&& fields::bit(bytes, n as int)
            &&& forall|i: int| n < i < 8 * bytes.len() ==> !#[trigger] fields::bit(bytes, i)
        }),
{
    let t = header_fields(r);
    lemma_header(r);
    fields::lemma_width(t);
    let n = fields::width(t);
    let bytes = seq_header::header_bytes(r@);
    let all = bitio::with_trailing_bits(spelled(t));
    bitio::lemma_bits_of_pack(all);
    assert(bitio::aligned(all) =~= all);
    assert(bitio::bits_of(bytes) == all);
    assert(all.take(n as int) =~= spelled(t));
    fields::lemma_lead(bytes, t);
    assert(all.len() == 8 * bytes.len());
    fields::lemma_bit(bytes, n as int);
    assert forall|i: int| n < i < 8 * bytes.len() implies !#[trigger] fields::bit(bytes, i) by {
        fields::lemma_bit(bytes, i);
    }
}

} // verus!
