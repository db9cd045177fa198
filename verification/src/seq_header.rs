//! Sequence header OBU parser + emitter (AV1 spec 5.5).
//!
//! The parser stores every field needed to re-emit the header bit-exactly,
//! so the assembler can rebuild the sequence header with additional sections
//! (timing_info, decoder_model_info) while leaving the rest untouched.

use vstd::prelude::*;
use vstd::arithmetic::power2::*;

use crate::bitio::{self, BitReader, BitWriter, Cur};
use crate::error::Error;
use crate::model;
use color::{Chroma, ColorDescription, Depth};
use frame::{FrameIds, FrameSize};
use points::PointSyntax;
use timing::{DecoderModel, Timing};
use tools::{InterTools, ScreenTools, Tools};

pub mod color;
pub mod frame;
pub mod layout;
pub mod points;
mod size;
pub mod timing;
pub mod tools;

verus! {

pub const SELECT_SCREEN_CONTENT_TOOLS: u8 = 2;

pub const SELECT_INTEGER_MV: u8 = 2;

/// One operating point entry (operating_point_idc + level + optional
/// decoder-model and initial-display-delay sub-fields).
#[derive(Debug, Clone, Copy, PartialEq, Eq, Structural)]
pub struct OperatingPoint {
    pub idc: u16,
    pub seq_level_idx: u8,
    pub seq_tier: bool,
    pub decoder_model_present: bool,
    pub decoder_buffer_delay: u64,
    pub encoder_buffer_delay: u64,
    pub low_delay_mode: bool,
    pub initial_display_delay_present: bool,
    pub initial_display_delay_minus_1: u8,
}

impl OperatingPoint {
    /// The entry with every field zero.
    pub open spec fn zero() -> OperatingPoint {
        OperatingPoint {
            idc: 0,
            seq_level_idx: 0,
            seq_tier: false,
            decoder_model_present: false,
            decoder_buffer_delay: 0,
            encoder_buffer_delay: 0,
            low_delay_mode: false,
            initial_display_delay_present: false,
            initial_display_delay_minus_1: 0,
        }
    }
}

impl Default for OperatingPoint {
    fn default() -> (r: Self)
        ensures
            r == OperatingPoint::zero(),
    {
        OperatingPoint {
            idc: 0,
            seq_level_idx: 0,
            seq_tier: false,
            decoder_model_present: false,
            decoder_buffer_delay: 0,
            encoder_buffer_delay: 0,
            low_delay_mode: false,
            initial_display_delay_present: false,
            initial_display_delay_minus_1: 0,
        }
    }
}

#[derive(Debug)]
pub struct SequenceHeader {
    pub seq_profile: u8,
    pub still_picture: bool,
    pub reduced_still_picture_header: bool,
    pub timing_info_present: bool,
    pub equal_picture_interval: bool,
    pub decoder_model_info_present: bool,
    pub frame_id_numbers_present: bool,
    /// idLen when frame_id_numbers_present (bits for current/display_frame_id).
    pub id_len: usize,
    pub use_128x128_superblock: bool,
    pub enable_order_hint: bool,
    pub order_hint_bits: usize,
    pub seq_force_screen_content_tools: u8,
    pub seq_force_integer_mv: u8,
    pub film_grain_params_present: bool,
    pub max_frame_width: u32,
    pub max_frame_height: u32,
    pub bit_depth: u8,
    pub mono_chrome: bool,
    // --- needed to build the av1C record for mp4 muxing ---
    pub seq_level_idx: u8,
    pub seq_tier: u8,
    pub subsample_x: bool,
    pub subsample_y: bool,
    pub chroma_sample_position: u8,
    // --- stored verbatim for bit-exact re-emission ---
    pub num_units_in_display_tick: u32,
    pub time_scale: u32,
    pub num_ticks_per_picture_minus_1: u64,
    pub buffer_delay_length_minus_1: u8,
    pub num_units_in_decoding_tick: u32,
    pub buffer_removal_time_length_minus_1: u8,
    pub frame_presentation_time_length_minus_1: u8,
    pub initial_display_delay_present: bool,
    pub operating_points: Vec<OperatingPoint>,
    pub frame_width_bits_minus_1: u8,
    pub frame_height_bits_minus_1: u8,
    pub delta_frame_id_length_minus_2: u8,
    pub additional_frame_id_length_minus_1: u8,
    pub enable_filter_intra: bool,
    pub enable_intra_edge_filter: bool,
    pub enable_interintra_compound: bool,
    pub enable_masked_compound: bool,
    pub enable_warped_motion: bool,
    pub enable_dual_filter: bool,
    pub enable_jnt_comp: bool,
    pub enable_ref_frame_mvs: bool,
    pub seq_choose_screen_content_tools: bool,
    pub seq_choose_integer_mv: bool,
    pub enable_superres: bool,
    pub enable_cdef: bool,
    pub enable_restoration: bool,
    pub high_bitdepth: bool,
    /// profile2-only: selects 12-bit when high_bitdepth is set.
    pub twelve_bit: bool,
    pub color_description_present: bool,
    pub color_primaries: u8,
    pub transfer_characteristics: u8,
    pub matrix_coefficients: u8,
    /// `None` when the syntax implies full range (BT709+sRGB+identity).
    pub color_range: Option<bool>,
    pub separate_uv_delta_q: bool,
}

impl Clone for SequenceHeader {
    fn clone(&self) -> (r: Self)
        ensures
            r@ == self@,
    {
        let points = self.operating_points.clone();
        assert(points@ =~= self.operating_points@);
        self.rebuilt(self.timing_fields(), points)
    }
}

impl Sections<Seq<OperatingPoint>> {
    /// The header before anything was read.
    pub open spec fn blank() -> Sections<Seq<OperatingPoint>> {
        Sections {
            seq_profile: 0,
            still_picture: false,
            reduced: false,
            timing: Timing::absent(),
            initial_display_delay_present: false,
            points: Seq::empty(),
            seq_level_idx: 0,
            seq_tier: 0,
            size: FrameSize {
                frame_width_bits_minus_1: 0,
                frame_height_bits_minus_1: 0,
                max_frame_width: 0,
                max_frame_height: 0,
            },
            ids: FrameIds::absent(),
            tools: Tools {
                use_128x128_superblock: false,
                enable_filter_intra: false,
                enable_intra_edge_filter: false,
                inter: InterTools::absent(),
                enable_superres: false,
                enable_cdef: false,
                enable_restoration: false,
            },
            depth: Depth {
                high_bitdepth: false,
                twelve_bit: false,
                bit_depth: 8,
                mono_chrome: false,
            },
            desc: ColorDescription::absent(),
            chroma: Chroma {
                color_range: None,
                subsample_x: false,
                subsample_y: false,
                chroma_sample_position: 0,
                separate_uv_delta_q: false,
            },
            film_grain: false,
        }
    }
}

impl Default for SequenceHeader {
    fn default() -> (r: Self)
        ensures
            r@ == Sections::<Seq<OperatingPoint>>::blank(),
    {
        let r = SequenceHeader {
            seq_profile: 0,
            still_picture: false,
            reduced_still_picture_header: false,
            timing_info_present: false,
            equal_picture_interval: false,
            decoder_model_info_present: false,
            frame_id_numbers_present: false,
            id_len: 0,
            use_128x128_superblock: false,
            enable_order_hint: false,
            order_hint_bits: 0,
            seq_force_screen_content_tools: SELECT_SCREEN_CONTENT_TOOLS,
            seq_force_integer_mv: SELECT_INTEGER_MV,
            film_grain_params_present: false,
            max_frame_width: 0,
            max_frame_height: 0,
            bit_depth: 8,
            mono_chrome: false,
            seq_level_idx: 0,
            seq_tier: 0,
            subsample_x: false,
            subsample_y: false,
            chroma_sample_position: 0,
            num_units_in_display_tick: 0,
            time_scale: 0,
            num_ticks_per_picture_minus_1: 0,
            buffer_delay_length_minus_1: 0,
            num_units_in_decoding_tick: 0,
            buffer_removal_time_length_minus_1: 0,
            frame_presentation_time_length_minus_1: 0,
            initial_display_delay_present: false,
            operating_points: Vec::new(),
            frame_width_bits_minus_1: 0,
            frame_height_bits_minus_1: 0,
            delta_frame_id_length_minus_2: 0,
            additional_frame_id_length_minus_1: 0,
            enable_filter_intra: false,
            enable_intra_edge_filter: false,
            enable_interintra_compound: false,
            enable_masked_compound: false,
            enable_warped_motion: false,
            enable_dual_filter: false,
            enable_jnt_comp: false,
            enable_ref_frame_mvs: false,
            seq_choose_screen_content_tools: false,
            seq_choose_integer_mv: false,
            enable_superres: false,
            enable_cdef: false,
            enable_restoration: false,
            high_bitdepth: false,
            twelve_bit: false,
            color_description_present: false,
            color_primaries: 2,
            transfer_characteristics: 2,
            matrix_coefficients: 2,
            color_range: None,
            separate_uv_delta_q: false,
        };
        assert(r.operating_points@ =~= Seq::empty());
        r
    }
}

/// A sequence header by the sections of its syntax.
/// `Sections<Seq<OperatingPoint>>` is the view of a `SequenceHeader`.
pub struct Sections<O = Vec<OperatingPoint>> {
    pub seq_profile: u8,
    pub still_picture: bool,
    pub reduced: bool,
    pub timing: Timing,
    pub initial_display_delay_present: bool,
    pub points: O,
    /// The level of the first operating point.
    pub seq_level_idx: u8,
    /// The tier of the first operating point.
    pub seq_tier: u8,
    pub size: FrameSize,
    pub ids: FrameIds,
    pub tools: Tools,
    pub depth: Depth,
    pub desc: ColorDescription,
    pub chroma: Chroma,
    pub film_grain: bool,
}

/// The view of a parsed sequence header.
pub type Header = Sections<Seq<OperatingPoint>>;

impl View for Sections {
    type V = Sections<Seq<OperatingPoint>>;

    open spec fn view(&self) -> Sections<Seq<OperatingPoint>> {
        Sections {
            seq_profile: self.seq_profile,
            still_picture: self.still_picture,
            reduced: self.reduced,
            timing: self.timing,
            initial_display_delay_present: self.initial_display_delay_present,
            points: self.points@,
            seq_level_idx: self.seq_level_idx,
            seq_tier: self.seq_tier,
            size: self.size,
            ids: self.ids,
            tools: self.tools,
            depth: self.depth,
            desc: self.desc,
            chroma: self.chroma,
            film_grain: self.film_grain,
        }
    }
}

impl View for SequenceHeader {
    type V = Sections<Seq<OperatingPoint>>;

    open spec fn view(&self) -> Sections<Seq<OperatingPoint>> {
        Sections {
            seq_profile: self.seq_profile,
            still_picture: self.still_picture,
            reduced: self.reduced_still_picture_header,
            timing: self.timing(),
            initial_display_delay_present: self.initial_display_delay_present,
            points: self.operating_points@,
            seq_level_idx: self.seq_level_idx,
            seq_tier: self.seq_tier,
            size: self.size(),
            ids: self.ids(),
            tools: self.tools(),
            depth: self.depth(),
            desc: self.desc(),
            chroma: self.chroma(),
            film_grain: self.film_grain_params_present,
        }
    }
}

impl SequenceHeader {
    pub open spec fn timing(self) -> Timing {
        Timing {
            present: self.timing_info_present,
            num_units_in_display_tick: self.num_units_in_display_tick,
            time_scale: self.time_scale,
            equal_picture_interval: self.equal_picture_interval,
            num_ticks_per_picture_minus_1: self.num_ticks_per_picture_minus_1,
            model: DecoderModel {
                present: self.decoder_model_info_present,
                buffer_delay_length_minus_1: self.buffer_delay_length_minus_1,
                num_units_in_decoding_tick: self.num_units_in_decoding_tick,
                buffer_removal_time_length_minus_1: self.buffer_removal_time_length_minus_1,
                frame_presentation_time_length_minus_1: self.frame_presentation_time_length_minus_1,
            },
        }
    }

    pub open spec fn size(self) -> FrameSize {
        FrameSize {
            frame_width_bits_minus_1: self.frame_width_bits_minus_1,
            frame_height_bits_minus_1: self.frame_height_bits_minus_1,
            max_frame_width: self.max_frame_width,
            max_frame_height: self.max_frame_height,
        }
    }

    pub open spec fn ids(self) -> FrameIds {
        FrameIds {
            present: self.frame_id_numbers_present,
            delta_frame_id_length_minus_2: self.delta_frame_id_length_minus_2,
            additional_frame_id_length_minus_1: self.additional_frame_id_length_minus_1,
            id_len: self.id_len,
        }
    }

    pub open spec fn tools(self) -> Tools {
        Tools {
            use_128x128_superblock: self.use_128x128_superblock,
            enable_filter_intra: self.enable_filter_intra,
            enable_intra_edge_filter: self.enable_intra_edge_filter,
            inter: InterTools {
                enable_interintra_compound: self.enable_interintra_compound,
                enable_masked_compound: self.enable_masked_compound,
                enable_warped_motion: self.enable_warped_motion,
                enable_dual_filter: self.enable_dual_filter,
                enable_order_hint: self.enable_order_hint,
                enable_jnt_comp: self.enable_jnt_comp,
                enable_ref_frame_mvs: self.enable_ref_frame_mvs,
                screen: ScreenTools {
                    seq_choose_screen_content_tools: self.seq_choose_screen_content_tools,
                    seq_force_screen_content_tools: self.seq_force_screen_content_tools,
                    seq_choose_integer_mv: self.seq_choose_integer_mv,
                    seq_force_integer_mv: self.seq_force_integer_mv,
                },
                order_hint_bits: self.order_hint_bits,
            },
            enable_superres: self.enable_superres,
            enable_cdef: self.enable_cdef,
            enable_restoration: self.enable_restoration,
        }
    }

    pub open spec fn depth(self) -> Depth {
        Depth {
            high_bitdepth: self.high_bitdepth,
            twelve_bit: self.twelve_bit,
            bit_depth: self.bit_depth,
            mono_chrome: self.mono_chrome,
        }
    }

    pub open spec fn desc(self) -> ColorDescription {
        ColorDescription {
            present: self.color_description_present,
            color_primaries: self.color_primaries,
            transfer_characteristics: self.transfer_characteristics,
            matrix_coefficients: self.matrix_coefficients,
        }
    }

    pub open spec fn chroma(self) -> Chroma {
        Chroma {
            color_range: self.color_range,
            subsample_x: self.subsample_x,
            subsample_y: self.subsample_y,
            chroma_sample_position: self.chroma_sample_position,
            separate_uv_delta_q: self.separate_uv_delta_q,
        }
    }
}

impl Sections<Seq<OperatingPoint>> {
    /// Which parts the operating point entries have.
    pub open spec fn point_syntax(self) -> PointSyntax {
        PointSyntax {
            decoder_model_info_present: self.timing.model.present,
            buffer_delay_length_minus_1: self.timing.model.buffer_delay_length_minus_1,
            initial_display_delay_present: self.initial_display_delay_present,
        }
    }

    /// Whether some payload parses to this header: each field holds what the
    /// syntax can code, or what it implies where it leaves the field out.
    pub open spec fn canonical(self) -> bool {
        &&& self.seq_profile <= 2
        &&& self.timing.canonical()
        &&& 1 <= self.points.len() <= 32
        &&& forall|i: int|
            0 <= i < self.points.len() ==> (#[trigger] self.points[i]).canonical(
                self.point_syntax(),
            )
        &&& self.seq_level_idx == self.points[0].seq_level_idx
        &&& self.seq_tier == if self.points[0].seq_tier {
            1int
        } else {
            0
        }
        &&& self.size.canonical()
        &&& self.ids.canonical(self.reduced)
        &&& self.depth.canonical(self.seq_profile)
        &&& self.desc.canonical()
        &&& self.chroma.canonical(self.seq_profile, self.depth, self.desc)
        &&& if self.reduced {
            &&& self.timing == Timing::absent()
            &&& !self.initial_display_delay_present
            &&& self.points == seq![reduced_point(self.points[0].seq_level_idx)]
            &&& self.tools.inter == InterTools::absent()
        } else {
            self.tools.inter.canonical()
        }
    }

    /// Whether the header can be written: what the syntax stores minus one is
    /// not zero, and no field is wider than 64 bits.
    pub open spec fn emittable(self) -> bool {
        &&& !self.reduced ==> {
            &&& self.points.len() > 0
            &&& points::delays_fit(self.point_syntax(), self.points)
            &&& self.timing.ticks_fit()
            &&& self.tools.inter.enable_order_hint ==> self.tools.inter.order_hint_bits > 0
        }
        &&& self.size.frame_width_bits_minus_1 < 64
        &&& self.size.frame_height_bits_minus_1 < 64
        &&& self.size.max_frame_width > 0
        &&& self.size.max_frame_height > 0
    }
}

/// The operating point of a reduced still picture header.
pub open spec fn reduced_point(level: u8) -> OperatingPoint {
    OperatingPoint { seq_level_idx: level, ..OperatingPoint::zero() }
}

/// What stands between the still picture flags and the frame size.
#[verifier::opaque]
pub open spec fn front_at(c: Cur, reduced: bool) -> ((Timing, bool, Seq<OperatingPoint>), Cur) {
    if reduced {
        let (level, c) = c.f(5);
        ((Timing::absent(), false, seq![reduced_point(level as u8)]), c)
    } else {
        let (timing, c) = timing::timing_at(c);
        let (delay, c) = c.flag();
        let (count, c) = c.f(5);
        let y = PointSyntax {
            decoder_model_info_present: timing.model.present,
            buffer_delay_length_minus_1: timing.model.buffer_delay_length_minus_1,
            initial_display_delay_present: delay,
        };
        let (points, c) = points::points_at(c, y, (count + 1) as nat);
        ((timing, delay, points), c)
    }
}

#[verifier::opaque]
pub open spec fn sections_at(c: Cur) -> (Sections<Seq<OperatingPoint>>, Cur) {
    let (profile, c) = c.f(3);
    let (still, c) = c.flag();
    let (reduced, c) = c.flag();
    let c = if profile > 2 {
        c.fail(Error::SeqProfile)
    } else {
        c
    };
    let ((timing, delay, points), c) = front_at(c, reduced);
    let (size, c) = frame::frame_size_at(c);
    let (ids, c) = frame::frame_ids_at(c, reduced);
    let (tools, c) = tools::tools_at(c, reduced);
    let (depth, c) = color::depth_at(c, profile as u8);
    let (desc, c) = color::description_at(c);
    let (chroma, c) = color::chroma_at(c, profile as u8, depth, desc);
    let (film_grain, c) = c.flag();
    (
        Sections {
            seq_profile: profile as u8,
            still_picture: still,
            reduced,
            timing,
            initial_display_delay_present: delay,
            points,
            seq_level_idx: points[0].seq_level_idx,
            seq_tier: if points[0].seq_tier {
                1
            } else {
                0
            },
            size,
            ids,
            tools,
            depth,
            desc,
            chroma,
            film_grain,
        },
        c,
    )
}

/// The header that `payload` starts with, or why there is none.
pub open spec fn header_of(payload: Seq<u8>) -> Result<Sections<Seq<OperatingPoint>>, Error> {
    bitio::outcome(sections_at(Cur::start(payload)))
}

#[verifier::opaque]
pub open spec fn front_bits(w: Seq<bool>, sh: Sections<Seq<OperatingPoint>>) -> Seq<bool> {
    if sh.reduced {
        w + bitio::be_bits(5, sh.seq_level_idx as nat)
    } else {
        let w = timing::timing_bits(w, sh.timing);
        let w = w.push(sh.initial_display_delay_present);
        let w = w + bitio::be_bits(5, (sh.points.len() - 1) as nat);
        points::points_bits(w, sh.point_syntax(), sh.points)
    }
}

/// The bits of the header, without the trailing bits.
#[verifier::opaque]
pub open spec fn header_bits(sh: Sections<Seq<OperatingPoint>>) -> Seq<bool> {
    let w = Seq::<bool>::empty() + bitio::be_bits(3, sh.seq_profile as nat);
    let w = w.push(sh.still_picture);
    let w = w.push(sh.reduced);
    let w = front_bits(w, sh);
    let w = frame::frame_size_bits(w, sh.size);
    let w = frame::frame_ids_bits(w, sh.reduced, sh.ids);
    let w = tools::tools_bits(w, sh.reduced, sh.tools);
    let w = color::depth_bits(w, sh.seq_profile, sh.depth);
    let w = color::description_bits(w, sh.desc);
    let w = color::chroma_bits(w, sh.seq_profile, sh.depth, sh.desc, sh.chroma);
    w.push(sh.film_grain)
}

/// The payload of a sequence header OBU.
pub open spec fn header_bytes(sh: Sections<Seq<OperatingPoint>>) -> Seq<u8> {
    bitio::pack(bitio::with_trailing_bits(header_bits(sh)))
}

broadcast proof fn points_sticky(c: Cur, y: PointSyntax, n: nat)
    requires
        c.err is Some,
    ensures
        (#[trigger] points::points_at(c, y, n)).1 == c,
    decreases n,
{
    if n > 0 {
        points_sticky(c, y, (n - 1) as nat);
        points::point_sticky(points::points_at(c, y, (n - 1) as nat).1, y);
    }
}

broadcast proof fn front_sticky(c: Cur, reduced: bool)
    requires
        c.err is Some,
    ensures
        (#[trigger] front_at(c, reduced)).1 == c,
{
    broadcast use {timing::timing_sticky, points_sticky};

    reveal(front_at);
}

broadcast proof fn front_starts(t: Seq<bool>, w: Seq<bool>, sh: Sections<Seq<OperatingPoint>>)
    requires
        #[trigger] bitio::starts(t, front_bits(w, sh)),
    ensures
        bitio::starts(t, w),
{
    broadcast use {bitio::group_starts, timing::timing_starts};

    reveal(front_bits);
    if !sh.reduced {
        let w1 = timing::timing_bits(w, sh.timing).push(sh.initial_display_delay_present)
            + bitio::be_bits(5, (sh.points.len() - 1) as nat);
        points::lemma_points_bits_starts(t, w1, sh.point_syntax(), sh.points);
    }
}

broadcast group group_sticky {
    front_sticky,
    frame::frame_size_sticky,
    frame::frame_ids_sticky,
    tools::tools_sticky,
    color::depth_sticky,
    color::description_sticky,
    color::chroma_sticky,
}

broadcast group group_section_starts {
    front_starts,
    frame::frame_size_starts,
    frame::frame_ids_starts,
    tools::tools_starts,
    color::depth_starts,
    color::description_starts,
    color::chroma_starts,
}

fn front(r: &mut BitReader, reduced: bool) -> (res: Result<
    (Timing, bool, Vec<OperatingPoint>),
    Error,
>)
    ensures
        match res {
            Ok((timing, delay, points)) => bitio::reads(
                final(r)@,
                Ok::<(Timing, bool, Seq<OperatingPoint>), Error>((timing, delay, points@)),
                front_at(old(r)@, reduced),
            ) && points@.len() > 0,
            Err(e) => front_at(old(r)@, reduced).1.err == Some(e),
        },
{
    broadcast use {timing::timing_sticky, points_sticky};

    proof {
        reveal(front_at);
        lemma2_to64();
    }
    if reduced {
        let level = r.f(5)?;
        let mut op = OperatingPoint::default();
        op.seq_level_idx = level as u8;
        let mut points: Vec<OperatingPoint> = Vec::new();
        points.push(op);
        assert(points@ =~= seq![reduced_point(level as u8)]);
        Ok((timing::no_timing(), false, points))
    } else {
        let timing = timing::timing_info(r)?;
        let delay = r.flag()?;
        let ghost c = r@;
        let count = r.f(5)?;
        proof {
            bitio::lemma_reader_ok(*r);
            bitio::f_consumes(c, 5);
        }
        let y = PointSyntax {
            decoder_model_info_present: timing.model.present,
            buffer_delay_length_minus_1: timing.model.buffer_delay_length_minus_1,
            initial_display_delay_present: delay,
        };
        let ghost c = r@;
        let points = points::operating_points(r, y, count as usize + 1)?;
        proof {
            lemma_points_len(c, y, (count + 1) as nat);
        }
        Ok((timing, delay, points))
    }
}

proof fn lemma_points_len(c: Cur, y: PointSyntax, n: nat)
    ensures
        points::points_at(c, y, n).0.len() == n,
    decreases n,
{
    if n > 0 {
        lemma_points_len(c, y, (n - 1) as nat);
    }
}

fn sections(r: &mut BitReader) -> (res: Result<Sections, Error>)
    ensures
        match res {
            Ok(z) => z.points@.len() > 0 && bitio::reads(
                final(r)@,
                Ok::<Sections<Seq<OperatingPoint>>, Error>(z@),
                sections_at(old(r)@),
            ),
            Err(e) => sections_at(old(r)@).1.err == Some(e),
        },
{
    broadcast use group_sticky;

    proof {
        reveal(sections_at);
        bitio::lemma_reader_ok(*r);
        lemma2_to64();
        if r@.f(3).1.err is None {
            bitio::f_consumes(r@, 3);
        }
    }
    let profile = r.f(3)?;
    let seq_profile = profile as u8;
    let still_picture = r.flag()?;
    let reduced = r.flag()?;
    if profile > 2 {
        return Err(Error::SeqProfile);
    }
    let (timing, initial_display_delay_present, points) = front(r, reduced)?;
    let size = frame::frame_size(r)?;
    let ids = frame::frame_ids(r, reduced)?;
    let tools = tools::tools(r, reduced)?;
    let depth = color::depth_config(r, seq_profile)?;
    let desc = color::color_description(r)?;
    let chroma = color::chroma_config(r, seq_profile, depth, desc)?;
    let film_grain = r.flag()?;
    let seq_level_idx = points[0].seq_level_idx;
    let seq_tier: u8 = if points[0].seq_tier {
        1
    } else {
        0
    };
    Ok(
        Sections {
            seq_profile,
            still_picture,
            reduced,
            timing,
            initial_display_delay_present,
            points,
            seq_level_idx,
            seq_tier,
            size,
            ids,
            tools,
            depth,
            desc,
            chroma,
            film_grain,
        },
    )
}

proof fn lemma_view_timing(r: SequenceHeader, z: Timing)
    requires
        r.timing_info_present == z.present,
        r.equal_picture_interval == z.equal_picture_interval,
        r.decoder_model_info_present == z.model.present,
        r.num_units_in_display_tick == z.num_units_in_display_tick,
        r.time_scale == z.time_scale,
        r.num_ticks_per_picture_minus_1 == z.num_ticks_per_picture_minus_1,
        r.buffer_delay_length_minus_1 == z.model.buffer_delay_length_minus_1,
        r.num_units_in_decoding_tick == z.model.num_units_in_decoding_tick,
        r.buffer_removal_time_length_minus_1 == z.model.buffer_removal_time_length_minus_1,
        r.frame_presentation_time_length_minus_1 == z.model.frame_presentation_time_length_minus_1,
    ensures
        r.timing() == z,
{
}

proof fn lemma_view_size(r: SequenceHeader, z: FrameSize)
    requires
        r.max_frame_width == z.max_frame_width,
        r.max_frame_height == z.max_frame_height,
        r.frame_width_bits_minus_1 == z.frame_width_bits_minus_1,
        r.frame_height_bits_minus_1 == z.frame_height_bits_minus_1,
    ensures
        r.size() == z,
{
}

proof fn lemma_view_ids(r: SequenceHeader, z: FrameIds)
    requires
        r.frame_id_numbers_present == z.present,
        r.id_len == z.id_len,
        r.delta_frame_id_length_minus_2 == z.delta_frame_id_length_minus_2,
        r.additional_frame_id_length_minus_1 == z.additional_frame_id_length_minus_1,
    ensures
        r.ids() == z,
{
}

proof fn lemma_view_tools(r: SequenceHeader, z: Tools)
    requires
        r.use_128x128_superblock == z.use_128x128_superblock,
        r.enable_order_hint == z.inter.enable_order_hint,
        r.order_hint_bits == z.inter.order_hint_bits,
        r.seq_force_screen_content_tools == z.inter.screen.seq_force_screen_content_tools,
        r.seq_force_integer_mv == z.inter.screen.seq_force_integer_mv,
        r.enable_filter_intra == z.enable_filter_intra,
        r.enable_intra_edge_filter == z.enable_intra_edge_filter,
        r.enable_interintra_compound == z.inter.enable_interintra_compound,
        r.enable_masked_compound == z.inter.enable_masked_compound,
        r.enable_warped_motion == z.inter.enable_warped_motion,
        r.enable_dual_filter == z.inter.enable_dual_filter,
        r.enable_jnt_comp == z.inter.enable_jnt_comp,
        r.enable_ref_frame_mvs == z.inter.enable_ref_frame_mvs,
        r.seq_choose_screen_content_tools == z.inter.screen.seq_choose_screen_content_tools,
        r.seq_choose_integer_mv == z.inter.screen.seq_choose_integer_mv,
        r.enable_superres == z.enable_superres,
        r.enable_cdef == z.enable_cdef,
        r.enable_restoration == z.enable_restoration,
    ensures
        r.tools() == z,
{
    assert(r.tools().inter.screen == z.inter.screen);
    tools::lemma_inter_tools_same(r.tools().inter, z.inter);
    tools::lemma_tools_same(r.tools(), z);
}

proof fn lemma_view_depth(r: SequenceHeader, z: Depth)
    requires
        r.bit_depth == z.bit_depth,
        r.mono_chrome == z.mono_chrome,
        r.high_bitdepth == z.high_bitdepth,
        r.twelve_bit == z.twelve_bit,
    ensures
        r.depth() == z,
{
}

proof fn lemma_view_desc(r: SequenceHeader, z: ColorDescription)
    requires
        r.color_description_present == z.present,
        r.color_primaries == z.color_primaries,
        r.transfer_characteristics == z.transfer_characteristics,
        r.matrix_coefficients == z.matrix_coefficients,
    ensures
        r.desc() == z,
{
}

proof fn lemma_view_chroma(r: SequenceHeader, z: Chroma)
    requires
        r.subsample_x == z.subsample_x,
        r.subsample_y == z.subsample_y,
        r.chroma_sample_position == z.chroma_sample_position,
        r.color_range == z.color_range,
        r.separate_uv_delta_q == z.separate_uv_delta_q,
    ensures
        r.chroma() == z,
{
}

proof fn lemma_view(r: SequenceHeader, z: Sections<Seq<OperatingPoint>>)
    requires
        r.seq_profile == z.seq_profile,
        r.still_picture == z.still_picture,
        r.reduced_still_picture_header == z.reduced,
        r.film_grain_params_present == z.film_grain,
        r.seq_level_idx == z.seq_level_idx,
        r.seq_tier == z.seq_tier,
        r.initial_display_delay_present == z.initial_display_delay_present,
        r.operating_points@ == z.points,
        r.timing() == z.timing,
        r.size() == z.size,
        r.ids() == z.ids,
        r.tools() == z.tools,
        r.depth() == z.depth,
        r.desc() == z.desc,
        r.chroma() == z.chroma,
    ensures
        r@ == z,
{
}

/// A header with the fields of `z` has the view `z`.
proof fn lemma_view_all(r: SequenceHeader, z: Sections<Seq<OperatingPoint>>)
    requires
        r.seq_profile == z.seq_profile,
        r.still_picture == z.still_picture,
        r.reduced_still_picture_header == z.reduced,
        r.timing_info_present == z.timing.present,
        r.equal_picture_interval == z.timing.equal_picture_interval,
        r.decoder_model_info_present == z.timing.model.present,
        r.frame_id_numbers_present == z.ids.present,
        r.id_len == z.ids.id_len,
        r.use_128x128_superblock == z.tools.use_128x128_superblock,
        r.enable_order_hint == z.tools.inter.enable_order_hint,
        r.order_hint_bits == z.tools.inter.order_hint_bits,
        r.seq_force_screen_content_tools == z.tools.inter.screen.seq_force_screen_content_tools,
        r.seq_force_integer_mv == z.tools.inter.screen.seq_force_integer_mv,
        r.film_grain_params_present == z.film_grain,
        r.max_frame_width == z.size.max_frame_width,
        r.max_frame_height == z.size.max_frame_height,
        r.bit_depth == z.depth.bit_depth,
        r.mono_chrome == z.depth.mono_chrome,
        r.seq_level_idx == z.seq_level_idx,
        r.seq_tier == z.seq_tier,
        r.subsample_x == z.chroma.subsample_x,
        r.subsample_y == z.chroma.subsample_y,
        r.chroma_sample_position == z.chroma.chroma_sample_position,
        r.num_units_in_display_tick == z.timing.num_units_in_display_tick,
        r.time_scale == z.timing.time_scale,
        r.num_ticks_per_picture_minus_1 == z.timing.num_ticks_per_picture_minus_1,
        r.buffer_delay_length_minus_1 == z.timing.model.buffer_delay_length_minus_1,
        r.num_units_in_decoding_tick == z.timing.model.num_units_in_decoding_tick,
        r.buffer_removal_time_length_minus_1 == z.timing.model.buffer_removal_time_length_minus_1,
        r.frame_presentation_time_length_minus_1 == z.timing.model.frame_presentation_time_length_minus_1,
        r.initial_display_delay_present == z.initial_display_delay_present,
        r.operating_points@ == z.points,
        r.frame_width_bits_minus_1 == z.size.frame_width_bits_minus_1,
        r.frame_height_bits_minus_1 == z.size.frame_height_bits_minus_1,
        r.delta_frame_id_length_minus_2 == z.ids.delta_frame_id_length_minus_2,
        r.additional_frame_id_length_minus_1 == z.ids.additional_frame_id_length_minus_1,
        r.enable_filter_intra == z.tools.enable_filter_intra,
        r.enable_intra_edge_filter == z.tools.enable_intra_edge_filter,
        r.enable_interintra_compound == z.tools.inter.enable_interintra_compound,
        r.enable_masked_compound == z.tools.inter.enable_masked_compound,
        r.enable_warped_motion == z.tools.inter.enable_warped_motion,
        r.enable_dual_filter == z.tools.inter.enable_dual_filter,
        r.enable_jnt_comp == z.tools.inter.enable_jnt_comp,
        r.enable_ref_frame_mvs == z.tools.inter.enable_ref_frame_mvs,
        r.seq_choose_screen_content_tools == z.tools.inter.screen.seq_choose_screen_content_tools,
        r.seq_choose_integer_mv == z.tools.inter.screen.seq_choose_integer_mv,
        r.enable_superres == z.tools.enable_superres,
        r.enable_cdef == z.tools.enable_cdef,
        r.enable_restoration == z.tools.enable_restoration,
        r.high_bitdepth == z.depth.high_bitdepth,
        r.twelve_bit == z.depth.twelve_bit,
        r.color_description_present == z.desc.present,
        r.color_primaries == z.desc.color_primaries,
        r.transfer_characteristics == z.desc.transfer_characteristics,
        r.matrix_coefficients == z.desc.matrix_coefficients,
        r.color_range == z.chroma.color_range,
        r.separate_uv_delta_q == z.chroma.separate_uv_delta_q,
    ensures
        r@ == z,
{
    lemma_view_timing(r, z.timing);
    lemma_view_size(r, z.size);
    lemma_view_ids(r, z.ids);
    lemma_view_tools(r, z.tools);
    lemma_view_depth(r, z.depth);
    lemma_view_desc(r, z.desc);
    lemma_view_chroma(r, z.chroma);
    lemma_view(r, z);
}

fn header(z: Sections) -> (r: SequenceHeader)
    ensures
        r@ == z@,
{
    let r = SequenceHeader {
        seq_profile: z.seq_profile,
        still_picture: z.still_picture,
        reduced_still_picture_header: z.reduced,
        timing_info_present: z.timing.present,
        equal_picture_interval: z.timing.equal_picture_interval,
        decoder_model_info_present: z.timing.model.present,
        frame_id_numbers_present: z.ids.present,
        id_len: z.ids.id_len,
        use_128x128_superblock: z.tools.use_128x128_superblock,
        enable_order_hint: z.tools.inter.enable_order_hint,
        order_hint_bits: z.tools.inter.order_hint_bits,
        seq_force_screen_content_tools: z.tools.inter.screen.seq_force_screen_content_tools,
        seq_force_integer_mv: z.tools.inter.screen.seq_force_integer_mv,
        film_grain_params_present: z.film_grain,
        max_frame_width: z.size.max_frame_width,
        max_frame_height: z.size.max_frame_height,
        bit_depth: z.depth.bit_depth,
        mono_chrome: z.depth.mono_chrome,
        seq_level_idx: z.seq_level_idx,
        seq_tier: z.seq_tier,
        subsample_x: z.chroma.subsample_x,
        subsample_y: z.chroma.subsample_y,
        chroma_sample_position: z.chroma.chroma_sample_position,
        num_units_in_display_tick: z.timing.num_units_in_display_tick,
        time_scale: z.timing.time_scale,
        num_ticks_per_picture_minus_1: z.timing.num_ticks_per_picture_minus_1,
        buffer_delay_length_minus_1: z.timing.model.buffer_delay_length_minus_1,
        num_units_in_decoding_tick: z.timing.model.num_units_in_decoding_tick,
        buffer_removal_time_length_minus_1: z.timing.model.buffer_removal_time_length_minus_1,
        frame_presentation_time_length_minus_1:
            z.timing.model.frame_presentation_time_length_minus_1,
        initial_display_delay_present: z.initial_display_delay_present,
        operating_points: z.points,
        frame_width_bits_minus_1: z.size.frame_width_bits_minus_1,
        frame_height_bits_minus_1: z.size.frame_height_bits_minus_1,
        delta_frame_id_length_minus_2: z.ids.delta_frame_id_length_minus_2,
        additional_frame_id_length_minus_1: z.ids.additional_frame_id_length_minus_1,
        enable_filter_intra: z.tools.enable_filter_intra,
        enable_intra_edge_filter: z.tools.enable_intra_edge_filter,
        enable_interintra_compound: z.tools.inter.enable_interintra_compound,
        enable_masked_compound: z.tools.inter.enable_masked_compound,
        enable_warped_motion: z.tools.inter.enable_warped_motion,
        enable_dual_filter: z.tools.inter.enable_dual_filter,
        enable_jnt_comp: z.tools.inter.enable_jnt_comp,
        enable_ref_frame_mvs: z.tools.inter.enable_ref_frame_mvs,
        seq_choose_screen_content_tools:
            z.tools.inter.screen.seq_choose_screen_content_tools,
        seq_choose_integer_mv: z.tools.inter.screen.seq_choose_integer_mv,
        enable_superres: z.tools.enable_superres,
        enable_cdef: z.tools.enable_cdef,
        enable_restoration: z.tools.enable_restoration,
        high_bitdepth: z.depth.high_bitdepth,
        twelve_bit: z.depth.twelve_bit,
        color_description_present: z.desc.present,
        color_primaries: z.desc.color_primaries,
        transfer_characteristics: z.desc.transfer_characteristics,
        matrix_coefficients: z.desc.matrix_coefficients,
        color_range: z.chroma.color_range,
        separate_uv_delta_q: z.chroma.separate_uv_delta_q,
    };
    proof {
        lemma_view_all(r, z@);
    }
    r
}

/// Parse a sequence header OBU payload.
pub fn parse_sequence_header(payload: &[u8]) -> (res: Result<SequenceHeader, Error>)
    ensures
        model::view_ok(res) == header_of(payload@),
{
    let mut r = BitReader::new(payload);
    let z = sections(&mut r)?;
    Ok(header(z))
}

impl SequenceHeader {
    fn timing_fields(&self) -> (r: Timing)
        ensures
            r == self@.timing,
    {
        Timing {
            present: self.timing_info_present,
            num_units_in_display_tick: self.num_units_in_display_tick,
            time_scale: self.time_scale,
            equal_picture_interval: self.equal_picture_interval,
            num_ticks_per_picture_minus_1: self.num_ticks_per_picture_minus_1,
            model: DecoderModel {
                present: self.decoder_model_info_present,
                buffer_delay_length_minus_1: self.buffer_delay_length_minus_1,
                num_units_in_decoding_tick: self.num_units_in_decoding_tick,
                buffer_removal_time_length_minus_1: self.buffer_removal_time_length_minus_1,
                frame_presentation_time_length_minus_1: self.frame_presentation_time_length_minus_1,
            },
        }
    }

    fn size_fields(&self) -> (r: FrameSize)
        ensures
            r == self@.size,
    {
        FrameSize {
            frame_width_bits_minus_1: self.frame_width_bits_minus_1,
            frame_height_bits_minus_1: self.frame_height_bits_minus_1,
            max_frame_width: self.max_frame_width,
            max_frame_height: self.max_frame_height,
        }
    }

    fn id_fields(&self) -> (r: FrameIds)
        ensures
            r == self@.ids,
    {
        FrameIds {
            present: self.frame_id_numbers_present,
            delta_frame_id_length_minus_2: self.delta_frame_id_length_minus_2,
            additional_frame_id_length_minus_1: self.additional_frame_id_length_minus_1,
            id_len: self.id_len,
        }
    }

    fn tool_fields(&self) -> (r: Tools)
        ensures
            r == self@.tools,
    {
        Tools {
            use_128x128_superblock: self.use_128x128_superblock,
            enable_filter_intra: self.enable_filter_intra,
            enable_intra_edge_filter: self.enable_intra_edge_filter,
            inter: InterTools {
                enable_interintra_compound: self.enable_interintra_compound,
                enable_masked_compound: self.enable_masked_compound,
                enable_warped_motion: self.enable_warped_motion,
                enable_dual_filter: self.enable_dual_filter,
                enable_order_hint: self.enable_order_hint,
                enable_jnt_comp: self.enable_jnt_comp,
                enable_ref_frame_mvs: self.enable_ref_frame_mvs,
                screen: ScreenTools {
                    seq_choose_screen_content_tools: self.seq_choose_screen_content_tools,
                    seq_force_screen_content_tools: self.seq_force_screen_content_tools,
                    seq_choose_integer_mv: self.seq_choose_integer_mv,
                    seq_force_integer_mv: self.seq_force_integer_mv,
                },
                order_hint_bits: self.order_hint_bits,
            },
            enable_superres: self.enable_superres,
            enable_cdef: self.enable_cdef,
            enable_restoration: self.enable_restoration,
        }
    }

    fn depth_fields(&self) -> (r: Depth)
        ensures
            r == self@.depth,
    {
        Depth {
            high_bitdepth: self.high_bitdepth,
            twelve_bit: self.twelve_bit,
            bit_depth: self.bit_depth,
            mono_chrome: self.mono_chrome,
        }
    }

    fn desc_fields(&self) -> (r: ColorDescription)
        ensures
            r == self@.desc,
    {
        ColorDescription {
            present: self.color_description_present,
            color_primaries: self.color_primaries,
            transfer_characteristics: self.transfer_characteristics,
            matrix_coefficients: self.matrix_coefficients,
        }
    }

    /// The header with other timing and operating points.
    fn rebuilt(&self, timing: Timing, points: Vec<OperatingPoint>) -> (r: SequenceHeader)
        ensures
            r@ == (Sections { timing, points: points@, ..self@ }),
    {
        header(
            Sections {
                seq_profile: self.seq_profile,
                still_picture: self.still_picture,
                reduced: self.reduced_still_picture_header,
                timing,
                initial_display_delay_present: self.initial_display_delay_present,
                points,
                seq_level_idx: self.seq_level_idx,
                seq_tier: self.seq_tier,
                size: self.size_fields(),
                ids: self.id_fields(),
                tools: self.tool_fields(),
                depth: self.depth_fields(),
                desc: self.desc_fields(),
                chroma: self.chroma_fields(),
                film_grain: self.film_grain_params_present,
            },
        )
    }

    fn chroma_fields(&self) -> (r: Chroma)
        ensures
            r == self@.chroma,
    {
        Chroma {
            color_range: self.color_range,
            subsample_x: self.subsample_x,
            subsample_y: self.subsample_y,
            chroma_sample_position: self.chroma_sample_position,
            separate_uv_delta_q: self.separate_uv_delta_q,
        }
    }
}

fn emit_front(w: &mut BitWriter, sh: &SequenceHeader)
    requires
        old(w).wf(),
        sh@.emittable(),
    ensures
        final(w).wf(),
        final(w)@ == front_bits(old(w)@, sh@),
{
    proof {
        reveal(front_bits);
    }
    if sh.reduced_still_picture_header {
        w.f(5, sh.seq_level_idx as u64);
    } else {
        timing::emit_timing(w, sh.timing_fields());
        w.flag(sh.initial_display_delay_present);
        w.f(5, sh.operating_points.len() as u64 - 1);
        let y = PointSyntax {
            decoder_model_info_present: sh.decoder_model_info_present,
            buffer_delay_length_minus_1: sh.buffer_delay_length_minus_1,
            initial_display_delay_present: sh.initial_display_delay_present,
        };
        points::emit_operating_points(w, y, &sh.operating_points);
    }
}

/// Re-emit a sequence header OBU payload (with trailing bits), mirroring the
/// parse order exactly.
pub fn emit_sequence_header(sh: &SequenceHeader) -> (r: Vec<u8>)
    requires
        sh@.emittable(),
    ensures
        r@ == header_bytes(sh@),
{
    proof {
        reveal(header_bits);
    }
    let reduced = sh.reduced_still_picture_header;
    let mut w = BitWriter::new();
    w.f(3, sh.seq_profile as u64);
    w.flag(sh.still_picture);
    w.flag(reduced);
    emit_front(&mut w, sh);
    frame::emit_frame_size(&mut w, sh.size_fields());
    frame::emit_frame_ids(&mut w, reduced, sh.id_fields());
    tools::emit_tools(&mut w, reduced, sh.tool_fields());
    let depth = sh.depth_fields();
    let desc = sh.desc_fields();
    color::emit_depth(&mut w, sh.seq_profile, depth);
    color::emit_description(&mut w, desc);
    color::emit_chroma(&mut w, sh.seq_profile, depth, desc, sh.chroma_fields());
    w.flag(sh.film_grain_params_present);
    w.trailing_bits();
    w.into_bytes()
}


// ---------- parsing and emitting undo each other ----------

proof fn front_consumes(c: Cur, z: Sections<Seq<OperatingPoint>>)
    requires
        c.ready(),
        front_at(c, z.reduced).1.err is None,
        front_at(c, z.reduced).0 == (z.timing, z.initial_display_delay_present, z.points),
        z.seq_level_idx == z.points[0].seq_level_idx,
    ensures
        z.timing.canonical(),
        1 <= z.points.len() <= 32,
        forall|i: int|
            0 <= i < z.points.len() ==> (#[trigger] z.points[i]).canonical(z.point_syntax()),
        z.reduced ==> {
            &&& z.timing == Timing::absent()
            &&& !z.initial_display_delay_present
            &&& z.points == seq![reduced_point(z.points[0].seq_level_idx)]
        },
        front_at(c, z.reduced).1.reached(c, front_bits(c.seen(), z)),
{
    broadcast use {bitio::group_consumes, timing::timing_sticky, points_sticky};

    reveal(front_at);
    reveal(front_bits);
    lemma2_to64();
    if !z.reduced {
        let c1 = timing::timing_at(c).1;
        timing::timing_consumes(c);
        let c2 = c1.flag().1;
        let (count, c3) = c2.f(5);
        points::points_consume(c3, z.point_syntax(), (count + 1) as nat);
    }
}

proof fn sections_consume(c: Cur)
    requires
        c.ready(),
        c.pos == 0,
        sections_at(c).1.err is None,
    ensures
        sections_at(c).0.canonical(),
        sections_at(c).1.reached(c, header_bits(sections_at(c).0)),
{
    broadcast use {bitio::group_consumes, group_sticky};

    reveal(sections_at);
    reveal(header_bits);
    lemma2_to64();
    let z = sections_at(c).0;
    let profile = z.seq_profile;
    assert(c.seen() =~= Seq::<bool>::empty());
    let c3 = c.f(3).1.flag().1.flag().1;
    let c3 = if c.f(3).0 > 2 {
        c3.fail(Error::SeqProfile)
    } else {
        c3
    };
    assert(c3.err is None);
    front_consumes(c3, z);
    let c4 = front_at(c3, z.reduced).1;
    frame::frame_size_consumes(c4);
    let c5 = frame::frame_size_at(c4).1;
    frame::frame_ids_consume(c5, z.reduced);
    let c6 = frame::frame_ids_at(c5, z.reduced).1;
    tools::tools_consume(c6, z.reduced);
    let c7 = tools::tools_at(c6, z.reduced).1;
    color::depth_consumes(c7, profile);
    let c8 = color::depth_at(c7, profile).1;
    color::description_consumes(c8);
    let c9 = color::description_at(c8).1;
    color::chroma_consumes(c9, profile, z.depth, z.desc);
}

/// Every payload that parses gives a header that holds only what the syntax
/// can code, and the payload starts with exactly the bits that emitting this
/// header writes.
pub proof fn parsed_header_re_emits(payload: Seq<u8>)
    requires
        header_of(payload) is Ok,
    ensures
        header_of(payload)->Ok_0.canonical(),
        bitio::starts(bitio::bits_of(payload), header_bits(header_of(payload)->Ok_0)),
{
    let c = Cur::start(payload);
    sections_consume(c);
    let c1 = sections_at(c).1;
    assert(c1.seen().len() == c1.pos);
}

/// Re-emission is byte-exact: a payload that holds a header and its trailing
/// bits, nothing else, is what emitting the parsed header gives.
pub proof fn parse_then_emit_is_exact(payload: Seq<u8>)
    requires
        header_of(payload) is Ok,
        ({
            let n = header_bits(header_of(payload)->Ok_0).len();
            let bits = bitio::bits_of(payload);
            bits == bitio::with_trailing_bits(bits.take(n as int))
        }),
    ensures
        header_bytes(header_of(payload)->Ok_0) == payload,
{
    parsed_header_re_emits(payload);
    bitio::lemma_pack_bits_of(payload);
}

proof fn front_reads_back(c: Cur, sh: Sections<Seq<OperatingPoint>>)
    requires
        sh.canonical(),
        c.expects(front_bits(c.seen(), sh)),
    ensures
        front_at(c, sh.reduced).0 == (sh.timing, sh.initial_display_delay_present, sh.points),
        front_at(c, sh.reduced).1.reached(c, front_bits(c.seen(), sh)),
{
    broadcast use {bitio::group_starts, timing::timing_starts};

    reveal(front_at);
    reveal(front_bits);
    lemma2_to64();
    let points = sh.points;
    if sh.reduced {
        bitio::f_reads_back(c, 5, sh.seq_level_idx as u64);
    } else {
        let y = sh.point_syntax();
        let w = timing::timing_bits(c.seen(), sh.timing).push(sh.initial_display_delay_present)
            + bitio::be_bits(5, (points.len() - 1) as nat);
        points::lemma_points_bits_starts(c.bits, w, y, points);
        timing::timing_reads_back(c, sh.timing);
        let c = timing::timing_at(c).1;
        bitio::flag_reads_back(c, sh.initial_display_delay_present);
        let c = c.flag().1;
        bitio::f_reads_back(c, 5, (points.len() - 1) as u64);
        let c = c.f(5).1;
        points::points_read_back(c, y, points);
    }
}

proof fn sections_read_back(c: Cur, sh: Sections<Seq<OperatingPoint>>)
    requires
        sh.canonical(),
        c.pos == 0,
        c.expects(header_bits(sh)),
    ensures
        sections_at(c).0 == sh,
        sections_at(c).1.err is None,
{
    broadcast use {bitio::group_starts, group_section_starts};

    reveal(sections_at);
    reveal(header_bits);
    lemma2_to64();
    let reduced = sh.reduced;
    assert(c.seen() =~= Seq::<bool>::empty());
    bitio::f_reads_back(c, 3, sh.seq_profile as u64);
    let c = c.f(3).1;
    bitio::flag_reads_back(c, sh.still_picture);
    let c = c.flag().1;
    bitio::flag_reads_back(c, reduced);
    let c = c.flag().1;
    front_reads_back(c, sh);
    let c = front_at(c, reduced).1;
    frame::frame_size_reads_back(c, sh.size);
    let c = frame::frame_size_at(c).1;
    frame::frame_ids_read_back(c, reduced, sh.ids);
    let c = frame::frame_ids_at(c, reduced).1;
    tools::tools_read_back(c, reduced, sh.tools);
    let c = tools::tools_at(c, reduced).1;
    color::depth_reads_back(c, sh.seq_profile, sh.depth);
    let c = color::depth_at(c, sh.seq_profile).1;
    color::description_reads_back(c, sh.desc);
    let c = color::description_at(c).1;
    color::chroma_reads_back(c, sh.seq_profile, sh.depth, sh.desc, sh.chroma);
    let c = color::chroma_at(c, sh.seq_profile, sh.depth, sh.desc).1;
    bitio::flag_reads_back(c, sh.film_grain);
}

/// A header that holds only what the syntax can code takes at most 400 bytes.
pub proof fn header_is_short(sh: Sections<Seq<OperatingPoint>>)
    requires
        sh.canonical(),
    ensures
        header_bytes(sh).len() <= 400,
{
    reveal(header_bits);
    reveal(front_bits);
    bitio::lemma_be_bits_len(3, sh.seq_profile as nat);
    bitio::lemma_be_bits_len(5, sh.seq_level_idx as nat);
    bitio::lemma_be_bits_len(5, (sh.points.len() - 1) as nat);
    let w = (Seq::<bool>::empty() + bitio::be_bits(3, sh.seq_profile as nat)).push(
        sh.still_picture,
    ).push(sh.reduced);
    size::lemma_timing_len(w, sh.timing);
    let w1 = timing::timing_bits(w, sh.timing).push(sh.initial_display_delay_present)
        + bitio::be_bits(5, (sh.points.len() - 1) as nat);
    size::lemma_points_len(w1, sh.point_syntax(), sh.points);
    let w = front_bits(w, sh);
    size::lemma_frame_size_len(w, sh.size);
    let w = frame::frame_size_bits(w, sh.size);
    size::lemma_frame_ids_len(w, sh.reduced, sh.ids);
    let w = frame::frame_ids_bits(w, sh.reduced, sh.ids);
    size::lemma_tools_len(w, sh.reduced, sh.tools);
    let w = tools::tools_bits(w, sh.reduced, sh.tools);
    size::lemma_depth_len(w, sh.seq_profile, sh.depth);
    let w = color::depth_bits(w, sh.seq_profile, sh.depth);
    size::lemma_description_len(w, sh.desc);
    let w = color::description_bits(w, sh.desc);
    size::lemma_chroma_len(w, sh.seq_profile, sh.depth, sh.desc, sh.chroma);
    assert(header_bits(sh).len() < 3150);
    assert(bitio::with_trailing_bits(header_bits(sh)).len() < 3160);
}

/// Parsing what was emitted gives the header back, so emitting it again gives
/// the same bytes.
pub proof fn emit_then_parse_is_exact(sh: Sections<Seq<OperatingPoint>>)
    requires
        sh.canonical(),
    ensures
        header_of(header_bytes(sh)) == Ok::<Sections<Seq<OperatingPoint>>, Error>(sh),
        sh.emittable(),
{
    header_is_short(sh);
    let b = header_bits(sh);
    let t = bitio::with_trailing_bits(b);
    bitio::lemma_bits_of_pack(t);
    assert(bitio::aligned(t) =~= t);
    assert(bitio::bits_of(header_bytes(sh)).take(b.len() as int) =~= b);
    sections_read_back(Cur::start(header_bytes(sh)), sh);
}

// ---------- declaring timing ----------

impl Sections<Seq<OperatingPoint>> {
    /// The header with constant-rate timing of `num` frames in `den` seconds
    /// declared, and nothing else changed.
    pub open spec fn timed(self, num: u32, den: u32) -> Sections<Seq<OperatingPoint>> {
        Sections { timing: rate_timing(num, den, self.timing.model), ..self }
    }

    /// The header with a decoder model declared on top of its timing, or of
    /// the given constant rate where it has none.
    pub open spec fn modeled(self, num: u32, den: u32) -> Sections<Seq<OperatingPoint>> {
        Sections {
            timing: if self.timing.present {
                Timing { model: declared_model(num), ..self.timing }
            } else {
                rate_timing(num, den, declared_model(num))
            },
            points: Seq::new(self.points.len(), |i: int| modeled_point(self.points[i])),
            ..self
        }
    }

    pub open spec fn needs_temporal_point_info(self) -> bool {
        self.timing.model.present && !self.timing.equal_picture_interval
    }

    /// The first reason why show_existing_frame cannot be used with this header.
    pub open spec fn unsupported(self) -> Option<Error> {
        if self.reduced {
            Some(Error::ReducedStillPicture)
        } else if self.ids.present {
            Some(Error::FrameIdNumbers)
        } else if self.needs_temporal_point_info() {
            Some(Error::UnequalIntervals)
        } else if self.film_grain {
            Some(Error::FilmGrain)
        } else {
            None
        }
    }
}

/// Timing of one picture each `den / num` seconds; a zero counts as one.
pub open spec fn rate_timing(num: u32, den: u32, model: DecoderModel) -> Timing {
    Timing {
        present: true,
        num_units_in_display_tick: if den == 0 {
            1
        } else {
            den
        },
        time_scale: if num == 0 {
            1
        } else {
            num
        },
        equal_picture_interval: true,
        num_ticks_per_picture_minus_1: 0,
        model,
    }
}

/// The decoder model with 32-bit delays, 16-bit removal times and 24-bit
/// presentation times.
pub open spec fn declared_model(num: u32) -> DecoderModel {
    DecoderModel {
        present: true,
        buffer_delay_length_minus_1: 31,
        num_units_in_decoding_tick: num,
        buffer_removal_time_length_minus_1: 15,
        frame_presentation_time_length_minus_1: 23,
    }
}

/// The operating point with about one second of buffer declared.
pub open spec fn modeled_point(op: OperatingPoint) -> OperatingPoint {
    OperatingPoint {
        decoder_model_present: true,
        decoder_buffer_delay: 90_000,
        encoder_buffer_delay: 90_000,
        low_delay_mode: false,
        ..op
    }
}

/// What declaring a decoder model gives: a header that declares one already is
/// kept, one with variable picture intervals is refused.
pub open spec fn decoder_modeled(
    sh: Sections<Seq<OperatingPoint>>,
    num: u32,
    den: u32,
) -> Result<Sections<Seq<OperatingPoint>>, Error> {
    if sh.timing.model.present {
        Ok(sh)
    } else if sh.timing.present && !sh.timing.equal_picture_interval {
        Err(Error::DecoderModelVariableInterval)
    } else {
        Ok(sh.modeled(num, den))
    }
}

/// Return a copy of `sh` declaring constant-rate timing for `fps`
/// (timing_info + equal_picture_interval, no decoder model).
pub fn with_timing_info(sh: &SequenceHeader, fps: u32) -> (r: SequenceHeader)
    ensures
        r@ == sh@.timed(fps, 1),
{
    with_timing_info_rate(sh, fps, 1)
}

/// Return a copy of `sh` declaring constant-rate timing at
/// `rate_num`/`rate_den` frames per second — `time_scale = rate_num`,
/// `num_units_in_display_tick = rate_den` (e.g. 30000/1001 for NTSC).
pub fn with_timing_info_rate(sh: &SequenceHeader, rate_num: u32, rate_den: u32) -> (r:
    SequenceHeader)
    ensures
        r@ == sh@.timed(rate_num, rate_den),
{
    let points = sh.operating_points.clone();
    assert(points@ =~= sh.operating_points@);
    sh.rebuilt(constant_rate(rate_num, rate_den, sh.timing_fields().model), points)
}

/// Timing of one picture each `den / num` seconds.
fn constant_rate(num: u32, den: u32, model: DecoderModel) -> (r: Timing)
    ensures
        r == rate_timing(num, den, model),
{
    Timing {
        present: true,
        num_units_in_display_tick: if den == 0 {
            1
        } else {
            den
        },
        time_scale: if num == 0 {
            1
        } else {
            num
        },
        equal_picture_interval: true,
        num_ticks_per_picture_minus_1: 0,
        model,
    }
}

/// Return a copy of `sh` with decoder_model_info() enabled (requires and
/// implies timing_info). Frames gain only `buffer_removal_time_present_flag`
/// (always emitted as 0): equal_picture_interval makes decode timing
/// implicit, so no removal-time fields are ever written.
///
/// A stream that already declares the model is returned unchanged: its
/// declared field widths are load-bearing for the flag/removal-time bits
/// already coded in its frame headers.
pub fn with_decoder_model(sh: &SequenceHeader, fps: u32) -> (r: Result<SequenceHeader, Error>)
    ensures
        model::view_ok(r) == decoder_modeled(sh@, fps, 1),
{
    with_decoder_model_rate(sh, fps, 1)
}

/// Rational-rate variant of [`with_decoder_model`]: `rate_num`/`rate_den`
/// frames per second, as with [`with_timing_info_rate`].
pub fn with_decoder_model_rate(sh: &SequenceHeader, rate_num: u32, rate_den: u32) -> (r: Result<
    SequenceHeader,
    Error,
>)
    ensures
        model::view_ok(r) == decoder_modeled(sh@, rate_num, rate_den),
{
    if sh.decoder_model_info_present {
        return Ok(sh.clone());
    }
    if sh.timing_info_present && !sh.equal_picture_interval {
        return Err(Error::DecoderModelVariableInterval);
    }
    let model = DecoderModel {
        present: true,
        buffer_delay_length_minus_1: 31,  // 32-bit delays
        num_units_in_decoding_tick: rate_num,
        // removal times that are never emitted would need <= 32 bits; 16
        // suffices as a legal declaration since the flag is 0 in every header.
        buffer_removal_time_length_minus_1: 15,
        // presentation time must index every shown frame; 24 bits ≈ 155h @30fps.
        frame_presentation_time_length_minus_1: 23,
    };
    let mut timing = sh.timing_fields();
    if sh.timing_info_present {
        // Keep the source's declared timing.
        timing.model = model;
    } else {
        timing = constant_rate(rate_num, rate_den, model);
    }
    Ok(sh.rebuilt(timing, modeled_points(&sh.operating_points)))
}

fn modeled_points(points: &Vec<OperatingPoint>) -> (r: Vec<OperatingPoint>)
    ensures
        r@ == Seq::new(points@.len(), |i: int| modeled_point(points@[i])),
{
    let mut out: Vec<OperatingPoint> = Vec::new();
    while out.len() < points.len()
        invariant
            out@.len() <= points@.len(),
            forall|j: int| 0 <= j < out@.len() ==> out@[j] == modeled_point(points@[j]),
        decreases points@.len() - out@.len(),
    {
        let mut op = points[out.len()];
        op.decoder_model_present = true;
        // ~1 second of buffer at the nominal 1/90000 s units.
        op.decoder_buffer_delay = 90_000;
        op.encoder_buffer_delay = 90_000;
        op.low_delay_mode = false;
        out.push(op);
    }
    assert(out@ =~= Seq::new(points@.len(), |i: int| modeled_point(points@[i])));
    out
}

impl SequenceHeader {
    /// Whether show_existing_frame headers need temporal_point_info.
    pub fn needs_temporal_point_info(&self) -> (r: bool)
        ensures
            r == self@.needs_temporal_point_info(),
    {
        self.decoder_model_info_present && !self.equal_picture_interval
    }

    /// Constraints that must hold for us to emit show_existing_frame TUs
    /// against this sequence header.
    pub fn check_supported(&self) -> (r: Result<(), Error>)
        ensures
            match r {
                Ok(_) => self@.unsupported() is None,
                Err(e) => self@.unsupported() == Some(e),
            },
    {
        if self.reduced_still_picture_header {
            return Err(Error::ReducedStillPicture);
        }
        if self.frame_id_numbers_present {
            return Err(Error::FrameIdNumbers);
        }
        if self.needs_temporal_point_info() {
            return Err(Error::UnequalIntervals);
        }
        if self.film_grain_params_present {
            return Err(Error::FilmGrain);
        }
        Ok(())
    }
}

/// Declaring timing changes the timing section only, and keeps the header one
/// that reads back exactly.
pub proof fn timing_flips_only_the_timing_section(
    sh: Sections<Seq<OperatingPoint>>,
    num: u32,
    den: u32,
)
    requires
        sh.canonical(),
        !sh.reduced,
    ensures
        sh.timed(num, den).canonical(),
        sh.timed(num, den) == (Sections { timing: sh.timed(num, den).timing, ..sh }),
        sh.timed(num, den).timing.model == sh.timing.model,
{
    assert(sh.timed(num, den).point_syntax() == sh.point_syntax());
}

/// Declaring a decoder model keeps the header one that reads back exactly and
/// that show_existing_frame can be used with.
pub proof fn decoder_model_keeps_the_header_exact(
    sh: Sections<Seq<OperatingPoint>>,
    num: u32,
    den: u32,
)
    requires
        sh.canonical(),
        sh.unsupported() is None,
        decoder_modeled(sh, num, den) is Ok,
    ensures
        decoder_modeled(sh, num, den)->Ok_0.canonical(),
        decoder_modeled(sh, num, den)->Ok_0.unsupported() is None,
        decoder_modeled(sh, num, den)->Ok_0.timing.model.present,
        decoder_modeled(sh, num, den)->Ok_0.timing.equal_picture_interval,
{
    if !sh.timing.model.present {
        let out = sh.modeled(num, den);
        lemma2_to64();
        assert forall|i: int| 0 <= i < out.points.len() implies (
        #[trigger] out.points[i]).canonical(out.point_syntax()) by {
            assert(sh.points[i].canonical(sh.point_syntax()));
        }
    }
}

} // verus!
