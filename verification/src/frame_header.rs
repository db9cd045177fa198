//! Minimal uncompressed-header parser (AV1 spec 5.9.2).
//!
//! Parses only what the assembler needs: frame_type / show_frame /
//! showable_frame / show_existing_frame / frame_to_show_map_idx /
//! order_hint / refresh_frame_flags. Anything after refresh_frame_flags is
//! left unread.

use vstd::prelude::*;
use vstd::arithmetic::power2::*;

use crate::bitio::{self, BitReader, Cur};
use crate::error::Error;
use crate::seq_header::{OperatingPoint, Sections, SequenceHeader};

verus! {

pub const KEY_FRAME: u8 = 0;

pub const INTER_FRAME: u8 = 1;

pub const INTRA_ONLY_FRAME: u8 = 2;

pub const SWITCH_FRAME: u8 = 3;

/// SELECT_SCREEN_CONTENT_TOOLS / SELECT_INTEGER_MV
pub const SELECT: u8 = 2;

pub const PRIMARY_REF_NONE: u8 = 7;

#[derive(Debug, Clone, Copy, PartialEq, Eq, Structural)]
pub struct FrameHeaderInfo {
    pub show_existing_frame: bool,
    /// Present only when show_existing_frame is set.
    pub frame_to_show_map_idx: Option<u8>,
    /// For show_existing_frame frames this is the stored RefFrameType;
    /// callers resolve it against the tracked DPB state.
    pub frame_type: Option<u8>,
    pub show_frame: bool,
    pub showable_frame: bool,
    /// 0 for show_existing_frame frames.
    pub order_hint: u64,
    pub refresh_frame_flags: u8,
}

impl FrameHeaderInfo {
    pub fn is_shown(&self) -> (r: bool)
        ensures
            r == (self.show_frame || self.show_existing_frame),
    {
        self.show_frame || self.show_existing_frame
    }
}

// ---------- parts of the header ----------

/// The name of a frame type.
pub open spec fn name_of_type(frame_type: u8) -> Seq<char> {
    if frame_type == KEY_FRAME {
        "KEY_FRAME"@
    } else if frame_type == INTER_FRAME {
        "INTER_FRAME"@
    } else if frame_type == INTRA_ONLY_FRAME {
        "INTRA_ONLY_FRAME"@
    } else if frame_type == SWITCH_FRAME {
        "SWITCH_FRAME"@
    } else {
        "?"@
    }
}

pub(crate) fn frame_type_name(frame_type: u8) -> (r: &'static str)
    ensures
        r@ == name_of_type(frame_type),
{
    if frame_type == KEY_FRAME {
        "KEY_FRAME"
    } else if frame_type == INTER_FRAME {
        "INTER_FRAME"
    } else if frame_type == INTRA_ONLY_FRAME {
        "INTRA_ONLY_FRAME"
    } else if frame_type == SWITCH_FRAME {
        "SWITCH_FRAME"
    } else {
        "?"
    }
}

pub open spec fn is_intra(frame_type: u8) -> bool {
    frame_type == INTRA_ONLY_FRAME || frame_type == KEY_FRAME
}

/// Frames that are error resilient and refresh every slot without saying so.
pub open spec fn is_implicit(frame_type: u8, show_frame: bool) -> bool {
    frame_type == SWITCH_FRAME || (frame_type == KEY_FRAME && show_frame)
}

/// showable_frame and error_resilient_mode.
pub open spec fn resilience_at(c: Cur, frame_type: u8, show_frame: bool) -> ((bool, bool), Cur) {
    let (showable, c) = if show_frame {
        (frame_type != KEY_FRAME, c)
    } else {
        c.flag()
    };
    let (resilient, c) = if is_implicit(frame_type, show_frame) {
        (true, c)
    } else {
        c.flag()
    };
    ((showable, resilient), c)
}

/// The fields from disable_cdf_update to primary_ref_frame.
#[derive(Debug, Clone, Copy, PartialEq, Eq, Structural)]
pub struct Prelude {
    pub disable_cdf_update: bool,
    pub allow_screen_content_tools: bool,
    pub force_integer_mv: bool,
    pub frame_size_override: bool,
    pub order_hint: u64,
    pub primary_ref_frame: u8,
}

/// allow_screen_content_tools and force_integer_mv.
pub open spec fn screen_tools_at(c: Cur, sh: Sections<Seq<OperatingPoint>>) -> ((bool, bool), Cur) {
    let force_sct = sh.tools.inter.screen.seq_force_screen_content_tools;
    let force_imv = sh.tools.inter.screen.seq_force_integer_mv;
    let (allow, c) = if force_sct == SELECT {
        c.flag()
    } else {
        (force_sct == 1, c)
    };
    let (integer, c) = if allow {
        if force_imv == SELECT {
            c.flag()
        } else {
            (force_imv == 1, c)
        }
    } else {
        (false, c)
    };
    ((allow, integer), c)
}

#[verifier::opaque]
pub open spec fn prelude_at(
    c: Cur,
    sh: Sections<Seq<OperatingPoint>>,
    frame_type: u8,
    resilient: bool,
) -> (Prelude, Cur) {
    let (disable_cdf_update, c) = c.flag();
    let ((allow, integer), c) = screen_tools_at(c, sh);
    let (over, c) = if frame_type == SWITCH_FRAME {
        (true, c)
    } else {
        c.flag()
    };
    let (order_hint, c) = c.f(sh.tools.inter.order_hint_bits as nat);
    let (primary, c) = if is_intra(frame_type) || resilient {
        (PRIMARY_REF_NONE as u64, c)
    } else {
        c.f(3)
    };
    (
        Prelude {
            disable_cdf_update,
            allow_screen_content_tools: allow,
            force_integer_mv: integer || is_intra(frame_type),
            frame_size_override: over,
            order_hint,
            primary_ref_frame: primary as u8,
        },
        c,
    )
}

/// buffer_removal_time of each operating point with a decoder model.
pub open spec fn removal_times_at(c: Cur, points: Seq<OperatingPoint>, n: nat) -> Cur
    decreases points.len(),
{
    if points.len() == 0 {
        c
    } else {
        let c = removal_times_at(c, points.drop_last(), n);
        if points.last().decoder_model_present {
            c.f(n).1
        } else {
            c
        }
    }
}

/// buffer_removal_time_present_flag and the removal times, where the stream
/// declares a decoder model.
#[verifier::opaque]
pub open spec fn removal_at(c: Cur, sh: Sections<Seq<OperatingPoint>>) -> Cur {
    let m = sh.timing.model;
    if m.present {
        let (present, c) = c.flag();
        if present {
            removal_times_at(c, sh.points, (m.buffer_removal_time_length_minus_1 + 1) as nat)
        } else {
            c
        }
    } else {
        c
    }
}

pub open spec fn refresh_at(c: Cur, frame_type: u8, show_frame: bool) -> (u8, Cur) {
    if is_implicit(frame_type, show_frame) {
        (0xff, c)
    } else {
        let (flags, c) = c.f(8);
        (flags as u8, c)
    }
}

/// The header of a frame that is coded, after show_existing_frame.
pub open spec fn coded_at(c: Cur, sh: Sections<Seq<OperatingPoint>>) -> (FrameHeaderInfo, Cur) {
    let (ft, c) = c.f(2);
    let (show, c) = c.flag();
    let c = if sh.needs_temporal_point_info() {
        c.fail(Error::FrameUnequalIntervals)
    } else {
        c
    };
    let ((showable, resilient), c) = resilience_at(c, ft as u8, show);
    let (prelude, c) = prelude_at(c, sh, ft as u8, resilient);
    let c = removal_at(c, sh);
    let (refresh, c) = refresh_at(c, ft as u8, show);
    (
        FrameHeaderInfo {
            show_existing_frame: false,
            frame_to_show_map_idx: None,
            frame_type: Some(ft as u8),
            show_frame: show,
            showable_frame: showable,
            order_hint: prelude.order_hint,
            refresh_frame_flags: refresh,
        },
        c,
    )
}

/// The frame header up to refresh_frame_flags.
pub open spec fn info_at(c: Cur, sh: Sections<Seq<OperatingPoint>>) -> (FrameHeaderInfo, Cur) {
    let (existing, c) = c.flag();
    if existing {
        let (idx, c) = c.f(3);
        let c = if sh.needs_temporal_point_info() {
            c.fail(Error::FrameUnequalIntervals)
        } else {
            c
        };
        (
            FrameHeaderInfo {
                show_existing_frame: true,
                frame_to_show_map_idx: Some(idx as u8),
                frame_type: None,
                show_frame: false,
                showable_frame: false,
                order_hint: 0,
                refresh_frame_flags: 0,
            },
            c,
        )
    } else {
        coded_at(c, sh)
    }
}

/// What the header at the front of `payload` says, or why it cannot be read.
pub open spec fn info_of(payload: Seq<u8>, sh: Sections<Seq<OperatingPoint>>) -> Result<
    FrameHeaderInfo,
    Error,
> {
    if sh.reduced {
        Err(Error::FrameReducedStillPicture)
    } else if sh.ids.present {
        Err(Error::FrameWithIds)
    } else {
        bitio::outcome(info_at(Cur::start(payload), sh))
    }
}

/// The slot that a header shows again is one of the eight.
pub proof fn lemma_shown_slot(payload: Seq<u8>, sh: Sections<Seq<OperatingPoint>>)
    requires
        info_of(payload, sh) is Ok,
    ensures
        info_of(payload, sh)->Ok_0.frame_to_show_map_idx matches Some(idx) ==> idx < 8,
{
    let c = Cur::start(payload).flag().1;
    if c.err is None && c.f(3).1.err is None {
        bitio::f_consumes(c, 3);
        vstd::arithmetic::power2::lemma2_to64();
    }
}

pub broadcast proof fn prelude_sticky(
    c: Cur,
    sh: Sections<Seq<OperatingPoint>>,
    frame_type: u8,
    resilient: bool,
)
    requires
        c.err is Some,
    ensures
        (#[trigger] prelude_at(c, sh, frame_type, resilient)).1 == c,
{
    reveal(prelude_at);
}

/// A failure among the first removal times is the failure of all.
proof fn lemma_removal_times_fail(c: Cur, points: Seq<OperatingPoint>, i: int, n: nat)
    requires
        0 <= i <= points.len(),
        removal_times_at(c, points.take(i), n).err is Some,
    ensures
        removal_times_at(c, points, n) == removal_times_at(c, points.take(i), n),
    decreases points.len(),
{
    if i == points.len() {
        assert(points.take(i) =~= points);
    } else {
        assert(points.drop_last().take(i) =~= points.take(i));
        lemma_removal_times_fail(c, points.drop_last(), i, n);
    }
}

pub broadcast proof fn removal_sticky(c: Cur, sh: Sections<Seq<OperatingPoint>>)
    requires
        c.err is Some,
    ensures
        (#[trigger] removal_at(c, sh)) == c,
{
    reveal(removal_at);
}

pub(crate) fn resilience(r: &mut BitReader, frame_type: u8, show_frame: bool) -> (res: Result<
    (bool, bool),
    Error,
>)
    ensures
        bitio::reads(final(r)@, res, resilience_at(old(r)@, frame_type, show_frame)),
{
    broadcast use bitio::lemma_reader_ok;

    let showable = if show_frame {
        frame_type != KEY_FRAME
    } else {
        r.flag()?
    };
    let resilient = if frame_type == SWITCH_FRAME || (frame_type == KEY_FRAME && show_frame) {
        true
    } else {
        r.flag()?
    };
    Ok((showable, resilient))
}

fn screen_tools(r: &mut BitReader, sh: &SequenceHeader) -> (res: Result<(bool, bool), Error>)
    ensures
        bitio::reads(final(r)@, res, screen_tools_at(old(r)@, sh@)),
{
    broadcast use bitio::lemma_reader_ok;

    let allow = if sh.seq_force_screen_content_tools == SELECT {
        r.flag()?
    } else {
        sh.seq_force_screen_content_tools == 1
    };
    let integer = if allow {
        if sh.seq_force_integer_mv == SELECT {
            r.flag()?
        } else {
            sh.seq_force_integer_mv == 1
        }
    } else {
        false
    };
    Ok((allow, integer))
}

pub(crate) fn prelude(
    r: &mut BitReader,
    sh: &SequenceHeader,
    frame_type: u8,
    resilient: bool,
) -> (res: Result<Prelude, Error>)
    ensures
        bitio::reads(final(r)@, res, prelude_at(old(r)@, sh@, frame_type, resilient)),
        res is Ok ==> sh.order_hint_bits <= 64,
{
    proof {
        reveal(prelude_at);
    }
    let disable_cdf_update = r.flag()?;
    let (allow, integer) = screen_tools(r, sh)?;
    let intra = frame_type == INTRA_ONLY_FRAME || frame_type == KEY_FRAME;
    let frame_size_override = if frame_type == SWITCH_FRAME {
        true
    } else {
        r.flag()?
    };
    let order_hint = r.f(sh.order_hint_bits)?;
    let primary: u64 = if intra || resilient {
        PRIMARY_REF_NONE as u64
    } else {
        r.f(3)?
    };
    Ok(
        Prelude {
            disable_cdf_update,
            allow_screen_content_tools: allow,
            force_integer_mv: integer || intra,
            frame_size_override,
            order_hint,
            primary_ref_frame: primary as u8,
        },
    )
}

/// buffer_removal_time_present_flag and what it announces.
pub(crate) fn removal_times(r: &mut BitReader, sh: &SequenceHeader) -> (res: Result<(), Error>)
    ensures
        bitio::skips(final(r)@, res, removal_at(old(r)@, sh@)),
{
    broadcast use bitio::lemma_reader_ok;

    proof {
        reveal(removal_at);
    }
    if !sh.decoder_model_info_present {
        return Ok(());
    }
    let ghost c0 = r@;
    if !r.flag()? {
        return Ok(());
    }
    let n: usize = sh.buffer_removal_time_length_minus_1 as usize + 1;
    let ghost c = r@;
    let ghost points = sh.operating_points@;
    let mut i: usize = 0;
    assert(points.take(0) =~= Seq::empty());
    while i < sh.operating_points.len()
        invariant
            i <= points.len(),
            points == sh.operating_points@,
            r@ == removal_times_at(c, points.take(i as int), n as nat),
            c0 == old(r)@,
            removal_at(c0, sh@) == removal_times_at(c, points, n as nat),
        decreases points.len() - i,
    {
        proof {
            assert(points.take(i + 1).drop_last() =~= points.take(i as int));
            if removal_times_at(c, points.take(i + 1), n as nat).err is Some {
                lemma_removal_times_fail(c, points, i + 1, n as nat);
            }
        }
        if sh.operating_points[i].decoder_model_present {
            r.f(n)?;
        }
        i = i + 1;
    }
    assert(points.take(i as int) =~= points);
    Ok(())
}

pub(crate) fn refresh_flags(r: &mut BitReader, frame_type: u8, show_frame: bool) -> (res: Result<
    u8,
    Error,
>)
    ensures
        bitio::reads(final(r)@, res, refresh_at(old(r)@, frame_type, show_frame)),
{
    broadcast use bitio::lemma_reader_ok;

    if frame_type == SWITCH_FRAME || (frame_type == KEY_FRAME && show_frame) {
        Ok(0xff)
    } else {
        let flags = r.f(8)?;
        Ok(flags as u8)
    }
}

/// Parse the uncompressed header of a frame OBU or frame header OBU payload.
/// `sh` is the sequence header governing this stream.
pub fn parse_frame_header_info(payload: &[u8], sh: &SequenceHeader) -> (res: Result<
    FrameHeaderInfo,
    Error,
>)
    ensures
        res == info_of(payload@, sh@),
{
    broadcast use {bitio::lemma_reader_ok, prelude_sticky, removal_sticky};

    if sh.reduced_still_picture_header {
        return Err(Error::FrameReducedStillPicture);
    }
    if sh.frame_id_numbers_present {
        return Err(Error::FrameWithIds);
    }
    let mut r = BitReader::new(payload);
    if r.flag()? {
        let idx = r.f(3)?;
        if sh.needs_temporal_point_info() {
            return Err(Error::FrameUnequalIntervals);
        }
        // refresh_frame_flags = 0, unless the referenced frame is a KEY_FRAME
        // (resolved by the caller which tracks RefFrameType).
        return Ok(
            FrameHeaderInfo {
                show_existing_frame: true,
                frame_to_show_map_idx: Some(idx as u8),
                frame_type: None,
                show_frame: false,
                showable_frame: false,
                order_hint: 0,
                refresh_frame_flags: 0,
            },
        );
    }
    let ft = r.f(2)?;
    let frame_type = ft as u8;
    let show_frame = r.flag()?;
    if sh.needs_temporal_point_info() {
        return Err(Error::FrameUnequalIntervals);
    }
    let (showable_frame, resilient) = resilience(&mut r, frame_type, show_frame)?;
    let front = prelude(&mut r, sh, frame_type, resilient)?;
    removal_times(&mut r, sh)?;
    let refresh_frame_flags = refresh_flags(&mut r, frame_type, show_frame)?;
    Ok(
        FrameHeaderInfo {
            show_existing_frame: false,
            frame_to_show_map_idx: None,
            frame_type: Some(frame_type),
            show_frame,
            showable_frame,
            order_hint: front.order_hint,
            refresh_frame_flags,
        },
    )
}

} // verus!
