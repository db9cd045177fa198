//! Stable crate-level API: the pure bytes-in → bytes-out transform.
//!
//! This is the contract that any in-process embedding builds on. Everything
//! here works on byte buffers — no filesystem, no ffmpeg.

use vstd::prelude::*;

use crate::assemble::scan::TuNote;
use crate::assemble::search;
use crate::assemble::{
    self, assemble_multi, gop, split_input, to_ivf, AssembleError, AssembleParams, Segment,
    SegmentBytes, SplitError,
};
use crate::container::{self, ContainerError};
use crate::error;
use crate::ivf::{self, IvfFile};
use crate::model;
use crate::text;

pub mod file;
pub mod origin;

verus! {

/// Parameters for [`expand_ivf`] / [`expand_ivf_multi`].
#[derive(Debug, Clone, Copy)]
pub struct ExpandParams {
    /// Output frame rate. `None` (or 0) keeps the input timebase — the
    /// exact rational, e.g. 30000/1001 for NTSC sources.
    pub fps: Option<u32>,
    /// Total output frame count.
    pub total_frames: u64,
    /// Frames per GOP = distance between keyframes = seek granularity.
    pub gop_size: u64,
    /// Declare decoder_model_info() in the sequence header (rewrites the
    /// real frames' headers; costs ~1 bit/frame).
    pub decoder_model: bool,
}

/// One input segment for [`expand_ivf_multi`]: an encoded input (keyframe +
/// golden frames) plus how many output frames it is shown for.
#[derive(Debug, Clone, Copy)]
pub struct SegmentInput<'a> {
    /// Complete input bytes: IVF, low-overhead OBU, or Annex-B (scanned for
    /// an anchor keyframe TU + golden TU pair).
    pub ivf: &'a [u8],
    /// Output frame count for this segment.
    pub frames: u64,
}

/// The view of a `SegmentInput`.
pub struct InputBytes {
    pub ivf: Seq<u8>,
    pub frames: u64,
}

impl<'a> View for SegmentInput<'a> {
    type V = InputBytes;

    open spec fn view(&self) -> InputBytes {
        InputBytes { ivf: self.ivf@, frames: self.frames }
    }
}

/// Why nothing was expanded.
#[derive(Debug)]
pub enum ExpandError<S = SplitError> {
    NoSegments,
    /// A segment's input cannot be read.
    Read { segment: usize, cause: ContainerError },
    /// A segment's input holds no usable pair.
    Split { segment: usize, trouble: S },
    Assemble(AssembleError),
}

/// The model of an error.
pub type ExpandErrorView = ExpandError<SplitError<Seq<TuNote>>>;

impl View for ExpandError {
    type V = ExpandErrorView;

    open spec fn view(&self) -> ExpandErrorView {
        match *self {
            ExpandError::NoSegments => ExpandError::NoSegments,
            ExpandError::Read { segment, cause } => ExpandError::Read { segment, cause },
            ExpandError::Split { segment, trouble } => ExpandError::Split {
                segment,
                trouble: trouble@,
            },
            ExpandError::Assemble(e) => ExpandError::Assemble(e),
        }
    }
}

impl ExpandErrorView {
    /// What went wrong, without its cause.
    pub open spec fn text(self) -> Seq<char> {
        match self {
            ExpandError::NoSegments => "no input segments"@,
            ExpandError::Read { segment, .. } => "parsing segment "@ + text::number(segment as nat)
                + " input"@,
            ExpandError::Split { segment, .. } => "splitting segment "@ + text::number(
                segment as nat,
            ) + " input"@,
            ExpandError::Assemble(e) => e.text(),
        }
    }

    /// What went wrong, with its cause.
    pub open spec fn full(self) -> Seq<char> {
        match self {
            ExpandError::NoSegments => self.text(),
            ExpandError::Read { cause, .. } => error::caused(self.text(), cause.full()),
            ExpandError::Split { trouble, .. } => error::caused(self.text(), trouble.text()),
            ExpandError::Assemble(e) => e.full(),
        }
    }
}

fn about_segment(what: &str, segment: usize) -> (r: String)
    ensures
        r@ == what@ + text::number(segment as nat) + " input"@,
{
    let mut s = String::from_str(what);
    text::put_number(&mut s, segment as u64);
    s.append(" input");
    s
}

impl ExpandError {
    /// What went wrong, without its cause.
    pub fn message(&self) -> (r: String)
        ensures
            r@ == self@.text(),
    {
        match self {
            ExpandError::NoSegments => String::from_str("no input segments"),
            ExpandError::Read { segment, .. } => about_segment("parsing segment ", *segment),
            ExpandError::Split { segment, .. } => about_segment("splitting segment ", *segment),
            ExpandError::Assemble(e) => e.message(),
        }
    }

    /// What went wrong, with its cause.
    pub fn chain(&self) -> (r: String)
        ensures
            r@ == self@.full(),
    {
        match self {
            ExpandError::NoSegments => self.message(),
            ExpandError::Read { cause, .. } => error::caused_text(self.message(), &cause.chain()),
            ExpandError::Split { trouble, .. } => error::caused_text(
                self.message(),
                &trouble.message(),
            ),
            ExpandError::Assemble(e) => e.chain(),
        }
    }
}

// ---------- what expanding gives ----------

/// The model of a normalized input.
pub type IvfView = IvfFile<Seq<(u64, Seq<u8>)>>;

/// The input of segment `i` and the pair that it is made of.
#[verifier::opaque]
pub open spec fn opened(input: InputBytes, i: usize) -> Result<
    (IvfView, SegmentBytes),
    ExpandErrorView,
> {
    match container::input_of(input.ivf) {
        Err(cause) => Err(ExpandError::Read { segment: i, cause }),
        Ok(found) => match search::split_of(found.ivf.frames) {
            Err(trouble) => Err(ExpandError::Split { segment: i, trouble }),
            Ok((key_tu, golden_tu)) => Ok(
                (found.ivf, SegmentBytes { key_tu, golden_tu, frames: input.frames }),
            ),
        },
    }
}

/// The pairs of all segments.
pub open spec fn all_opened(inputs: Seq<InputBytes>) -> Result<Seq<SegmentBytes>, ExpandErrorView>
    decreases inputs.len(),
{
    if inputs.len() == 0 {
        Ok(Seq::empty())
    } else {
        match all_opened(inputs.drop_last()) {
            Err(e) => Err(e),
            Ok(done) => match opened(inputs.last(), (inputs.len() - 1) as usize) {
                Err(e) => Err(e),
                Ok((_, segment)) => Ok(done.push(segment)),
            },
        }
    }
}

/// The frame rate of the output: the one asked for, else that of the input.
pub open spec fn rate_for(donor: IvfView, fps: Option<u32>) -> (u32, u32) {
    match fps {
        Some(f) if f > 0 => (f, 1),
        _ => (donor.frame_rate().0 as u32, donor.frame_rate().1 as u32),
    }
}

/// The sum of the frame counts, as far as 64 bits hold it.
pub open spec fn saturated_total(counts: Seq<u64>) -> u64 {
    if gop::total(counts) > u64::MAX {
        u64::MAX
    } else {
        gop::total(counts) as u64
    }
}

/// The parameters that the segments are assembled with.
pub open spec fn params_for(donor: IvfView, segments: Seq<SegmentBytes>, p: ExpandParams) -> AssembleParams {
    AssembleParams {
        fps: rate_for(donor, p.fps).0,
        fps_den: rate_for(donor, p.fps).1,
        total_frames: saturated_total(assemble::frame_counts(segments)),
        gop_size: p.gop_size,
        decoder_model: p.decoder_model,
    }
}

/// The expanded stream: the segments' pairs assembled, in an IVF file with the
/// geometry of the first input.
pub open spec fn expanded(inputs: Seq<InputBytes>, p: ExpandParams) -> Result<
    IvfView,
    ExpandErrorView,
> {
    if inputs.len() == 0 {
        Err(ExpandError::NoSegments)
    } else {
        match all_opened(inputs) {
            Err(e) => Err(e),
            Ok(segments) => {
                let donor = opened(inputs[0], 0)->Ok_0.0;
                match assemble::assembled(segments, params_for(donor, segments, p)) {
                    Err(e) => Err(ExpandError::Assemble(e)),
                    Ok(out) => Ok(assemble::ivf_with(donor, out.tus, p.fps)),
                }
            },
        }
    }
}

/// How the bytes of a file relate to the file owed.
pub open spec fn gives_file(
    res: Result<Vec<u8>, ExpandError>,
    owed: Result<IvfView, ExpandErrorView>,
) -> bool {
    match res {
        Ok(bytes) => owed is Ok && bytes@ == ivf::ivf_bytes(owed->Ok_0),
        Err(e) => owed == Err::<IvfView, ExpandErrorView>(e@),
    }
}

/// Expand a short encode into a long static-video AV1 stream.
///
/// `input` is a complete IVF file, low-overhead OBU stream, or Annex-B
/// stream; its leading temporal units are scanned for the anchor TU
/// (sequence header + shown keyframe) and the golden TU (the shown non-key
/// frame coded directly after it — see `assemble::split_input`). Returns a
/// complete IVF file containing the expanded temporal units.
pub fn expand_ivf(input: &[u8], params: &ExpandParams) -> (res: Result<Vec<u8>, ExpandError>)
    ensures
        gives_file(
            res,
            expanded(
                seq![(InputBytes { ivf: input@, frames: params.total_frames })],
                *params,
            ),
        ),
{
    let segments: [SegmentInput; 1] = [SegmentInput { ivf: input, frames: params.total_frames }];
    assert(model::views(segments@) =~= seq![
        InputBytes { ivf: input@, frames: params.total_frames },
    ]);
    expand_ivf_multi(&segments, params)
}

/// A segment's pair with its frame count.
struct Pair {
    key_tu: Vec<u8>,
    golden_tu: Vec<u8>,
    frames: u64,
}

impl View for Pair {
    type V = SegmentBytes;

    closed spec fn view(&self) -> SegmentBytes {
        SegmentBytes {
            key_tu: self.key_tu@,
            golden_tu: self.golden_tu@,
            frames: self.frames,
        }
    }
}

fn open_segment(input: &SegmentInput, i: usize) -> (res: Result<(IvfFile, Pair), ExpandError>)
    ensures
        match res {
            Ok((f, pair)) => opened(input@, i) == Ok::<(IvfView, SegmentBytes), ExpandErrorView>(
                (f@, pair@),
            ),
            Err(e) => opened(input@, i) == Err::<(IvfView, SegmentBytes), ExpandErrorView>(e@),
        },
{
    proof {
        reveal(opened);
    }
    let found = match container::read(input.ivf) {
        Ok(found) => found,
        Err(cause) => return Err(ExpandError::Read { segment: i, cause }),
    };
    let (key_tu, golden_tu) = match split_input(&found.ivf) {
        Ok(pair) => pair,
        Err(trouble) => return Err(ExpandError::Split { segment: i, trouble }),
    };
    Ok((found.ivf, Pair { key_tu, golden_tu, frames: input.frames }))
}

proof fn lemma_opening_stops(inputs: Seq<InputBytes>, i: int)
    requires
        0 <= i <= inputs.len(),
        all_opened(inputs.take(i)) is Err,
    ensures
        all_opened(inputs) == all_opened(inputs.take(i)),
    decreases inputs.len(),
{
    if i == inputs.len() {
        assert(inputs.take(i) =~= inputs);
    } else {
        assert(inputs.drop_last().take(i) =~= inputs.take(i));
        lemma_opening_stops(inputs.drop_last(), i);
    }
}

/// Read every segment's input and split it.
fn open_all(segments: &[SegmentInput]) -> (res: Result<(IvfFile, Vec<Pair>), ExpandError>)
    requires
        segments@.len() > 0,
    ensures
        match res {
            Ok((donor, pairs)) => {
                &&& all_opened(model::views(segments@)) == Ok::<Seq<SegmentBytes>, ExpandErrorView>(
                    model::views(pairs@),
                )
                &&& opened(segments@[0]@, 0) is Ok
                &&& donor@ == opened(segments@[0]@, 0)->Ok_0.0
            },
            Err(e) => all_opened(model::views(segments@)) == Err::<
                Seq<SegmentBytes>,
                ExpandErrorView,
            >(e@),
        },
{
    let ghost all = model::views(segments@);
    proof {
        reveal_with_fuel(all_opened, 2);
        assert(all.take(1).drop_last() =~= Seq::empty());
        assert(all[0] == segments@[0]@);
    }
    let (donor, first) = match open_segment(&segments[0], 0) {
        Ok(found) => found,
        Err(e) => {
            proof {
                lemma_opening_stops(all, 1);
            }
            return Err(e);
        },
    };
    let mut pairs: Vec<Pair> = Vec::new();
    pairs.push(first);
    assert(model::views(pairs@) =~= Seq::empty().push(first@));
    let mut i: usize = 1;
    while i < segments.len()
        invariant
            1 <= i <= segments@.len(),
            all == model::views(segments@),
            all_opened(all.take(i as int)) == Ok::<Seq<SegmentBytes>, ExpandErrorView>(
                model::views(pairs@),
            ),
        decreases segments@.len() - i,
    {
        let ghost done = model::views(pairs@);
        proof {
            assert(all.take(i + 1).drop_last() =~= all.take(i as int));
            assert(all[i as int] == segments@[i as int]@);
        }
        match open_segment(&segments[i], i) {
            Ok((_, pair)) => {
                pairs.push(pair);
                assert(model::views(pairs@) =~= done.push(pair@));
            },
            Err(e) => {
                proof {
                    lemma_opening_stops(all, i + 1);
                }
                return Err(e);
            },
        }
        i = i + 1;
    }
    assert(all.take(i as int) =~= all);
    Ok((donor, pairs))
}

/// The pairs as segments, and the sum of their frame counts.
fn as_segments<'a>(pairs: &'a Vec<Pair>) -> (r: (Vec<Segment<'a>>, u64))
    ensures
        assemble::segment_views(r.0@) == model::views(pairs@),
        r.1 == saturated_total(assemble::frame_counts(model::views(pairs@))),
{
    let ghost all = model::views(pairs@);
    let ghost counts = assemble::frame_counts(all);
    let mut segs: Vec<Segment<'a>> = Vec::new();
    let mut total: u64 = 0;
    let mut i: usize = 0;
    assert(counts.take(0) =~= Seq::empty());
    while i < pairs.len()
        invariant
            i <= pairs@.len(),
            segs@.len() == i,
            all == model::views(pairs@),
            counts == assemble::frame_counts(all),
            forall|k: int| 0 <= k < i ==> (#[trigger] segs@[k])@ == all[k],
            total == saturated_total(counts.take(i as int)),
        decreases pairs@.len() - i,
    {
        let pair = &pairs[i];
        proof {
            assert(all[i as int] == pair@);
            assert(counts.take(i + 1).drop_last() =~= counts.take(i as int));
            assert(counts[i as int] == pair.frames);
        }
        segs.push(
            Segment { key_tu: &pair.key_tu, golden_tu: &pair.golden_tu, frames: pair.frames },
        );
        // saturating: assemble_multi validates the total; an unsaturating
        // sum could overflow before the check runs.
        total = total.saturating_add(pair.frames);
        i = i + 1;
    }
    assert(counts.take(i as int) =~= counts);
    assert(assemble::segment_views(segs@) =~= all);
    (segs, total)
}

/// Multi-segment variant: each `SegmentInput` becomes a display segment.
/// All inputs must share a byte-identical sequence-header payload (same
/// dimensions/encoder settings); every segment boundary is a shown keyframe.
/// Total output frames = the sum of segment frame counts; it must be >= 2
/// and <= `assemble::MAX_TOTAL_FRAMES`, and every segment needs >= 1 frame.
#[verifier::rlimit(40)]
pub fn expand_ivf_multi(segments: &[SegmentInput], params: &ExpandParams) -> (res: Result<
    Vec<u8>,
    ExpandError,
>)
    ensures
        gives_file(res, expanded(model::views(segments@), *params)),
{
    if segments.len() == 0 {
        return Err(ExpandError::NoSegments);
    }
    let (donor, pairs) = open_all(segments)?;
    assert(model::views(segments@)[0] == segments@[0]@);
    let (segs, total_frames) = as_segments(&pairs);
    let (fps, fps_den): (u32, u32) = match params.fps {
        Some(f) if f > 0 => (f, 1),
        _ => donor.rate(),
    };
    let assemble_params = AssembleParams {
        fps,
        fps_den,
        total_frames,
        gop_size: params.gop_size,
        decoder_model: params.decoder_model,
    };
    match assemble_multi(&segs, &assemble_params) {
        Ok(out) => {
            let file = to_ivf(&donor, out.tus, params.fps);
            Ok(ivf::write(&file))
        },
        Err(e) => Err(ExpandError::Assemble(e)),
    }
}

} // verus!
