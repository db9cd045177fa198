//! Where each frame of an expanded file comes from.

use vstd::prelude::*;

use crate::api::{self, ExpandParams, IvfView, SegmentInput};
use crate::assemble::gop;
use crate::assemble::playlist;
use crate::assemble::search;
use crate::assemble::{self, AssembleParams, SegmentBytes};
use crate::container;
use crate::model;
use crate::seq_header::Header;

verus! {

/// How many frames the inputs in front of input `s` are shown for.
pub open spec fn shown_before<'a>(inputs: Seq<SegmentInput<'a>>, s: int) -> nat
    decreases s,
{
    if s <= 0 {
        0
    } else {
        shown_before(inputs, s - 1) + inputs[s - 1].frames as nat
    }
}

/// The file that an input is read as.
pub open spec fn read_as(input: SegmentInput) -> IvfView {
    container::input_of(input.ivf@)->Ok_0.ivf
}

/// Whether a segment is the pair that an input is split into.
pub open spec fn splits_into<'a>(input: SegmentInput<'a>, segment: SegmentBytes) -> bool {
    let pair = search::split_of(read_as(input).frames);
    &&& container::input_of(input.ivf@) is Ok
    &&& pair is Ok
    &&& segment.key_tu == pair->Ok_0.0
    &&& segment.golden_tu == pair->Ok_0.1
    &&& segment.frames == input.frames
}

proof fn lemma_one<'a>(input: SegmentInput<'a>, i: usize)
    requires
        api::opened(input@, i) is Ok,
    ensures
        splits_into(input, api::opened(input@, i)->Ok_0.1),
        api::opened(input@, i)->Ok_0.0 == read_as(input),
{
    reveal(api::opened);
}

proof fn lemma_opened<'a>(inputs: Seq<SegmentInput<'a>>, n: int)
    requires
        0 <= n <= inputs.len(),
        api::all_opened(model::views(inputs).take(n)) is Ok,
    ensures
        api::all_opened(model::views(inputs).take(n))->Ok_0.len() == n,
        forall|s: int|
            0 <= s < n ==> splits_into(
                #[trigger] inputs[s],
                api::all_opened(model::views(inputs).take(n))->Ok_0[s],
            ),
    decreases n,
{
    if n > 0 {
        let all = model::views(inputs);
        assert(all.take(n).drop_last() =~= all.take(n - 1));
        lemma_opened(inputs, n - 1);
        assert(all.take(n).last() == inputs[n - 1]@);
        lemma_one(inputs[n - 1], (n - 1) as usize);
        let past = api::all_opened(all.take(n - 1))->Ok_0;
        let done = api::all_opened(all.take(n))->Ok_0;
        assert forall|s: int| 0 <= s < n implies splits_into(#[trigger] inputs[s], done[s]) by {
            if s < n - 1 {
                assert(done[s] == past[s]);
            }
        }
    }
}

proof fn lemma_shown<'a>(inputs: Seq<SegmentInput<'a>>, counts: Seq<u64>, s: int)
    requires
        0 <= s <= inputs.len(),
        counts.len() == inputs.len(),
        forall|i: int| 0 <= i < inputs.len() ==> #[trigger] counts[i] == inputs[i].frames,
    ensures
        shown_before(inputs, s) == gop::segment_start(counts, s),
    decreases s,
{
    if s > 0 {
        lemma_shown(inputs, counts, s - 1);
        assert(counts.take(s).drop_last() =~= counts.take(s - 1));
        assert(counts.take(s).last() == counts[s - 1]);
    } else {
        assert(counts.take(0) =~= Seq::empty());
    }
}

/// Where all inputs are opened, the first one is.
proof fn lemma_first<'a>(inputs: Seq<SegmentInput<'a>>)
    requires
        inputs.len() > 0,
        api::all_opened(model::views(inputs)) is Ok,
    ensures
        api::opened(inputs[0]@, 0) is Ok,
        api::opened(inputs[0]@, 0)->Ok_0.0 == read_as(inputs[0]),
    decreases inputs.len(),
{
    let all = model::views(inputs);
    if inputs.len() > 1 {
        assert(all.drop_last() =~= model::views(inputs.drop_last()));
        lemma_first(inputs.drop_last());
    } else {
        assert(all.last() == inputs[0]@);
        lemma_one(inputs[0], 0);
    }
}

/// Each frame of an expanded file comes from its own input: the frames of input
/// `s` stand behind those of the inputs in front of it, numbered from zero on
/// over the whole file, and frame `j` of them is what the pair that this very
/// input is split into gives. The file has the size of the first input's
/// pictures, and the rate that is asked for, else that of the first input.
pub proof fn expanded_frames_come_from_their_inputs<'a>(
    inputs: Seq<SegmentInput<'a>>,
    p: ExpandParams,
    s: int,
    j: int,
) -> (r: (Header, Header, AssembleParams))
    requires
        api::expanded(model::views(inputs), p) is Ok,
        0 <= s < inputs.len(),
        0 <= j < inputs[s].frames,
    ensures
        ({
            let out = api::expanded(model::views(inputs), p)->Ok_0;
            let (input, sh, q) = r;
            let (key_tu, golden_tu) = search::split_of(read_as(inputs[s]).frames)->Ok_0;
            let at = shown_before(inputs, s);
            &&& container::input_of(inputs[s].ivf@) is Ok
            &&& search::split_of(read_as(inputs[s]).frames) is Ok
            &&& q.gop_size == p.gop_size
            &&& q.decoder_model == p.decoder_model
            &&& playlist::leads_with(
                search::split_of(read_as(inputs[0]).frames)->Ok_0.0,
                input,
            )
            &&& at + j < out.frames.len()
            &&& out.frames.len() == shown_before(inputs, inputs.len() as int)
            &&& out.frames[at + j].0 == (at + j) as u64
            &&& playlist::placed(
                SegmentBytes { key_tu, golden_tu, frames: inputs[s].frames },
                q,
                input,
                sh,
                out.frames[at + j].1,
                out.frames[at + 1int].1,
                j,
            )
            &&& out.width == read_as(inputs[0]).width
            &&& out.height == read_as(inputs[0]).height
            &&& if p.fps is Some && p.fps->Some_0 > 0 {
                &&& out.timebase_den == p.fps->Some_0
                &&& out.timebase_num == 1
                &&& q.fps == p.fps->Some_0
                &&& q.fps_den == 1
            } else {
                let donor = read_as(inputs[0]);
                &&& donor.timebase_den > 0 && donor.timebase_num > 0 ==> {
                    &&& out.timebase_den == donor.timebase_den
                    &&& out.timebase_num == donor.timebase_num
                    &&& q.fps * donor.timebase_num == donor.timebase_den * q.fps_den
                }
                &&& donor.timebase_den == 0 || donor.timebase_num == 0 ==> {
                    &&& out.timebase_den == 30
                    &&& out.timebase_num == 1
                    &&& q.fps == 30
                    &&& q.fps_den == 1
                }
            }
        }),
{
    let all = model::views(inputs);
    let n = inputs.len() as int;
    assert(all.take(n) =~= all);
    lemma_opened(inputs, n);
    let segments = api::all_opened(all)->Ok_0;
    assert(all[0] == inputs[0]@);
    lemma_first(inputs);
    let donor = api::opened(all[0], 0)->Ok_0.0;
    assert(donor == read_as(inputs[0]));
    let q = api::params_for(donor, segments, p);
    let made = assemble::assembled(segments, q)->Ok_0;
    let input = playlist::lemma_from_segments(segments, q, made, s, j);
    let counts = assemble::frame_counts(segments);
    assert forall|i: int| 0 <= i < inputs.len() implies #[trigger] counts[i]
        == inputs[i].frames by {
        assert(splits_into(inputs[i], segments[i]));
    }
    assert(splits_into(inputs[s], segments[s]));
    assert(splits_into(inputs[0], segments[0]));
    lemma_shown(inputs, counts, s);
    lemma_shown(inputs, counts, n);
    assert(counts.take(n) =~= counts);
    let out = api::expanded(all, p)->Ok_0;
    let at = shown_before(inputs, s);
    assert(out.frames[at + j] == ((at + j) as u64, made.tus[at + j]));
    if j % (q.gop_size as int) > 1 {
        vstd::arithmetic::div_mod::lemma_mod_decreases(j as nat, q.gop_size as nat);
        assert(out.frames[at + 1int].1 == made.tus[at + 1int]);
    }
    if donor.timebase_den > 0 && donor.timebase_num > 0 {
        crate::ivf::reduced_is_lowest_terms(donor.timebase_den as nat, donor.timebase_num as nat);
    }
    (input, made.seq_header, q)
}

} // verus!
