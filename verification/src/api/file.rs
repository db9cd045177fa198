//! What an expanded file holds.

use vstd::arithmetic::power2::pow2;
use vstd::prelude::*;

use crate::api::{all_opened, expanded, opened, params_for, ExpandParams, InputBytes, IvfView};
use crate::assemble::{self, gop, search};
use crate::container::{self, annexb, stream, Format};
use crate::error::Error;
use crate::inspect::{self, analyzed, assembled, passing, report};
use crate::ivf;
use crate::model;
use crate::obu;

verus! {

/// The frame counts that were asked for.
pub open spec fn asked_counts(inputs: Seq<InputBytes>) -> Seq<u64> {
    Seq::new(inputs.len(), |i: int| inputs[i].frames)
}

proof fn lemma_opened_counts(inputs: Seq<InputBytes>)
    requires
        all_opened(inputs) is Ok,
    ensures
        assemble::frame_counts(all_opened(inputs)->Ok_0) == asked_counts(inputs),
        inputs.len() > 0 ==> opened(inputs[0], 0) is Ok,
    decreases inputs.len(),
{
    if inputs.len() > 0 {
        reveal(opened);
        let front = inputs.drop_last();
        lemma_opened_counts(front);
        let done = all_opened(front)->Ok_0;
        let (_, segment) = opened(inputs.last(), (inputs.len() - 1) as usize)->Ok_0;
        assert(assemble::frame_counts(done).len() == front.len());
        assert forall|k: int| 0 <= k < front.len() implies done[k].frames == inputs[k].frames by {
            assert(assemble::frame_counts(done)[k] == asked_counts(front)[k]);
        }
        assert(assemble::frame_counts(done.push(segment)) =~= asked_counts(inputs));
        if front.len() > 0 {
            assert(front[0] == inputs[0]);
        }
    }
}

/// The file that expanding writes reads back as what was owed: as many packets
/// as frames were asked for, in the order of their timestamps from zero, for
/// packets whose size fits its field.
pub proof fn expanded_file_reads_back(inputs: Seq<InputBytes>, p: ExpandParams)
    requires
        expanded(inputs, p) is Ok,
        forall|i: int|
            0 <= i < expanded(inputs, p)->Ok_0.frames.len() ==> (
            #[trigger] expanded(inputs, p)->Ok_0.frames[i]).1.len() <= u32::MAX,
    ensures
        ({
            let file = expanded(inputs, p)->Ok_0;
            &&& ivf::ivf_of(ivf::ivf_bytes(file)) == Ok::<IvfView, Error>(file)
            &&& file.frames.len() == gop::total(asked_counts(inputs))
            &&& forall|i: int| 0 <= i < file.frames.len() ==> (#[trigger] file.frames[i]).0 == i
        }),
{
    let file = expanded(inputs, p)->Ok_0;
    let segments = all_opened(inputs)->Ok_0;
    lemma_opened_counts(inputs);
    let counts = assemble::frame_counts(segments);
    gop::plan_has_every_frame(counts, p.gop_size);
    expanded_file_has_a_rate(inputs, p);
    ivf::ivf_round_trip(file);
}

/// Output never carries a zero rate.
pub proof fn expanded_file_has_a_rate(inputs: Seq<InputBytes>, p: ExpandParams)
    requires
        expanded(inputs, p) is Ok,
    ensures
        expanded(inputs, p)->Ok_0.timebase_den != 0,
        expanded(inputs, p)->Ok_0.timebase_num != 0,
{
    reveal(opened);
    lemma_opened_counts(inputs);
    container::read_input_has_a_rate(inputs[0].ivf);
}

/// Inputs whose pairs are sound expand into a file that passes every check.
pub proof fn expanded_file_passes_the_checks(inputs: Seq<InputBytes>, p: ExpandParams)
    requires
        expanded(inputs, p) is Ok,
        passing::all_sound(all_opened(inputs)->Ok_0),
    ensures
        ({
            let rep = inspect::report_of(expanded(inputs, p)->Ok_0.frames);
            rep is Ok && assembled::all_hold(report::checks_of(rep->Ok_0))
        }),
{
    let segments = all_opened(inputs)->Ok_0;
    let donor = opened(inputs[0], 0)->Ok_0.0;
    passing::assembled_streams_pass_the_checks(segments, params_for(donor, segments, p));
}

/// An expanded file that can be analyzed passes every check, where the pairs
/// have one frame in each temporal unit and the goldens predict from others.
pub proof fn analyzed_file_passes_the_checks(inputs: Seq<InputBytes>, p: ExpandParams)
    requires
        expanded(inputs, p) is Ok,
        analyzed::all_plain(all_opened(inputs)->Ok_0),
        inspect::report_of(expanded(inputs, p)->Ok_0.frames) is Ok,
    ensures
        assembled::all_hold(
            report::checks_of(inspect::report_of(expanded(inputs, p)->Ok_0.frames)->Ok_0),
        ),
{
    let segments = all_opened(inputs)->Ok_0;
    let donor = opened(inputs[0], 0)->Ok_0.0;
    analyzed::analyzed_streams_pass_the_checks(segments, params_for(donor, segments, p));
}

/// One input, to be shown for some frames.
pub open spec fn one_input(data: Seq<u8>, frames: u64) -> Seq<InputBytes> {
    seq![InputBytes { ivf: data, frames }]
}

/// Whether two files hold the same temporal units and geometry and, where no
/// rate is asked for, the same timebase.
pub open spec fn same_video(x: IvfView, y: IvfView, p: ExpandParams) -> bool {
    &&& ivf::units(x.frames) == ivf::units(y.frames)
    &&& x.width == y.width
    &&& x.height == y.height
    &&& (p.fps matches Some(f) && f > 0) || (x.timebase_den == y.timebase_den && x.timebase_num
        == y.timebase_num)
}

proof fn lemma_same_video(a: Seq<u8>, b: Seq<u8>, frames: u64, p: ExpandParams)
    requires
        container::input_of(a) is Ok,
        container::input_of(b) is Ok,
        same_video(container::input_of(a)->Ok_0.ivf, container::input_of(b)->Ok_0.ivf, p),
    ensures
        expanded(one_input(a, frames), p) == expanded(one_input(b, frames), p),
{
    reveal_with_fuel(all_opened, 2);
    reveal(opened);
    let x = one_input(a, frames);
    let y = one_input(b, frames);
    assert(x.drop_last() =~= Seq::empty());
    assert(y.drop_last() =~= Seq::empty());
    let f = container::input_of(a)->Ok_0.ivf;
    let g = container::input_of(b)->Ok_0.ivf;
    assert(ivf::units(f.frames).len() == ivf::units(g.frames).len());
    assert forall|i: int| 0 <= i < f.frames.len() implies f.frames[i].1 == g.frames[i].1 by {
        assert(ivf::units(f.frames)[i] == ivf::units(g.frames)[i]);
    }
    assert(search::scanned_tus(f.frames) =~= search::scanned_tus(g.frames));
    assert(search::split_of(f.frames) == search::split_of(g.frames));
    assert(all_opened(x) == all_opened(y));
}

/// An IVF file of temporal units that stray no delimiter reads as it is, with
/// its timebase set.
proof fn lemma_ivf_input(units: Seq<stream::Unit>, f: IvfView)
    requires
        forall|i: int| 0 <= i < units.len() ==> stream::only_leading_td(#[trigger] units[i]),
        forall|i: int, k: int|
            0 <= i < units.len() && 0 <= k < units[i].len() ==> (
            #[trigger] units[i][k]).payload.len() < pow2(56),
        ivf::units(f.frames) == obu::written(units),
        forall|i: int| 0 <= i < f.frames.len() ==> (#[trigger] f.frames[i]).1.len() <= u32::MAX,
    ensures
        container::input_of(ivf::ivf_bytes(f)) is Ok,
        ({
            let found = container::input_of(ivf::ivf_bytes(f))->Ok_0.ivf;
            &&& found.frames == f.frames
            &&& found.width == f.width
            &&& found.height == f.height
            &&& (found.timebase_den, found.timebase_num) == ivf::timebase_of(
                f.timebase_den,
                f.timebase_num,
            )
        }),
{
    ivf::ivf_round_trip(f);
    assert(ivf::ivf_bytes(f).subrange(0, 4) =~= ivf::dkif());
    assert(ivf::units(f.frames).len() == f.frames.len());
    assert forall|i: int| 0 <= i < f.frames.len() implies container::canonicalized(
        (#[trigger] f.frames[i]).1,
    ) == f.frames[i].1 by {
        let u = units[i];
        assert(ivf::units(f.frames)[i] == obu::obus_bytes(u));
        assert forall|k: int| 0 <= k < u.len() implies (#[trigger] u[k]).payload.len() < pow2(
            56,
        ) by {
            assert(units[i][k].payload.len() < pow2(56));
        }
        obu::obus_round_trip(u);
    }
    assert(container::canonical_packets(f.frames) =~= f.frames);
}

/// Whether an IVF file holds these temporal units, with the geometry and, where
/// no rate is asked for, the timebase that they have as a stream of their own.
pub open spec fn holds_units(f: IvfView, units: Seq<stream::Unit>, p: ExpandParams) -> bool {
    let alone = container::finished(obu::written(units), Format::Obu)->Ok_0.ivf;
    &&& same_video(f, alone, p)
    &&& forall|i: int| 0 <= i < f.frames.len() ==> (#[trigger] f.frames[i]).1.len() <= u32::MAX
}

/// The container does not matter: temporal units expand to the same file, or
/// fail the same way, whether they come as an OBU stream, with delimiters or
/// without, or in an IVF file.
pub proof fn obu_streams_expand_like_ivf(
    units: Seq<stream::Unit>,
    f: IvfView,
    frames: u64,
    p: ExpandParams,
)
    requires
        stream::told_apart(units),
        forall|i: int, k: int|
            0 <= i < units.len() && 0 <= k < units[i].len() ==> (
            #[trigger] units[i][k]).payload.len() < pow2(56),
        container::only_a_stream(units),
        container::finished(obu::written(units), Format::Obu) is Ok,
        holds_units(f, units, p),
    ensures
        expanded(one_input(model::concat(obu::written(units)), frames), p) == expanded(
            one_input(ivf::ivf_bytes(f), frames),
            p,
        ),
{
    let data = model::concat(obu::written(units));
    container::obu_stream_reads_back(units);
    container::read_input_has_a_rate(data);
    lemma_numbered_units(obu::written(units));
    lemma_ivf_input(units, f);
    lemma_same_video(data, ivf::ivf_bytes(f), frames, p);
}

proof fn lemma_numbered_units(tus: Seq<Seq<u8>>)
    ensures
        ivf::units(ivf::numbered(tus)) == tus,
{
    assert(ivf::units(ivf::numbered(tus)) =~= tus);
}

/// The container does not matter: temporal units expand to the same file, or
/// fail the same way, whether they come as Annex-B or in an IVF file, for bytes
/// that pass for no other container.
pub proof fn annexb_expands_like_ivf(
    units: Seq<stream::Unit>,
    f: IvfView,
    frames: u64,
    p: ExpandParams,
)
    requires
        forall|i: int| 0 <= i < units.len() ==> stream::only_leading_td(#[trigger] units[i]),
        forall|i: int| 0 <= i < units.len() ==> annexb::sizes_fit(#[trigger] units[i]),
        forall|i: int, k: int|
            0 <= i < units.len() && 0 <= k < units[i].len() ==> (
            #[trigger] units[i][k]).payload.len() < pow2(56),
        !container::tagged(annexb::annexb_bytes(units), 0, ivf::dkif()),
        !container::tagged(annexb::annexb_bytes(units), 4, container::ftyp()),
        !container::tagged(annexb::annexb_bytes(units), 0, container::ebml()),
        container::stream_input(annexb::annexb_bytes(units)) is None,
        container::finished(obu::written(units), Format::AnnexB) is Ok,
        holds_units(f, units, p),
    ensures
        expanded(one_input(annexb::annexb_bytes(units), frames), p) == expanded(
            one_input(ivf::ivf_bytes(f), frames),
            p,
        ),
{
    let data = annexb::annexb_bytes(units);
    container::annexb_reads_back(units);
    container::read_input_has_a_rate(data);
    lemma_numbered_units(obu::written(units));
    lemma_ivf_input(units, f);
    lemma_same_video(data, ivf::ivf_bytes(f), frames, p);
}

/// The container does not matter: the same temporal units expand to the same
/// file, or fail the same way, whether they come as an OBU stream or as
/// Annex-B, for bytes that pass for no other container.
pub proof fn containers_expand_alike(units: Seq<stream::Unit>, frames: u64, p: ExpandParams)
    requires
        stream::told_apart(units),
        forall|i: int| 0 <= i < units.len() ==> annexb::sizes_fit(#[trigger] units[i]),
        forall|i: int, k: int|
            0 <= i < units.len() && 0 <= k < units[i].len() ==> (
            #[trigger] units[i][k]).payload.len() < pow2(56),
        container::only_a_stream(units),
        !container::tagged(annexb::annexb_bytes(units), 0, ivf::dkif()),
        !container::tagged(annexb::annexb_bytes(units), 4, container::ftyp()),
        !container::tagged(annexb::annexb_bytes(units), 0, container::ebml()),
        container::stream_input(annexb::annexb_bytes(units)) is None,
        container::finished(obu::written(units), Format::Obu) is Ok,
    ensures
        expanded(one_input(model::concat(obu::written(units)), frames), p) == expanded(
            one_input(annexb::annexb_bytes(units), frames),
            p,
        ),
{
    container::obu_stream_reads_back(units);
    container::annexb_reads_back(units);
    lemma_same_video(
        model::concat(obu::written(units)),
        annexb::annexb_bytes(units),
        frames,
        p,
    );
}

} // verus!
