//! Which inputs make streams that pass the checks.

use vstd::prelude::*;

use crate::assemble::gop;
use crate::assemble::{self, AssembleParams, Prepared, SegmentBytes};
use crate::container::stream;
use crate::error::Error;
use crate::frame_header::KEY_FRAME;
use crate::inspect::assembled;
use crate::inspect::{self, report, single};
use crate::ivf;
use crate::obu::{self, Obu, ObuType};
use crate::seq_header::{self, Header};
use crate::uheader::rescan;
use crate::uheader::shift;
use crate::uheader::{self, HeaderScan, RefSlot};

verus! {

/// A segment as it was handed in.
pub open spec fn untouched(segment: SegmentBytes) -> Prepared<Seq<u8>> {
    Prepared {
        key_tu: segment.key_tu,
        golden_tu: segment.golden_tu,
        show_tu: Seq::empty(),
        golden_slot: 0,
        frames: segment.frames,
    }
}

/// Whether the bits of a temporal unit can be counted, with one more.
pub open spec fn fits(tu: Seq<u8>) -> bool {
    8 * tu.len() < usize::MAX
}

proof fn lemma_single(tu: Seq<u8>, obus: stream::Unit, f: int, payload: Seq<u8>)
    requires
        obu::obus_of(tu) == Ok::<stream::Unit, Error>(obus),
        assembled::lone_frame(obus, f),
        assembled::repeats(obus, payload),
    ensures
        assembled::single(tu, payload),
        assembled::frame_at(obus) == f,
        assembled::frame_payload(tu) == obus[f].payload,
{
    let g = assembled::frame_at(obus);
    assert(assembled::lone_frame(obus, g));
    if g != f {
        assert(!stream::is_frame(obus[f]));
    }
}

/// The same types in the same places.
pub open spec fn same_types(a: stream::Unit, b: stream::Unit) -> bool {
    a.len() == b.len() && forall|i: int|
        0 <= i < a.len() ==> (#[trigger] a[i]).obu_type == b[i].obu_type
}

proof fn lemma_same_types(a: stream::Unit, b: stream::Unit, f: int)
    requires
        same_types(a, b),
        assembled::lone_frame(a, f),
    ensures
        assembled::lone_frame(b, f),
        assemble::has_header(a.take(f)) ==> assemble::has_header(b.take(f)),
{
    assert(a[f].obu_type == b[f].obu_type);
    assert forall|i: int| 0 <= i < b.len() && i != f implies !stream::is_frame(#[trigger] b[i]) by {
        assert(!stream::is_frame(a[i]));
    }
    if assemble::has_header(a.take(f)) {
        let h = a.take(f);
        let i = choose|i: int|
            0 <= i < h.len() && (#[trigger] h[i]).obu_type == ObuType::SequenceHeader;
        assert(h[i] == a[i]);
        assert(b.take(f)[i].obu_type == ObuType::SequenceHeader);
    }
}

/// A temporal unit with its sequence headers replaced, or replaced if any.
pub open spec fn reheaded_unit(tu: Seq<u8>, new: Seq<u8>, if_any: bool) -> Result<Seq<u8>, Error> {
    if if_any {
        assemble::header_replaced_if_any(tu, new)
    } else {
        assemble::header_replaced(tu, new)
    }
}

/// A temporal unit of one frame stays one when its sequence headers are
/// replaced, where it can still be split, and the frame stays as it is.
pub proof fn lemma_reheaded_unit(tu: Seq<u8>, new: Seq<u8>, if_any: bool)
    requires
        single::one_frame(tu),
        obu::obus_of(reheaded_unit(tu, new, if_any)->Ok_0) is Ok,
    ensures
        ({
            let out = reheaded_unit(tu, new, if_any)->Ok_0;
            &&& assembled::single(out, new)
            &&& assembled::frame_payload(out) == assembled::frame_payload(tu)
            &&& assembled::headed(tu) ==> assembled::headed(out)
        }),
{
    let obus = obu::obus_of(tu)->Ok_0;
    let f = assembled::frame_at(obus);
    assert(assembled::lone_frame(obus, f));
    let after = assemble::with_header(obus, new);
    let out = reheaded_unit(tu, new, if_any)->Ok_0;
    if if_any && !assemble::has_header(obus) {
        assert(after =~= obus);
    } else {
        obu::what_is_split_is_what_was_written(after);
    }
    lemma_same_types(obus, after, f);
    lemma_single(out, after, f, new);
}

/// The frame with the flag put in.
pub open spec fn flagged_frame(payload: Seq<u8>, sh: Header, slots: Seq<RefSlot>) -> Result<
    Seq<u8>,
    Error,
> {
    let s = uheader::scan_of(payload, sh, slots)->Ok_0;
    uheader::splice_of(payload, s.removal_insert_pos as int, s.end_pos as int, seq![false])
}

/// Putting the flag in changes the only frame and nothing else.
proof fn lemma_flagged(obus: stream::Unit, f: int, n: int, sh: Header, slots: Seq<RefSlot>)
    requires
        assembled::lone_frame(obus, f),
        0 <= n <= obus.len(),
        assemble::flagged(obus.take(n), sh, slots) is Ok,
    ensures
        n <= f ==> assemble::flagged(obus.take(n), sh, slots) == Ok::<
            (stream::Unit, Seq<RefSlot>),
            Error,
        >((obus.take(n), slots)),
        n > f ==> {
            let scan = uheader::scan_of(obus[f].payload, sh, slots);
            let out = flagged_frame(obus[f].payload, sh, slots);
            &&& scan is Ok
            &&& out is Ok
            &&& assemble::flagged(obus.take(n), sh, slots) == Ok::<
                (stream::Unit, Seq<RefSlot>),
                Error,
            >(
                (
                    obus.take(n).update(f, Obu { payload: out->Ok_0, ..obus[f] }),
                    uheader::slots_after(slots, scan->Ok_0),
                ),
            )
        },
    decreases n,
{
    let part = obus.take(n);
    if n == 0 {
        assert(part =~= Seq::empty());
    } else {
        assert(part.drop_last() =~= obus.take(n - 1));
        assert(part.last() == obus[n - 1]);
        lemma_flagged(obus, f, n - 1, sh, slots);
        let front = obus.take(n - 1);
        if n - 1 < f {
            assert(!stream::is_frame(obus[n - 1]));
            assert(front.push(obus[n - 1]) =~= part);
        } else {
            let out = flagged_frame(obus[f].payload, sh, slots)->Ok_0;
            let o = Obu { payload: out, ..obus[f] };
            if n - 1 == f {
                assert(front.push(o) =~= part.update(f, o));
            } else {
                assert(!stream::is_frame(obus[n - 1]));
                assert(front.update(f, o).push(obus[n - 1]) =~= part.update(f, o));
            }
        }
    }
}

/// A temporal unit of one frame stays one when the flag is put in, where it can
/// still be split.
pub proof fn lemma_flagged_unit(tu: Seq<u8>, payload: Seq<u8>, sh: Header, slots: Seq<RefSlot>)
    requires
        assembled::single(tu, payload),
        assemble::flagged_tu(tu, sh, slots) is Ok,
        obu::obus_of(assemble::flagged_tu(tu, sh, slots)->Ok_0.0) is Ok,
    ensures
        ({
            let (out, after) = assemble::flagged_tu(tu, sh, slots)->Ok_0;
            let scan = uheader::scan_of(assembled::frame_payload(tu), sh, slots);
            let flagged = flagged_frame(assembled::frame_payload(tu), sh, slots);
            &&& scan is Ok
            &&& after == uheader::slots_after(slots, scan->Ok_0)
            &&& assembled::single(out, payload)
            &&& assembled::headed(tu) ==> assembled::headed(out)
            &&& flagged is Ok
            &&& assembled::frame_payload(out) == flagged->Ok_0
        }),
{
    let obus = obu::obus_of(tu)->Ok_0;
    let f = assembled::frame_at(obus);
    assert(assembled::lone_frame(obus, f));
    let n = obus.len() as int;
    assert(obus.take(n) =~= obus);
    lemma_flagged(obus, f, n, sh, slots);
    let flagged = flagged_frame(obus[f].payload, sh, slots)->Ok_0;
    let after = obus.update(f, Obu { payload: flagged, ..obus[f] });
    obu::what_is_split_is_what_was_written(after);
    lemma_same_types(obus, after, f);
    let out = assemble::flagged_tu(tu, sh, slots)->Ok_0.0;
    lemma_single(out, after, f, payload);
}

/// The frame's header then walks the same under a header that declares the
/// model.
proof fn lemma_flagged_scan(
    tu: Seq<u8>,
    payload: Seq<u8>,
    sh: Header,
    sh2: Header,
    slots: Seq<RefSlot>,
)
    requires
        assembled::single(tu, payload),
        8 * assembled::frame_payload(tu).len() < usize::MAX,
        assemble::flagged_tu(tu, sh, slots) is Ok,
        obu::obus_of(assemble::flagged_tu(tu, sh, slots)->Ok_0.0) is Ok,
        shift::alike(sh, sh2),
        !sh.timing.model.present,
        sh2.timing.model.present,
        sh2.timing.equal_picture_interval,
    ensures
        ({
            let out = assemble::flagged_tu(tu, sh, slots)->Ok_0.0;
            let scan = uheader::scan_of(assembled::frame_payload(tu), sh, slots)->Ok_0;
            &&& scan.end_pos < usize::MAX
            &&& uheader::scan_of(assembled::frame_payload(out), sh2, slots) == Ok::<
                HeaderScan,
                Error,
            >(HeaderScan { end_pos: (scan.end_pos + 1) as usize, ..scan })
        }),
{
    lemma_flagged_unit(tu, payload, sh, slots);
    rescan::flagged_header_scans_the_same(assembled::frame_payload(tu), sh, sh2, slots);
}

/// Whether the output's sequence header differs from the input's as assembling
/// makes it differ: in nothing, in its timing, or in a decoder model that is
/// new to the stream.
pub open spec fn stands_for(sh: Header, rewrite: Option<Header>, splice: bool) -> bool {
    match rewrite {
        None => !splice,
        Some(sh2) => {
            &&& sh2.canonical()
            &&& assembled::can_show(sh2)
            &&& shift::alike(sh, sh2)
            &&& if splice {
                &&& !sh.timing.model.present
                &&& sh2.timing.model.present
                &&& sh2.timing.equal_picture_interval
            } else {
                ||| sh2 == sh
                ||| !sh.timing.model.present && !sh2.timing.model.present
            }
        },
    }
}

pub proof fn lemma_rewritten(sh: Header, p: AssembleParams)
    requires
        sh.canonical(),
        sh.unsupported() is None,
        assemble::rewritten_header(sh, p) is Ok,
    ensures
        stands_for(
            sh,
            assemble::rewritten_header(sh, p)->Ok_0,
            p.decoder_model && !sh.timing.model.present,
        ),
{
    let num = assemble::at_least_one(p.fps);
    let den = assemble::at_least_one(p.fps_den);
    if p.decoder_model {
        seq_header::decoder_model_keeps_the_header_exact(sh, num, den);
    } else if !sh.timing.present {
        seq_header::timing_flips_only_the_timing_section(sh, num, den);
    }
}

/// The payload of the output's sequence header.
pub open spec fn output_payload(payload: Seq<u8>, rewrite: Option<Header>) -> Seq<u8> {
    match rewrite {
        None => payload,
        Some(sh2) => seq_header::header_bytes(sh2),
    }
}

/// The output's sequence header.
pub open spec fn output_header(sh: Header, rewrite: Option<Header>) -> Header {
    match rewrite {
        None => sh,
        Some(sh2) => sh2,
    }
}

proof fn lemma_prepared_walks(
    segment: SegmentBytes,
    i: int,
    payload: Seq<u8>,
    sh: Header,
    rewrite: Option<Header>,
    splice: bool,
    slots: Seq<RefSlot>,
)
    requires
        assembled::walks(untouched(segment), payload, sh),
        fits(segment.key_tu),
        fits(segment.golden_tu),
        assembled::can_show(sh),
        stands_for(sh, rewrite, splice),
        assemble::prepared(segment, i, sh, rewrite, splice, slots) is Ok,
    ensures
        ({
            let p = assemble::prepared(segment, i, sh, rewrite, splice, slots)->Ok_0.0;
            &&& assembled::walks(p, output_payload(payload, rewrite), output_header(sh, rewrite))
            &&& assembled::is_ready(p, output_header(sh, rewrite))
        }),
{
    let p = assemble::prepared(segment, i, sh, rewrite, splice, slots)->Ok_0.0;
    let header = output_header(sh, rewrite);
    let new = output_payload(payload, rewrite);
    let (key, golden) = assemble::reheaded(segment, rewrite)->Ok_0;
    assert(assemble::checked_slot(p.key_tu, p.golden_tu, i, header) == Ok::<
        u8,
        assemble::AssembleError,
    >(p.golden_slot));
    if rewrite is Some {
        lemma_reheaded_unit(segment.key_tu, new, false);
        lemma_reheaded_unit(segment.golden_tu, new, true);
        if splice {
            lemma_frame_within(segment.key_tu);
            lemma_frame_within(segment.golden_tu);
            lemma_spliced_walks(segment, key, golden, new, sh, header, slots, p, i);
        } else {
            lemma_retimed_walks(segment, new, sh, header, p);
        }
    } else {
        lemma_same_walks(untouched(segment), payload, sh, p);
    }
}

proof fn lemma_same_walks(
    given: Prepared<Seq<u8>>,
    payload: Seq<u8>,
    sh: Header,
    p: Prepared<Seq<u8>>,
)
    requires
        assembled::walks(given, payload, sh),
        p.key_tu == given.key_tu,
        p.golden_tu == given.golden_tu,
    ensures
        assembled::walks(p, payload, sh),
{
}

pub proof fn lemma_frame_within(tu: Seq<u8>)
    requires
        single::one_frame(tu),
    ensures
        assembled::frame_payload(tu).len() <= tu.len(),
{
    let obus = obu::obus_of(tu)->Ok_0;
    assert(assembled::lone_frame(obus, assembled::frame_at(obus)));
    obu::lemma_payloads_within(tu);
}

proof fn lemma_retimed_walks(
    segment: SegmentBytes,
    new: Seq<u8>,
    sh: Header,
    sh2: Header,
    p: Prepared<Seq<u8>>,
)
    requires
        assembled::single(p.key_tu, new),
        assembled::single(p.golden_tu, new),
        assembled::headed(p.key_tu),
        assembled::frame_payload(p.key_tu) == assembled::frame_payload(segment.key_tu),
        assembled::frame_payload(p.golden_tu) == assembled::frame_payload(segment.golden_tu),
        assembled::key_scan(untouched(segment), sh) is Ok,
        assembled::golden_scan(untouched(segment), sh) is Ok,
        inspect::refers(assembled::golden_scan(untouched(segment), sh)->Ok_0.frame_type),
        stands_for(sh, Some(sh2), false),
    ensures
        assembled::walks(p, new, sh2),
{
    if sh2 != sh {
        let given = untouched(segment);
        rescan::retimed_header_scans_the_same(
            assembled::frame_payload(p.key_tu),
            sh,
            sh2,
            uheader::blank_slots(),
        );
        rescan::retimed_header_scans_the_same(
            assembled::frame_payload(p.golden_tu),
            sh,
            sh2,
            assembled::key_slots(given, sh),
        );
    }
}

/// The frame is a shown keyframe, whatever was in the slots.
proof fn lemma_shown_key(
    tu: Seq<u8>,
    payload: Seq<u8>,
    golden: Seq<u8>,
    i: int,
    sh: Header,
    slots: Seq<RefSlot>,
)
    requires
        assembled::single(tu, payload),
        assemble::checked_slot(tu, golden, i, sh) is Ok,
        assembled::can_show(sh),
        uheader::scan_of(assembled::frame_payload(tu), sh, slots) is Ok,
    ensures
        ({
            let s = uheader::scan_of(assembled::frame_payload(tu), sh, slots)->Ok_0;
            s.frame_type == KEY_FRAME && s.show_frame
        }),
{
    let obus = obu::obus_of(tu)->Ok_0;
    assembled::lemma_first_frame(obus, assembled::frame_at(obus));
    uheader::scan_agrees_with_info(assembled::frame_payload(tu), sh, slots);
}

proof fn lemma_spliced_walks(
    segment: SegmentBytes,
    key: Seq<u8>,
    golden: Seq<u8>,
    new: Seq<u8>,
    sh: Header,
    sh2: Header,
    slots: Seq<RefSlot>,
    p: Prepared<Seq<u8>>,
    i: int,
)
    requires
        assembled::single(key, new),
        assembled::single(golden, new),
        assembled::headed(key),
        assembled::frame_payload(key) == assembled::frame_payload(segment.key_tu),
        assembled::frame_payload(golden) == assembled::frame_payload(segment.golden_tu),
        8 * assembled::frame_payload(key).len() < usize::MAX,
        8 * assembled::frame_payload(golden).len() < usize::MAX,
        assembled::key_scan(untouched(segment), sh) is Ok,
        assembled::golden_scan(untouched(segment), sh) is Ok,
        inspect::refers(assembled::golden_scan(untouched(segment), sh)->Ok_0.frame_type),
        assembled::can_show(sh),
        stands_for(sh, Some(sh2), true),
        assemble::respliced(key, golden, i, sh, true, slots) is Ok,
        ({
            let (k, g, _) = assemble::respliced(key, golden, i, sh, true, slots)->Ok_0;
            p.key_tu == k && p.golden_tu == g
        }),
        assemble::checked_slot(p.key_tu, p.golden_tu, i, sh2) is Ok,
    ensures
        assembled::walks(p, new, sh2),
{
    let given = untouched(segment);
    let blank = uheader::blank_slots();
    let key_frame = assembled::frame_payload(key);
    let golden_frame = assembled::frame_payload(golden);
    // The keyframe, with the slots that the segments before it left.
    lemma_flagged_unit(key, new, sh, slots);
    lemma_flagged_scan(key, new, sh, sh2, slots);
    lemma_shown_key(p.key_tu, new, p.golden_tu, i, sh2, slots);
    assembled::keyframes_reset_the_slots(key_frame, sh, slots, blank);
    assembled::keyframes_reset_the_slots(assembled::frame_payload(p.key_tu), sh2, slots, blank);
    let k = assembled::key_scan(given, sh)->Ok_0;
    let k2 = assembled::key_scan(p, sh2)->Ok_0;
    assert(uheader::slots_after(blank, k2) =~= uheader::slots_after(blank, k));
    // The golden, with the slots that the keyframe left.
    let after = uheader::slots_after(blank, k);
    lemma_flagged_unit(golden, new, sh, after);
    lemma_flagged_scan(golden, new, sh, sh2, after);
}

/// Whether every segment's temporal units have one frame each, whose headers
/// can be walked to their ends under the sequence header that governs the
/// output, and the golden predicts from the keyframe.
pub open spec fn all_sound(segments: Seq<SegmentBytes>) -> bool {
    let (o, sh) = assemble::governing_header(segments[0].key_tu)->Ok_0;
    forall|s: int|
        0 <= s < segments.len() ==> {
            &&& assembled::walks(untouched(#[trigger] segments[s]), o.payload, sh)
            &&& fits(segments[s].key_tu)
            &&& fits(segments[s].golden_tu)
        }
}

proof fn lemma_all_walk(
    segments: Seq<SegmentBytes>,
    n: nat,
    payload: Seq<u8>,
    sh: Header,
    rewrite: Option<Header>,
    splice: bool,
)
    requires
        n <= segments.len(),
        forall|s: int|
            0 <= s < segments.len() ==> {
                &&& assembled::walks(untouched(#[trigger] segments[s]), payload, sh)
                &&& fits(segments[s].key_tu)
                &&& fits(segments[s].golden_tu)
            },
        assembled::can_show(sh),
        stands_for(sh, rewrite, splice),
        assemble::all_prepared(segments, n, sh, rewrite, splice) is Ok,
    ensures
        ({
            let done = assemble::all_prepared(segments, n, sh, rewrite, splice)->Ok_0.0;
            &&& done.len() == n
            &&& forall|s: int|
                0 <= s < n ==> assembled::walks(
                    #[trigger] done[s],
                    output_payload(payload, rewrite),
                    output_header(sh, rewrite),
                ) && assembled::is_ready(done[s], output_header(sh, rewrite))
        }),
    decreases n,
{
    if n > 0 {
        lemma_all_walk(segments, (n - 1) as nat, payload, sh, rewrite, splice);
        let (before, slots) = assemble::all_prepared(
            segments,
            (n - 1) as nat,
            sh,
            rewrite,
            splice,
        )->Ok_0;
        let at = n - 1;
        assert(assembled::walks(untouched(segments[at]), payload, sh));
        lemma_prepared_walks(segments[at], at, payload, sh, rewrite, splice, slots);
        let done = assemble::all_prepared(segments, n, sh, rewrite, splice)->Ok_0.0;
        assert forall|s: int| 0 <= s < n implies assembled::walks(
            #[trigger] done[s],
            output_payload(payload, rewrite),
            output_header(sh, rewrite),
        ) && assembled::is_ready(done[s], output_header(sh, rewrite)) by {
            if s < n - 1 {
                assert(done[s] == before[s]);
            }
        }
    }
}

/// A stream assembled from sound segments can be inspected and passes every
/// check: its first temporal unit is a keyframe, its keyframes are the samples
/// that assembling reported, and it declares the sequence header that
/// assembling reported.
pub proof fn assembled_streams_pass_the_checks(segments: Seq<SegmentBytes>, p: AssembleParams)
    requires
        assemble::assembled(segments, p) is Ok,
        all_sound(segments),
    ensures
        ({
            let out = assemble::assembled(segments, p)->Ok_0;
            let rep = inspect::report_of(ivf::numbered(out.tus));
            &&& rep is Ok
            &&& assembled::all_hold(report::checks_of(rep->Ok_0))
            &&& rep->Ok_0.key_tus == Seq::new(
                out.key_samples.len(),
                |k: int| (out.key_samples[k] - 1) as usize,
            )
            &&& rep->Ok_0.seq_header == out.seq_header
        }),
{
    let (o, sh) = assemble::governing_header(segments[0].key_tu)->Ok_0;
    seq_header::parsed_header_re_emits(o.payload);
    lemma_rewritten(sh, p);
    let rewrite = assemble::rewritten_header(sh, p)->Ok_0;
    let splice = p.decoder_model && !sh.timing.model.present;
    lemma_all_walk(segments, segments.len(), o.payload, sh, rewrite, splice);
    let done = assemble::all_prepared(segments, segments.len(), sh, rewrite, splice)->Ok_0.0;
    let header = output_header(sh, rewrite);
    let payload = output_payload(o.payload, rewrite);
    if rewrite is Some {
        seq_header::emit_then_parse_is_exact(header);
    }
    let frames = assemble::frame_counts(segments);
    gop::plan_has_every_frame(frames, p.gop_size);
    assert(assembled::all_walk(done, payload, header));
    assembled::ready_segments_pass_the_checks(done, frames, p.gop_size, payload, header);
    let out = assemble::assembled(segments, p)->Ok_0;
    let plan = gop::plan(frames, p.gop_size);
    assert(out.tus == assemble::planned_tus(done, plan));
    assert(assembled::keys_from_zero(plan) =~= Seq::new(
        out.key_samples.len(),
        |k: int| (out.key_samples[k] - 1) as usize,
    ));
}

} // verus!
