//! What the checks say of an assembled stream that was analyzed.

use vstd::prelude::*;

use crate::assemble::gop::{self, Slot};
use crate::assemble::{self, AssembleParams, Prepared, SegmentBytes};
use crate::bitio::{self, Cur};
use crate::frame_header;
use crate::inspect::assembled::{self, fits_place, frame_payload, keys_from_zero};
use crate::inspect::passing::{self, output_header};
use crate::inspect::report;
use crate::inspect::single::{self, one_frame};
use crate::inspect::{self, TuKind, TuReport, Walk, Walked};
use crate::ivf;
use crate::obu;
use crate::seq_header::{self, Header};
use crate::uheader::rescan;
use crate::uheader::{self, RefSlot};

verus! {

/// Whether the frame of the temporal unit predicts from others.
pub open spec fn frame_refers(tu: Seq<u8>, sh: Header) -> bool {
    assemble::frame_info(tu, sh) matches Ok(f) && (f.frame_type matches Some(t) && inspect::refers(
        t,
    ))
}

/// Whether a segment that is ready has one frame in each temporal unit, and the
/// golden predicts from others.
pub open spec fn shaped(p: Prepared<Seq<u8>>, sh: Header) -> bool {
    &&& one_frame(p.key_tu)
    &&& one_frame(p.golden_tu)
    &&& assembled::is_ready(p, sh)
    &&& frame_refers(p.golden_tu, sh)
}

/// Whether all segments are shaped, and the first temporal unit has this
/// sequence header in front.
pub open spec fn all_shaped(done: Seq<Prepared<Seq<u8>>>, sh: Header) -> bool {
    &&& assembled::can_show(sh)
    &&& single::first_parsed(obu::obus_of(done[0].key_tu)->Ok_0) matches Some(h) ==> h == sh
    &&& forall|s: int| 0 <= s < done.len() ==> shaped(#[trigger] done[s], sh)
}

// ---------- the places of the plan ----------

/// What is known after some places of the plan.
pub open spec fn found_places(
    w: Walked,
    done: Seq<Prepared<Seq<u8>>>,
    plan: Seq<(int, Slot)>,
    sh: Header,
) -> bool {
    &&& w.tus.len() == plan.len()
    &&& forall|i: int|
        0 <= i < plan.len() ==> fits_place(#[trigger] w.tus[i], plan[i].1) && w.tus[i].index == i
    &&& w.key_tus == keys_from_zero(plan)
    &&& forall|k: int|
        0 <= k < w.golden_tus.len() ==> (#[trigger] w.golden_tus[k]) < plan.len()
            && plan[w.golden_tus[k] as int].1 == Slot::Golden
    &&& if plan.len() == 0 {
        w == inspect::not_walked()
    } else {
        &&& w.header == Some(sh)
        &&& plan.last().1 != Slot::Key
            ==> !w.dpb[done[plan.last().0].golden_slot as int].is_key_frame
    }
}

proof fn lemma_one_more(
    w: Walked,
    next: Walked,
    done: Seq<Prepared<Seq<u8>>>,
    before: Seq<(int, Slot)>,
    at: (int, Slot),
    sh: Header,
)
    requires
        before.len() < u32::MAX,
        found_places(w, done, before, sh),
        next.tus.len() == w.tus.len() + 1,
        next.tus.drop_last() == w.tus,
        next.tus.last().index == before.len(),
        fits_place(next.tus.last(), at.1),
        next.header == Some(sh),
        at.1 != Slot::Key ==> !next.dpb[done[at.0].golden_slot as int].is_key_frame,
        next.key_tus == inspect::listed(w.key_tus, before.len() as usize, at.1 == Slot::Key),
        next.golden_tus == inspect::listed(
            w.golden_tus,
            before.len() as usize,
            at.1 == Slot::Golden,
        ),
    ensures
        found_places(next, done, before.push(at), sh),
{
    let plan = before.push(at);
    assert(plan.drop_last() =~= before);
    assert forall|i: int| 0 <= i < plan.len() implies fits_place(#[trigger] next.tus[i], plan[i].1)
        && next.tus[i].index == i by {
        if i < before.len() {
            assert(next.tus[i] == next.tus.drop_last()[i]);
            assert(plan[i] == before[i]);
        }
    }
    assert(next.key_tus =~= keys_from_zero(plan));
    assert forall|k: int| 0 <= k < next.golden_tus.len() implies (#[trigger] next.golden_tus[k])
        < plan.len() && plan[next.golden_tus[k] as int].1 == Slot::Golden by {
        if k < w.golden_tus.len() {
            assert(next.golden_tus[k] == w.golden_tus[k]);
            assert(before[w.golden_tus[k] as int] == plan[w.golden_tus[k] as int]);
        }
    }
}

/// What a coded frame that was walked is.
proof fn lemma_coded(known: Walked, body: Seq<u8>, tu: usize, sh: Header)
    requires
        known.header == Some(sh),
        assembled::can_show(sh),
        known.with_frame(body, tu) is Ok,
        frame_header::info_of(body, sh) is Ok,
        frame_header::info_of(body, sh)->Ok_0.frame_type is Some,
    ensures
        ({
            let scan = uheader::scan_of(body, sh, known.dpb);
            let info = frame_header::info_of(body, sh)->Ok_0;
            let (after, kind) = known.with_frame(body, tu)->Ok_0;
            let s = scan->Ok_0;
            &&& scan is Ok
            &&& info.frame_type == Some(s.frame_type)
            &&& info.show_frame == s.show_frame
            &&& info.showable_frame == s.showable_frame
            &&& info.refresh_frame_flags == s.refresh_frame_flags
            &&& after == known.with_coded(s, after_refs(kind), tu).0
            &&& kind == known.with_coded(s, after_refs(kind), tu).1
        }),
{
    uheader::scan_agrees_with_info(body, sh, known.dpb);
}

pub open spec fn after_refs(kind: TuKind<Seq<u8>>) -> Seq<u8> {
    match kind {
        TuKind::Coded { ref_slots, .. } => ref_slots,
        _ => Seq::empty(),
    }
}

/// The frame that the checks on a segment looked at is the only one.
proof fn lemma_info(tu: Seq<u8>, sh: Header)
    requires
        one_frame(tu),
    ensures
        assemble::frame_info(tu, sh) == match frame_header::info_of(frame_payload(tu), sh) {
            Ok(f) => Ok(f),
            Err(e) => Err(assemble::AssembleError::Stream(e)),
        },
{
    let obus = obu::obus_of(tu)->Ok_0;
    let f = assembled::frame_at(obus);
    assert(assembled::lone_frame(obus, f));
    assembled::lemma_first_frame(obus, f);
}

proof fn lemma_key_place(
    w: Walked,
    done: Seq<Prepared<Seq<u8>>>,
    before: Seq<(int, Slot)>,
    s: int,
    ts: u64,
    sh: Header,
)
    requires
        before.len() < u32::MAX,
        0 <= s < done.len(),
        before.len() == 0 ==> s == 0,
        all_shaped(done, sh),
        found_places(w, done, before, sh),
        w.with_unit((ts, done[s].key_tu), before.len() as usize) is Ok,
    ensures
        found_places(
            w.with_unit((ts, done[s].key_tu), before.len() as usize)->Ok_0,
            done,
            before.push((s, Slot::Key)),
            sh,
        ),
{
    let p = done[s];
    let tu = before.len() as usize;
    assert(shaped(done[s], sh));
    single::lemma_walked_unit(w, (ts, p.key_tu), tu);
    let known = Walk { header: single::header_for(w, p.key_tu), ..w };
    assert(known.header == Some(sh));
    let body = frame_payload(p.key_tu);
    lemma_info(p.key_tu, sh);
    lemma_coded(known, body, tu, sh);
    let next = w.with_unit((ts, p.key_tu), tu)->Ok_0;
    assert(next.tus.drop_last() =~= w.tus);
    lemma_one_more(w, next, done, before, (s, Slot::Key), sh);
}

proof fn lemma_golden_place(
    w: Walked,
    done: Seq<Prepared<Seq<u8>>>,
    before: Seq<(int, Slot)>,
    s: int,
    ts: u64,
    sh: Header,
)
    requires
        0 < before.len() < u32::MAX,
        0 <= s < done.len(),
        all_shaped(done, sh),
        found_places(w, done, before, sh),
        w.with_unit((ts, done[s].golden_tu), before.len() as usize) is Ok,
    ensures
        found_places(
            w.with_unit((ts, done[s].golden_tu), before.len() as usize)->Ok_0,
            done,
            before.push((s, Slot::Golden)),
            sh,
        ),
{
    let p = done[s];
    let tu = before.len() as usize;
    assert(shaped(done[s], sh));
    single::lemma_walked_unit(w, (ts, p.golden_tu), tu);
    let known = Walk { header: Some(sh), ..w };
    let body = frame_payload(p.golden_tu);
    lemma_info(p.golden_tu, sh);
    lemma_coded(known, body, tu, sh);
    let scan = uheader::scan_of(body, sh, w.dpb)->Ok_0;
    assembled::lemma_lowest_slot(scan.refresh_frame_flags, 0);
    let next = w.with_unit((ts, p.golden_tu), tu)->Ok_0;
    assert(next.tus.drop_last() =~= w.tus);
    lemma_one_more(w, next, done, before, (s, Slot::Golden), sh);
}

proof fn lemma_show_place(
    w: Walked,
    done: Seq<Prepared<Seq<u8>>>,
    before: Seq<(int, Slot)>,
    s: int,
    ts: u64,
    sh: Header,
)
    requires
        0 < before.len() < u32::MAX,
        0 <= s < done.len(),
        all_shaped(done, sh),
        found_places(w, done, before, sh),
        before.last().0 == s,
        before.last().1 != Slot::Key,
        w.with_unit((ts, done[s].show_tu), before.len() as usize) is Ok,
    ensures
        found_places(
            w.with_unit((ts, done[s].show_tu), before.len() as usize)->Ok_0,
            done,
            before.push((s, Slot::Show)),
            sh,
        ),
{
    let p = done[s];
    let tu = before.len() as usize;
    assert(shaped(done[s], sh));
    lemma_golden_slot(p, sh);
    assemble::show_existing_reads_back(p.golden_slot, sh);
    let obus = assemble::show_existing_obus(p.golden_slot);
    assert(assembled::lone_frame(obus, 1));
    let f = assembled::frame_at(obus);
    assert(assembled::lone_frame(obus, f));
    assert(f == 1);
    single::lemma_walked_unit(w, (ts, p.show_tu), tu);
    let next = w.with_unit((ts, p.show_tu), tu)->Ok_0;
    assert(next.tus.drop_last() =~= w.tus);
    lemma_one_more(w, next, done, before, (s, Slot::Show), sh);
}

proof fn lemma_golden_slot(p: Prepared<Seq<u8>>, sh: Header)
    requires
        assembled::is_ready(p, sh),
    ensures
        p.golden_slot < 8,
{
    let i = choose|i: int|
        #![trigger assemble::checked_slot(p.key_tu, p.golden_tu, i, sh)]
        assemble::checked_slot(p.key_tu, p.golden_tu, i, sh) == Ok::<u8, assemble::AssembleError>(
            p.golden_slot,
        );
    let g = assemble::frame_info(p.golden_tu, sh)->Ok_0;
    assembled::lemma_lowest_slot(g.refresh_frame_flags, 0);
}

/// Walking the first `n` places of an assembled stream that was walked.
proof fn lemma_places(
    done: Seq<Prepared<Seq<u8>>>,
    frames: Seq<u64>,
    gop_size: u64,
    n: int,
    sh: Header,
)
    requires
        gop_size >= 2,
        frames.len() == done.len(),
        0 <= n <= gop::plan(frames, gop_size).len() <= u32::MAX,
        n > 0 ==> gop::plan(frames, gop_size)[0].0 == 0,
        all_shaped(done, sh),
        ({
            let plan = gop::plan(frames, gop_size);
            let packets = ivf::numbered(assemble::planned_tus(done, plan));
            inspect::walked(packets.take(n)) is Ok
        }),
    ensures
        ({
            let plan = gop::plan(frames, gop_size);
            let packets = ivf::numbered(assemble::planned_tus(done, plan));
            found_places(inspect::walked(packets.take(n))->Ok_0, done, plan.take(n), sh)
        }),
    decreases n,
{
    let plan = gop::plan(frames, gop_size);
    let packets = ivf::numbered(assemble::planned_tus(done, plan));
    if n == 0 {
        assert(packets.take(0) =~= Seq::empty());
        assert(plan.take(0) =~= Seq::empty());
        assert(keys_from_zero(plan.take(0)) =~= Seq::empty());
    } else {
        assert(packets.take(n).drop_last() =~= packets.take(n - 1));
        lemma_places(done, frames, gop_size, n - 1, sh);
        let w = inspect::walked(packets.take(n - 1))->Ok_0;
        let before = plan.take(n - 1);
        let at = plan[n - 1];
        gop::places_follow_their_pattern(frames, gop_size, n - 1);
        assert(packets.take(n).last() == ((n - 1) as u64, assemble::planned_tu(done, at)));
        assert(before.push(at) =~= plan.take(n));
        if n > 1 {
            assert(before.last() == plan[n - 2]);
        }
        match at.1 {
            Slot::Key => lemma_key_place(w, done, before, at.0, (n - 1) as u64, sh),
            Slot::Golden => lemma_golden_place(w, done, before, at.0, (n - 1) as u64, sh),
            Slot::Show => lemma_show_place(w, done, before, at.0, (n - 1) as u64, sh),
        }
    }
}

/// Shaped segments whose stream can be analyzed make a stream that passes every
/// check and whose keyframes are where the plan has them.
proof fn lemma_shaped_pass(
    done: Seq<Prepared<Seq<u8>>>,
    frames: Seq<u64>,
    gop_size: u64,
    sh: Header,
)
    requires
        gop_size >= 2,
        frames.len() == done.len(),
        0 < gop::plan(frames, gop_size).len() <= u32::MAX,
        gop::plan(frames, gop_size)[0].0 == 0,
        all_shaped(done, sh),
        inspect::report_of(
            ivf::numbered(assemble::planned_tus(done, gop::plan(frames, gop_size))),
        ) is Ok,
    ensures
        ({
            let plan = gop::plan(frames, gop_size);
            let rep = inspect::report_of(ivf::numbered(assemble::planned_tus(done, plan)))->Ok_0;
            &&& assembled::all_hold(report::checks_of(rep))
            &&& rep.key_tus == keys_from_zero(plan)
            &&& rep.seq_header == sh
        }),
{
    let plan = gop::plan(frames, gop_size);
    let packets = ivf::numbered(assemble::planned_tus(done, plan));
    let n = plan.len() as int;
    assert(packets.take(n) =~= packets);
    lemma_places(done, frames, gop_size, n, sh);
    assert(plan.take(n) =~= plan);
    let w = inspect::walked(packets)->Ok_0;
    let rep = inspect::report_of(packets)->Ok_0;
    gop::places_follow_their_pattern(frames, gop_size, 0);
    assert(fits_place(w.tus[0], plan[0].1));
    let shows = |t: TuReport<TuKind<Seq<u8>>>| report::shows_key(t);
    let hides = |t: TuReport<TuKind<Seq<u8>>>| report::hides(t);
    assert forall|i: int| 0 <= i < rep.tus.len() implies !shows(#[trigger] rep.tus[i]) by {
        assert(fits_place(w.tus[i], plan[i].1));
    }
    assert forall|i: int| 0 <= i < rep.tus.len() implies !hides(#[trigger] rep.tus[i]) by {
        assert(fits_place(w.tus[i], plan[i].1));
    }
    assembled::lemma_none_where(rep.tus, shows);
    assembled::lemma_none_where(rep.tus, hides);
    assert forall|k: int| 0 <= k < rep.golden_tus.len() implies report::is_showable_inter(
        rep.tus[#[trigger] rep.golden_tus[k] as int],
    ) by {
        let i = w.golden_tus[k] as int;
        assert(fits_place(w.tus[i], plan[i].1));
    }
    gop::key_numbers_name_the_keyframes(plan);
    assert(gop::key_numbers(plan).contains(1u32));
    assert(rep.key_tus.len() > 0);
}

// ---------- from what was handed in ----------

/// The type of a coded frame does not depend on the sequence header.
proof fn lemma_same_type(body: Seq<u8>, a: Header, b: Header)
    requires
        frame_header::info_of(body, a) is Ok,
        frame_header::info_of(body, b) is Ok,
    ensures
        frame_header::info_of(body, a)->Ok_0.frame_type == frame_header::info_of(
            body,
            b,
        )->Ok_0.frame_type,
{
}

proof fn lemma_prepared_shaped(
    segment: SegmentBytes,
    i: int,
    sh: Header,
    rewrite: Option<Header>,
    splice: bool,
    slots: Seq<RefSlot>,
)
    requires
        one_frame(segment.key_tu),
        one_frame(segment.golden_tu),
        frame_refers(segment.golden_tu, sh),
        passing::stands_for(sh, rewrite, splice),
        assemble::prepared(segment, i, sh, rewrite, splice, slots) is Ok,
    ensures
        ({
            let p = assemble::prepared(segment, i, sh, rewrite, splice, slots)->Ok_0.0;
            &&& shaped(p, output_header(sh, rewrite))
            &&& rewrite is None ==> p.key_tu == segment.key_tu
            &&& rewrite is Some ==> assembled::repeats(
                obu::obus_of(p.key_tu)->Ok_0,
                seq_header::header_bytes(rewrite->Some_0),
            )
        }),
{
    let p = assemble::prepared(segment, i, sh, rewrite, splice, slots)->Ok_0.0;
    let header = output_header(sh, rewrite);
    let (key, golden) = assemble::reheaded(segment, rewrite)->Ok_0;
    assert(assemble::checked_slot(p.key_tu, p.golden_tu, i, header) == Ok::<
        u8,
        assemble::AssembleError,
    >(p.golden_slot));
    lemma_info(segment.golden_tu, sh);
    if rewrite is Some {
        let new = seq_header::header_bytes(header);
        passing::lemma_reheaded_unit(segment.key_tu, new, false);
        passing::lemma_reheaded_unit(segment.golden_tu, new, true);
        if splice {
            lemma_spliced_shape(key, golden, new, i, sh, header, slots, p);
        } else {
            lemma_info(p.golden_tu, header);
            lemma_same_type(frame_payload(golden), sh, header);
        }
    }
}

proof fn lemma_spliced_shape(
    key: Seq<u8>,
    golden: Seq<u8>,
    new: Seq<u8>,
    i: int,
    sh: Header,
    sh2: Header,
    slots: Seq<RefSlot>,
    p: Prepared<Seq<u8>>,
)
    requires
        assembled::single(key, new),
        assembled::single(golden, new),
        frame_header::info_of(frame_payload(golden), sh) matches Ok(f) && (
        f.frame_type matches Some(t) && inspect::refers(t)),
        !sh.timing.model.present,
        assemble::respliced(key, golden, i, sh, true, slots) is Ok,
        ({
            let (k, g, _) = assemble::respliced(key, golden, i, sh, true, slots)->Ok_0;
            p.key_tu == k && p.golden_tu == g
        }),
        assemble::checked_slot(p.key_tu, p.golden_tu, i, sh2) is Ok,
    ensures
        assembled::single(p.key_tu, new),
        assembled::single(p.golden_tu, new),
        frame_refers(p.golden_tu, sh2),
{
    passing::lemma_flagged_unit(key, new, sh, slots);
    let after = assemble::flagged_tu(key, sh, slots)->Ok_0.1;
    passing::lemma_flagged_unit(golden, new, sh, after);
    lemma_info(p.golden_tu, sh2);
    lemma_flagged_type(frame_payload(golden), sh, sh2, after);
}

/// A frame with the flag put in is of the same type.
proof fn lemma_flagged_type(body: Seq<u8>, sh: Header, sh2: Header, slots: Seq<RefSlot>)
    requires
        !sh.timing.model.present,
        uheader::scan_of(body, sh, slots) is Ok,
        passing::flagged_frame(body, sh, slots) is Ok,
        frame_header::info_of(body, sh) is Ok,
        frame_header::info_of(passing::flagged_frame(body, sh, slots)->Ok_0, sh2) is Ok,
    ensures
        frame_header::info_of(
            passing::flagged_frame(body, sh, slots)->Ok_0,
            sh2,
        )->Ok_0.frame_type == frame_header::info_of(body, sh)->Ok_0.frame_type,
{
    let s = uheader::scan_of(body, sh, slots)->Ok_0;
    let out = passing::flagged_frame(body, sh, slots)->Ok_0;
    rescan::flag_goes_behind_the_frame_type(body, sh, slots);
    uheader::splice_keeps_header_and_tiles(
        body,
        s.removal_insert_pos as int,
        s.end_pos as int,
        seq![false],
    );
    let a = bitio::bits_of(body);
    let b = bitio::bits_of(out);
    assert(a[0] == b[0] && a[1] == b[1] && a[2] == b[2]);
    assert(a.subrange(0, 1) =~= b.subrange(0, 1));
    assert(a.subrange(1, 3) =~= b.subrange(1, 3));
    assert(Cur::start(body).flag().0 == Cur::start(out).flag().0);
    assert(Cur::start(body).flag().1.f(2).0 == Cur::start(out).flag().1.f(2).0);
}

/// Whether every segment's temporal units have one frame each, and the golden
/// predicts from others.
pub open spec fn all_plain(segments: Seq<SegmentBytes>) -> bool {
    let sh = assemble::governing_header(segments[0].key_tu)->Ok_0.1;
    forall|s: int|
        0 <= s < segments.len() ==> {
            &&& one_frame((#[trigger] segments[s]).key_tu)
            &&& one_frame(segments[s].golden_tu)
            &&& frame_refers(segments[s].golden_tu, sh)
        }
}

proof fn lemma_all_shaped(
    segments: Seq<SegmentBytes>,
    n: nat,
    sh: Header,
    rewrite: Option<Header>,
    splice: bool,
)
    requires
        n <= segments.len(),
        segments.len() > 0,
        assemble::governing_header(segments[0].key_tu) is Ok,
        assemble::governing_header(segments[0].key_tu)->Ok_0.1 == sh,
        all_plain(segments),
        passing::stands_for(sh, rewrite, splice),
        assemble::all_prepared(segments, n, sh, rewrite, splice) is Ok,
    ensures
        ({
            let done = assemble::all_prepared(segments, n, sh, rewrite, splice)->Ok_0.0;
            let header = output_header(sh, rewrite);
            &&& done.len() == n
            &&& forall|s: int| 0 <= s < n ==> shaped(#[trigger] done[s], header)
            &&& n > 0 && rewrite is None ==> done[0].key_tu == segments[0].key_tu
            &&& n > 0 && rewrite is Some ==> assembled::repeats(
                obu::obus_of(done[0].key_tu)->Ok_0,
                seq_header::header_bytes(header),
            )
        }),
    decreases n,
{
    if n > 0 {
        lemma_all_shaped(segments, (n - 1) as nat, sh, rewrite, splice);
        let (before, slots) = assemble::all_prepared(
            segments,
            (n - 1) as nat,
            sh,
            rewrite,
            splice,
        )->Ok_0;
        let at = n - 1;
        assert(one_frame(segments[at].key_tu));
        lemma_prepared_shaped(segments[at], at, sh, rewrite, splice, slots);
        let done = assemble::all_prepared(segments, n, sh, rewrite, splice)->Ok_0.0;
        let header = output_header(sh, rewrite);
        assert forall|s: int| 0 <= s < n implies shaped(#[trigger] done[s], header) by {
            if s < n - 1 {
                assert(done[s] == before[s]);
            }
        }
        if n > 1 {
            assert(done[0] == before[0]);
        }
    }
}

/// The first sequence header among headers that are all alike.
proof fn lemma_first_of_alike(obus: Seq<obu::Obu<Seq<u8>>>, payload: Seq<u8>)
    requires
        assembled::repeats(obus, payload),
    ensures
        assemble::first_header(obus) matches Some(o) ==> o.payload == payload,
    decreases obus.len(),
{
    if obus.len() > 0 && obus[0].obu_type != obu::ObuType::SequenceHeader {
        let rest = obus.skip(1);
        assert forall|i: int|
            0 <= i < rest.len() && (#[trigger] rest[i]).obu_type
                == obu::ObuType::SequenceHeader implies rest[i].payload == payload by {
            assert(rest[i] == obus[i + 1]);
        }
        lemma_first_of_alike(rest, payload);
    }
}

/// An assembled stream that can be analyzed passes every check, where each
/// segment's temporal units have one frame each and the goldens predict from
/// others: its first temporal unit is a shown keyframe, no keyframe is shown
/// again, every temporal unit shows a frame, every other coded frame can be
/// shown again, and its keyframes are the samples that assembling reported.
pub proof fn analyzed_streams_pass_the_checks(segments: Seq<SegmentBytes>, p: AssembleParams)
    requires
        assemble::assembled(segments, p) is Ok,
        all_plain(segments),
        inspect::report_of(ivf::numbered(assemble::assembled(segments, p)->Ok_0.tus)) is Ok,
    ensures
        ({
            let out = assemble::assembled(segments, p)->Ok_0;
            let rep = inspect::report_of(ivf::numbered(out.tus))->Ok_0;
            &&& assembled::all_hold(report::checks_of(rep))
            &&& rep.key_tus == Seq::new(
                out.key_samples.len(),
                |k: int| (out.key_samples[k] - 1) as usize,
            )
            &&& rep.seq_header == out.seq_header
        }),
{
    let (o, sh) = assemble::governing_header(segments[0].key_tu)->Ok_0;
    seq_header::parsed_header_re_emits(o.payload);
    passing::lemma_rewritten(sh, p);
    let rewrite = assemble::rewritten_header(sh, p)->Ok_0;
    let splice = p.decoder_model && !sh.timing.model.present;
    lemma_all_shaped(segments, segments.len(), sh, rewrite, splice);
    let done = assemble::all_prepared(segments, segments.len(), sh, rewrite, splice)->Ok_0.0;
    let header = output_header(sh, rewrite);
    if rewrite is Some {
        seq_header::emit_then_parse_is_exact(header);
        lemma_first_of_alike(
            obu::obus_of(done[0].key_tu)->Ok_0,
            seq_header::header_bytes(header),
        );
    }
    let frames = assemble::frame_counts(segments);
    gop::plan_has_every_frame(frames, p.gop_size);
    assert(all_shaped(done, header));
    assert(segments[0].frames > 0) by {
        assert(assemble::empty_segment(segments, 0) is None);
    }
    gop::segments_start_with_keyframes(frames, p.gop_size, 0);
    assert(frames.take(0) =~= Seq::empty());
    lemma_shaped_pass(done, frames, p.gop_size, header);
    let out = assemble::assembled(segments, p)->Ok_0;
    let plan = gop::plan(frames, p.gop_size);
    assert(out.tus == assemble::planned_tus(done, plan));
    assert(keys_from_zero(plan) =~= Seq::new(
        out.key_samples.len(),
        |k: int| (out.key_samples[k] - 1) as usize,
    ));
}

} // verus!
