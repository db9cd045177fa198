//! What inspecting an assembled stream finds.

use vstd::prelude::*;

use crate::assemble::gop::{self, Slot};
use crate::assemble::{self, Prepared};
use crate::container::stream;
use crate::error::Error;
use crate::frame_header::KEY_FRAME;
use crate::inspect::report;
use crate::inspect::{self, InspectError, TuKind, TuReport, UnitNote, Walk, Walked};
use crate::ivf;
use crate::obu::{self, ObuType};
use crate::seq_header::{self, Header};
use crate::uheader::{self, HeaderScan, RefSlot};

verus! {

// ---------- temporal units with one frame ----------

/// Whether the OBU at `f` is the only frame.
pub open spec fn lone_frame(obus: stream::Unit, f: int) -> bool {
    &&& 0 <= f < obus.len()
    &&& stream::is_frame(obus[f])
    &&& forall|i: int| 0 <= i < obus.len() && i != f ==> !stream::is_frame(#[trigger] obus[i])
}

/// Whether every sequence header is this one.
pub open spec fn repeats(obus: stream::Unit, payload: Seq<u8>) -> bool {
    forall|i: int|
        0 <= i < obus.len() && (#[trigger] obus[i]).obu_type == ObuType::SequenceHeader
            ==> obus[i].payload == payload
}

/// Whether the temporal unit has one frame and no sequence header but this one.
pub open spec fn single(tu: Seq<u8>, payload: Seq<u8>) -> bool {
    &&& obu::obus_of(tu) is Ok
    &&& exists|f: int| lone_frame(obu::obus_of(tu)->Ok_0, f)
    &&& repeats(obu::obus_of(tu)->Ok_0, payload)
}

/// Where the only frame is.
pub open spec fn frame_at(obus: stream::Unit) -> int {
    choose|f: int| lone_frame(obus, f)
}

/// The payload of the only frame.
pub open spec fn frame_payload(tu: Seq<u8>) -> Seq<u8> {
    obu::obus_of(tu)->Ok_0[frame_at(obu::obus_of(tu)->Ok_0)].payload
}

/// Whether a sequence header stands in front of the only frame.
pub open spec fn headed(tu: Seq<u8>) -> bool {
    let obus = obu::obus_of(tu)->Ok_0;
    assemble::has_header(obus.take(frame_at(obus)))
}

pub proof fn lemma_first_frame(obus: stream::Unit, f: int)
    requires
        lone_frame(obus, f),
    ensures
        assemble::first_frame(obus) == Some(obus[f]),
    decreases obus.len(),
{
    if f > 0 {
        let rest = obus.skip(1);
        assert(!stream::is_frame(obus[0]));
        assert(rest[f - 1] == obus[f]);
        assert forall|i: int| 0 <= i < rest.len() && i != f - 1 implies !stream::is_frame(
            #[trigger] rest[i],
        ) by {
            assert(!stream::is_frame(obus[i + 1]));
        }
        lemma_first_frame(rest, f - 1);
    }
}

/// The walk with the sequence header known.
pub open spec fn knowing(w: Walked, sh: Header, known: bool) -> Walked {
    if known {
        Walk { header: Some(sh), ..w }
    } else {
        w
    }
}

/// Whether the walk has seen no sequence header but this one.
pub open spec fn knows_only(w: Walked, sh: Header) -> bool {
    w.header is None || w.header == Some(sh)
}

pub proof fn lemma_has_header_step(obus: stream::Unit, n: int)
    requires
        0 <= n < obus.len(),
    ensures
        assemble::has_header(obus.take(n + 1)) == (assemble::has_header(obus.take(n))
            || obus[n].obu_type == ObuType::SequenceHeader),
{
    let a = obus.take(n);
    let b = obus.take(n + 1);
    if assemble::has_header(a) {
        let i = choose|i: int|
            0 <= i < a.len() && (#[trigger] a[i]).obu_type == ObuType::SequenceHeader;
        assert(b[i].obu_type == ObuType::SequenceHeader);
    }
    if obus[n].obu_type == ObuType::SequenceHeader {
        assert(b[n].obu_type == ObuType::SequenceHeader);
    }
    if assemble::has_header(b) {
        let i = choose|i: int|
            0 <= i < b.len() && (#[trigger] b[i]).obu_type == ObuType::SequenceHeader;
        if i < n {
            assert(a[i].obu_type == ObuType::SequenceHeader);
        }
    }
}

/// Up to the frame, the only thing learned is the sequence header.
proof fn lemma_before_frame(
    w: Walked,
    obus: stream::Unit,
    tu: usize,
    f: int,
    n: int,
    payload: Seq<u8>,
    sh: Header,
)
    requires
        lone_frame(obus, f),
        0 <= n <= f,
        repeats(obus, payload),
        seq_header::header_of(payload) == Ok::<Header, Error>(sh),
        knows_only(w, sh),
    ensures
        w.with_obus(obus.take(n), tu) == Ok::<(Walked, UnitNote), InspectError>(
            (
                knowing(w, sh, assemble::has_header(obus.take(n))),
                UnitNote { has_seq: assemble::has_header(obus.take(n)), kind: None },
            ),
        ),
    decreases n,
{
    let part = obus.take(n);
    if n == 0 {
        assert(part =~= Seq::empty());
    } else {
        lemma_before_frame(w, obus, tu, f, n - 1, payload, sh);
        lemma_has_header_step(obus, n - 1);
        assert(part.drop_last() =~= obus.take(n - 1));
        assert(part.last() == obus[n - 1]);
        assert(!stream::is_frame(obus[n - 1]));
    }
}

/// Behind the frame, nothing is learned.
proof fn lemma_behind_frame(
    w: Walked,
    obus: stream::Unit,
    tu: usize,
    f: int,
    n: int,
    payload: Seq<u8>,
    sh: Header,
    after: Walked,
    kind: TuKind<Seq<u8>>,
)
    requires
        lone_frame(obus, f),
        f < n <= obus.len(),
        repeats(obus, payload),
        seq_header::header_of(payload) == Ok::<Header, Error>(sh),
        knows_only(w, sh),
        w.header is Some || assemble::has_header(obus.take(f)),
        (Walk { header: Some(sh), ..w }).with_frame(obus[f].payload, tu) == Ok::<
            (Walked, TuKind<Seq<u8>>),
            InspectError,
        >((after, kind)),
    ensures
        w.with_obus(obus.take(n), tu) == Ok::<(Walked, UnitNote), InspectError>(
            (after, UnitNote { has_seq: assemble::has_header(obus.take(n)), kind: Some(kind) }),
        ),
    decreases n,
{
    let part = obus.take(n);
    lemma_has_header_step(obus, n - 1);
    assert(part.drop_last() =~= obus.take(n - 1));
    assert(part.last() == obus[n - 1]);
    if n == f + 1 {
        lemma_before_frame(w, obus, tu, f, f, payload, sh);
    } else {
        lemma_behind_frame(w, obus, tu, f, n - 1, payload, sh, after, kind);
        assert(!stream::is_frame(obus[n - 1]));
        assert(after.header == Some(sh));
    }
}

/// A temporal unit with one frame adds what the frame is.
proof fn lemma_single_unit(
    w: Walked,
    packet: (u64, Seq<u8>),
    tu: usize,
    payload: Seq<u8>,
    sh: Header,
    after: Walked,
    kind: TuKind<Seq<u8>>,
)
    requires
        single(packet.1, payload),
        seq_header::header_of(payload) == Ok::<Header, Error>(sh),
        knows_only(w, sh),
        w.header is Some || headed(packet.1),
        (Walk { header: Some(sh), ..w }).with_frame(frame_payload(packet.1), tu) == Ok::<
            (Walked, TuKind<Seq<u8>>),
            InspectError,
        >((after, kind)),
    ensures
        w.with_unit(packet, tu) is Ok,
        ({
            let next = w.with_unit(packet, tu)->Ok_0;
            &&& next.tus.drop_last() == after.tus
            &&& next.tus.len() == after.tus.len() + 1
            &&& next.tus.last().kind == kind
            &&& next == (Walk { tus: next.tus, ..after })
        }),
{
    let obus = obu::obus_of(packet.1)->Ok_0;
    let f = frame_at(obus);
    assert(lone_frame(obus, f));
    let n = obus.len() as int;
    lemma_behind_frame(w, obus, tu, f, n, payload, sh, after, kind);
    assert(obus.take(n) =~= obus);
    let next = w.with_unit(packet, tu)->Ok_0;
    assert(next.tus.drop_last() =~= after.tus);
}

// ---------- the places of an assembled stream ----------

/// The header of a segment's keyframe.
pub open spec fn key_scan(p: Prepared<Seq<u8>>, sh: Header) -> Result<HeaderScan, Error> {
    uheader::scan_of(frame_payload(p.key_tu), sh, uheader::blank_slots())
}

/// The slots after a segment's keyframe.
pub open spec fn key_slots(p: Prepared<Seq<u8>>, sh: Header) -> Seq<RefSlot> {
    uheader::slots_after(uheader::blank_slots(), key_scan(p, sh)->Ok_0)
}

/// The header of a segment's golden, which follows the keyframe.
pub open spec fn golden_scan(p: Prepared<Seq<u8>>, sh: Header) -> Result<HeaderScan, Error> {
    uheader::scan_of(frame_payload(p.golden_tu), sh, key_slots(p, sh))
}

/// The slots after a segment's golden.
pub open spec fn golden_slots(p: Prepared<Seq<u8>>, sh: Header) -> Seq<RefSlot> {
    uheader::slots_after(key_slots(p, sh), golden_scan(p, sh)->Ok_0)
}

/// Whether a segment's two temporal units have one frame each, whose headers
/// can be walked to their ends, and the golden predicts from the keyframe.
pub open spec fn walks(p: Prepared<Seq<u8>>, payload: Seq<u8>, sh: Header) -> bool {
    &&& single(p.key_tu, payload)
    &&& headed(p.key_tu)
    &&& single(p.golden_tu, payload)
    &&& key_scan(p, sh) is Ok
    &&& golden_scan(p, sh) is Ok
    &&& inspect::refers(golden_scan(p, sh)->Ok_0.frame_type)
}

/// Whether the segment was made ready under this header.
pub open spec fn is_ready(p: Prepared<Seq<u8>>, sh: Header) -> bool {
    &&& exists|i: int|
        #![trigger assemble::checked_slot(p.key_tu, p.golden_tu, i, sh)]
        assemble::checked_slot(p.key_tu, p.golden_tu, i, sh) == Ok::<u8, assemble::AssembleError>(
            p.golden_slot,
        )
    &&& p.show_tu == obu::obus_bytes(assemble::show_existing_obus(p.golden_slot))
}

/// Whether headers under this sequence header can show a frame again.
pub open spec fn can_show(sh: Header) -> bool {
    !sh.reduced && !sh.ids.present && !sh.needs_temporal_point_info()
}

pub proof fn lemma_lowest_slot(flags: u8, from: int)
    requires
        0 <= from,
        assemble::lowest_slot(flags, from) is Some,
    ensures
        assemble::lowest_slot(flags, from)->Some_0 < 8,
        uheader::refreshed(flags, assemble::lowest_slot(flags, from)->Some_0 as int),
    decreases 8 - from,
{
    if from < 8 && !uheader::refreshed(flags, from) {
        lemma_lowest_slot(flags, from + 1);
    }
}

/// What a segment's frames are.
proof fn lemma_frames_of_segment(p: Prepared<Seq<u8>>, payload: Seq<u8>, sh: Header)
    requires
        walks(p, payload, sh),
        is_ready(p, sh),
        can_show(sh),
    ensures
        ({
            let k = key_scan(p, sh)->Ok_0;
            let g = golden_scan(p, sh)->Ok_0;
            &&& k.frame_type == KEY_FRAME && k.show_frame
            &&& g.show_frame && g.showable_frame
            &&& p.golden_slot < 8
            &&& uheader::refreshed(g.refresh_frame_flags, p.golden_slot as int)
        }),
{
    let ko = obu::obus_of(p.key_tu)->Ok_0;
    let go = obu::obus_of(p.golden_tu)->Ok_0;
    lemma_first_frame(ko, frame_at(ko));
    lemma_first_frame(go, frame_at(go));
    uheader::scan_agrees_with_info(frame_payload(p.key_tu), sh, uheader::blank_slots());
    uheader::scan_agrees_with_info(frame_payload(p.golden_tu), sh, key_slots(p, sh));
    let i = choose|i: int|
        #![trigger assemble::checked_slot(p.key_tu, p.golden_tu, i, sh)]
        assemble::checked_slot(p.key_tu, p.golden_tu, i, sh) == Ok::<u8, assemble::AssembleError>(
            p.golden_slot,
        );
    lemma_lowest_slot(golden_scan(p, sh)->Ok_0.refresh_frame_flags, 0);
}

/// What a shown keyframe leaves does not depend on what was there.
pub proof fn keyframes_reset_the_slots(payload: Seq<u8>, sh: Header, a: Seq<RefSlot>, b: Seq<RefSlot>)
    requires
        uheader::scan_of(payload, sh, a) is Ok,
        uheader::scan_of(payload, sh, a)->Ok_0.frame_type == KEY_FRAME,
        uheader::scan_of(payload, sh, a)->Ok_0.show_frame,
    ensures
        uheader::scan_of(payload, sh, b) == uheader::scan_of(payload, sh, a),
        uheader::slots_after(b, uheader::scan_of(payload, sh, a)->Ok_0) == uheader::slots_after(
            a,
            uheader::scan_of(payload, sh, a)->Ok_0,
        ),
{
    reveal(uheader::scan_at);
    let s = uheader::scan_of(payload, sh, a)->Ok_0;
    assert(uheader::slots_after(b, s) =~= uheader::slots_after(a, s));
}

/// The slots after the place: what the keyframe leaves, or what the golden
/// leaves.
pub open spec fn slots_at(done: Seq<Prepared<Seq<u8>>>, at: (int, Slot), sh: Header) -> Seq<RefSlot> {
    match at.1 {
        Slot::Key => key_slots(done[at.0], sh),
        _ => golden_slots(done[at.0], sh),
    }
}

/// Whether the report on a temporal unit is what its place promises.
pub open spec fn fits_place(t: TuReport<TuKind<Seq<u8>>>, slot: Slot) -> bool {
    match slot {
        Slot::Key => report::is_shown_key(t),
        Slot::Golden => report::is_showable_inter(t) && !report::hides(t),
        Slot::Show => t.kind is ShowExisting && !report::shows_key(t),
    }
}

/// The keyframes as the walk counts them, from zero.
pub open spec fn keys_from_zero(plan: Seq<(int, Slot)>) -> Seq<usize> {
    Seq::new(gop::key_numbers(plan).len(), |k: int| (gop::key_numbers(plan)[k] - 1) as usize)
}

/// What is known after some places of the plan.
pub open spec fn walked_places(
    w: Walked,
    done: Seq<Prepared<Seq<u8>>>,
    plan: Seq<(int, Slot)>,
    sh: Header,
) -> bool {
    &&& w.tus.len() == plan.len()
    &&& forall|i: int|
        0 <= i < plan.len() ==> fits_place(#[trigger] w.tus[i], plan[i].1) && w.tus[i].index == i
    &&& w.key_tus == keys_from_zero(plan)
    &&& forall|k: int|
        0 <= k < w.golden_tus.len() ==> (#[trigger] w.golden_tus[k]) < plan.len()
            && plan[w.golden_tus[k] as int].1 == Slot::Golden
    &&& if plan.len() == 0 {
        w == inspect::not_walked()
    } else {
        &&& w.header == Some(sh)
        &&& w.coded
        &&& w.dpb == slots_at(done, plan.last(), sh)
    }
}

/// One more place.
proof fn lemma_one_more(
    w: Walked,
    after: Walked,
    next: Walked,
    done: Seq<Prepared<Seq<u8>>>,
    before: Seq<(int, Slot)>,
    at: (int, Slot),
    sh: Header,
)
    requires
        before.len() < u32::MAX,
        walked_places(w, done, before, sh),
        after.tus == w.tus,
        next.tus.drop_last() == after.tus,
        next.tus.len() == after.tus.len() + 1,
        next == (Walk { tus: next.tus, ..after }),
        next.tus.last().index == before.len(),
        fits_place(next.tus.last(), at.1),
        after.header == Some(sh),
        after.coded,
        after.dpb == slots_at(done, at, sh),
        after.key_tus == inspect::listed(w.key_tus, before.len() as usize, at.1 == Slot::Key),
        after.golden_tus == inspect::listed(
            w.golden_tus,
            before.len() as usize,
            at.1 == Slot::Golden,
        ),
    ensures
        walked_places(next, done, before.push(at), sh),
{
    let plan = before.push(at);
    assert(plan.drop_last() =~= before);
    assert forall|i: int| 0 <= i < plan.len() implies fits_place(#[trigger] next.tus[i], plan[i].1)
        && next.tus[i].index == i by {
        if i < before.len() {
            assert(next.tus[i] == next.tus.drop_last()[i]);
            assert(plan[i] == before[i]);
        }
    }
    assert(next.key_tus =~= keys_from_zero(plan));
    assert forall|k: int| 0 <= k < next.golden_tus.len() implies (#[trigger] next.golden_tus[k])
        < plan.len() && plan[next.golden_tus[k] as int].1 == Slot::Golden by {
        if k < w.golden_tus.len() {
            assert(next.golden_tus[k] == w.golden_tus[k]);
            assert(before[w.golden_tus[k] as int] == plan[w.golden_tus[k] as int]);
        }
    }
}

/// Whether all segments are ready and walk under the header of this payload.
pub open spec fn all_walk(done: Seq<Prepared<Seq<u8>>>, payload: Seq<u8>, sh: Header) -> bool {
    &&& seq_header::header_of(payload) == Ok::<Header, Error>(sh)
    &&& can_show(sh)
    &&& forall|s: int|
        0 <= s < done.len() ==> walks(#[trigger] done[s], payload, sh) && is_ready(done[s], sh)
}

proof fn lemma_key_place(
    w: Walked,
    done: Seq<Prepared<Seq<u8>>>,
    before: Seq<(int, Slot)>,
    s: int,
    ts: u64,
    payload: Seq<u8>,
    sh: Header,
)
    requires
        before.len() < u32::MAX,
        0 <= s < done.len(),
        all_walk(done, payload, sh),
        walked_places(w, done, before, sh),
    ensures
        ({
            let next = w.with_unit((ts, done[s].key_tu), before.len() as usize);
            next is Ok && walked_places(next->Ok_0, done, before.push((s, Slot::Key)), sh)
        }),
{
    let p = done[s];
    let tu = before.len() as usize;
    assert(walks(done[s], payload, sh) && is_ready(done[s], sh));
    lemma_frames_of_segment(p, payload, sh);
    let body = frame_payload(p.key_tu);
    let known = Walk { header: Some(sh), ..w };
    let k = key_scan(p, sh)->Ok_0;
    keyframes_reset_the_slots(body, sh, uheader::blank_slots(), w.dpb);
    uheader::scan_agrees_with_info(body, sh, w.dpb);
    let (after, kind) = known.with_coded(k, inspect::no_refs(), tu);
    assert(known.with_frame(body, tu) == Ok::<(Walked, TuKind<Seq<u8>>), InspectError>(
        (after, kind),
    ));
    lemma_single_unit(w, (ts, p.key_tu), tu, payload, sh, after, kind);
    let next = w.with_unit((ts, p.key_tu), tu)->Ok_0;
    lemma_one_more(w, after, next, done, before, (s, Slot::Key), sh);
}

proof fn lemma_golden_place(
    w: Walked,
    done: Seq<Prepared<Seq<u8>>>,
    before: Seq<(int, Slot)>,
    s: int,
    ts: u64,
    payload: Seq<u8>,
    sh: Header,
)
    requires
        0 < before.len() < u32::MAX,
        0 <= s < done.len(),
        all_walk(done, payload, sh),
        walked_places(w, done, before, sh),
        before.last() == (s, Slot::Key),
    ensures
        ({
            let next = w.with_unit((ts, done[s].golden_tu), before.len() as usize);
            next is Ok && walked_places(next->Ok_0, done, before.push((s, Slot::Golden)), sh)
        }),
{
    let p = done[s];
    let tu = before.len() as usize;
    assert(walks(done[s], payload, sh) && is_ready(done[s], sh));
    lemma_frames_of_segment(p, payload, sh);
    let body = frame_payload(p.golden_tu);
    let known = Walk { header: Some(sh), ..w };
    let g = golden_scan(p, sh)->Ok_0;
    uheader::scan_agrees_with_info(body, sh, w.dpb);
    inspect::scanned_frames_have_ref_slots(body, sh, w.dpb);
    let refs = inspect::ref_slots_of(body, sh)->Ok_0;
    let (after, kind) = known.with_coded(g, refs, tu);
    assert(known.with_frame(body, tu) == Ok::<(Walked, TuKind<Seq<u8>>), InspectError>(
        (after, kind),
    ));
    lemma_single_unit(w, (ts, p.golden_tu), tu, payload, sh, after, kind);
    let next = w.with_unit((ts, p.golden_tu), tu)->Ok_0;
    lemma_one_more(w, after, next, done, before, (s, Slot::Golden), sh);
}

proof fn lemma_show_place(
    w: Walked,
    done: Seq<Prepared<Seq<u8>>>,
    before: Seq<(int, Slot)>,
    s: int,
    ts: u64,
    payload: Seq<u8>,
    sh: Header,
)
    requires
        0 < before.len() < u32::MAX,
        0 <= s < done.len(),
        all_walk(done, payload, sh),
        walked_places(w, done, before, sh),
        before.last().0 == s,
        before.last().1 != Slot::Key,
    ensures
        ({
            let next = w.with_unit((ts, done[s].show_tu), before.len() as usize);
            next is Ok && walked_places(next->Ok_0, done, before.push((s, Slot::Show)), sh)
        }),
{
    let p = done[s];
    let tu = before.len() as usize;
    assert(walks(done[s], payload, sh) && is_ready(done[s], sh));
    lemma_frames_of_segment(p, payload, sh);
    assemble::show_existing_reads_back(p.golden_slot, sh);
    let obus = assemble::show_existing_obus(p.golden_slot);
    assert(lone_frame(obus, 1));
    let f = frame_at(obus);
    assert(lone_frame(obus, f));
    assert(f == 1);
    assert(single(p.show_tu, payload));
    let known = Walk { header: Some(sh), ..w };
    let kind: TuKind<Seq<u8>> = TuKind::ShowExisting {
        slot: p.golden_slot,
        slot_was_key: w.dpb[p.golden_slot as int].is_key_frame,
    };
    let after = Walk { show_existing_tus: w.show_existing_tus.push(tu), ..known };
    assert(known.with_frame(assemble::show_existing_payload(p.golden_slot), tu) == Ok::<
        (Walked, TuKind<Seq<u8>>),
        InspectError,
    >((after, kind)));
    lemma_single_unit(w, (ts, p.show_tu), tu, payload, sh, after, kind);
    let next = w.with_unit((ts, p.show_tu), tu)->Ok_0;
    lemma_one_more(w, after, next, done, before, (s, Slot::Show), sh);
}

/// Walking the first `n` places of an assembled stream.
proof fn lemma_walk_places(
    done: Seq<Prepared<Seq<u8>>>,
    frames: Seq<u64>,
    gop_size: u64,
    n: int,
    payload: Seq<u8>,
    sh: Header,
)
    requires
        gop_size >= 2,
        frames.len() == done.len(),
        0 <= n <= gop::plan(frames, gop_size).len() <= u32::MAX,
        all_walk(done, payload, sh),
    ensures
        ({
            let plan = gop::plan(frames, gop_size);
            let packets = ivf::numbered(assemble::planned_tus(done, plan));
            let w = inspect::walked(packets.take(n));
            w is Ok && walked_places(w->Ok_0, done, plan.take(n), sh)
        }),
    decreases n,
{
    let plan = gop::plan(frames, gop_size);
    let packets = ivf::numbered(assemble::planned_tus(done, plan));
    if n == 0 {
        assert(packets.take(0) =~= Seq::empty());
        assert(plan.take(0) =~= Seq::empty());
        assert(keys_from_zero(plan.take(0)) =~= Seq::empty());
    } else {
        lemma_walk_places(done, frames, gop_size, n - 1, payload, sh);
        let w = inspect::walked(packets.take(n - 1))->Ok_0;
        let before = plan.take(n - 1);
        let at = plan[n - 1];
        gop::places_follow_their_pattern(frames, gop_size, n - 1);
        assert(packets.take(n).drop_last() =~= packets.take(n - 1));
        assert(packets.take(n).last() == ((n - 1) as u64, assemble::planned_tu(done, at)));
        assert(before.push(at) =~= plan.take(n));
        if n > 1 {
            assert(before.last() == plan[n - 2]);
        }
        match at.1 {
            Slot::Key => lemma_key_place(w, done, before, at.0, (n - 1) as u64, payload, sh),
            Slot::Golden => lemma_golden_place(w, done, before, at.0, (n - 1) as u64, payload, sh),
            Slot::Show => lemma_show_place(w, done, before, at.0, (n - 1) as u64, payload, sh),
        }
    }
}

pub proof fn lemma_none_where(
    tus: Seq<TuReport<TuKind<Seq<u8>>>>,
    p: spec_fn(TuReport<TuKind<Seq<u8>>>) -> bool,
)
    requires
        forall|i: int| 0 <= i < tus.len() ==> !p(#[trigger] tus[i]),
    ensures
        report::numbers_where(tus, p).len() == 0,
    decreases tus.len(),
{
    if tus.len() > 0 {
        let front = tus.drop_last();
        assert forall|i: int| 0 <= i < front.len() implies !p(#[trigger] front[i]) by {
            assert(!p(tus[i]));
        }
        lemma_none_where(front, p);
        assert(!p(tus[tus.len() - 1]));
    }
}

/// Whether every check holds.
pub open spec fn all_hold(checks: Seq<report::Check>) -> bool {
    forall|i: int| 0 <= i < checks.len() ==> (#[trigger] checks[i]).1
}

/// Segments that are ready, whose frames' headers can be walked to their ends
/// and whose goldens predict from their keyframes, make a stream that can be
/// inspected, that passes every check and whose keyframes are where the plan
/// has them.
pub proof fn ready_segments_pass_the_checks(
    done: Seq<Prepared<Seq<u8>>>,
    frames: Seq<u64>,
    gop_size: u64,
    payload: Seq<u8>,
    sh: Header,
)
    requires
        gop_size >= 2,
        frames.len() == done.len(),
        0 < gop::plan(frames, gop_size).len() <= u32::MAX,
        all_walk(done, payload, sh),
    ensures
        ({
            let plan = gop::plan(frames, gop_size);
            let rep = inspect::report_of(ivf::numbered(assemble::planned_tus(done, plan)));
            &&& rep is Ok
            &&& all_hold(report::checks_of(rep->Ok_0))
            &&& rep->Ok_0.key_tus == keys_from_zero(plan)
            &&& rep->Ok_0.seq_header == sh
        }),
{
    let plan = gop::plan(frames, gop_size);
    let packets = ivf::numbered(assemble::planned_tus(done, plan));
    let n = plan.len() as int;
    lemma_walk_places(done, frames, gop_size, n, payload, sh);
    assert(packets.take(n) =~= packets);
    assert(plan.take(n) =~= plan);
    let w = inspect::walked(packets)->Ok_0;
    let rep = inspect::report_of(packets)->Ok_0;
    gop::places_follow_their_pattern(frames, gop_size, 0);
    assert(fits_place(w.tus[0], plan[0].1));
    let shows = |t: TuReport<TuKind<Seq<u8>>>| report::shows_key(t);
    let hides = |t: TuReport<TuKind<Seq<u8>>>| report::hides(t);
    assert forall|i: int| 0 <= i < rep.tus.len() implies !shows(#[trigger] rep.tus[i]) by {
        assert(fits_place(w.tus[i], plan[i].1));
    }
    assert forall|i: int| 0 <= i < rep.tus.len() implies !hides(#[trigger] rep.tus[i]) by {
        assert(fits_place(w.tus[i], plan[i].1));
    }
    lemma_none_where(rep.tus, shows);
    lemma_none_where(rep.tus, hides);
    assert forall|k: int| 0 <= k < rep.golden_tus.len() implies report::is_showable_inter(
        rep.tus[#[trigger] rep.golden_tus[k] as int],
    ) by {
        let i = w.golden_tus[k] as int;
        assert(fits_place(w.tus[i], plan[i].1));
    }
    gop::key_numbers_name_the_keyframes(plan);
    assert(gop::key_numbers(plan).contains(1u32));
    assert(rep.key_tus.len() > 0);
}

} // verus!
