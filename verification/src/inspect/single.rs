//! Streams whose temporal units have one frame each.

use vstd::prelude::*;

use crate::assemble;
use crate::container::stream;
use crate::frame_header::KEY_FRAME;
use crate::inspect::assembled::{self, lone_frame};
use crate::inspect::report::{self, numbers_where};
use crate::inspect::{self, TuKind, TuReport, UnitNote, Walk, Walked};
use crate::obu::{self, Obu, ObuType};
use crate::seq_header::{self, Header};

verus! {

/// Whether the temporal unit has exactly one frame or frame header OBU.
pub open spec fn one_frame(tu: Seq<u8>) -> bool {
    obu::obus_of(tu) is Ok && exists|f: int| lone_frame(obu::obus_of(tu)->Ok_0, f)
}

/// What the first sequence header says, where there is one that can be read.
pub open spec fn first_parsed(obus: stream::Unit) -> Option<Header> {
    match assemble::first_header(obus) {
        None => None,
        Some(o) => match seq_header::header_of(o.payload) {
            Ok(sh) => Some(sh),
            Err(_) => None,
        },
    }
}

proof fn lemma_first_header_push(obus: stream::Unit, o: Obu<Seq<u8>>)
    ensures
        assemble::first_header(obus.push(o)) == match assemble::first_header(obus) {
            Some(h) => Some(h),
            None => if o.obu_type == ObuType::SequenceHeader {
                Some(o)
            } else {
                None
            },
        },
    decreases obus.len(),
{
    reveal_with_fuel(assemble::first_header, 2);
    let all = obus.push(o);
    if obus.len() == 0 {
        assert(all.skip(1) =~= Seq::empty());
    } else {
        assert(all.skip(1) =~= obus.skip(1).push(o));
        lemma_first_header_push(obus.skip(1), o);
    }
}

/// A header in front is the first of all.
pub proof fn lemma_first_header_prefix(obus: stream::Unit, n: int)
    requires
        0 <= n <= obus.len(),
        assemble::first_header(obus.take(n)) is Some,
    ensures
        assemble::first_header(obus) == assemble::first_header(obus.take(n)),
    decreases obus.len(),
{
    if n == obus.len() {
        assert(obus.take(n) =~= obus);
    } else {
        let front = obus.drop_last();
        assert(front.take(n) =~= obus.take(n));
        lemma_first_header_prefix(front, n);
        lemma_first_header_push(front, obus.last());
        assert(front.push(obus.last()) =~= obus);
    }
}

/// In front of the frame, only a sequence header is learned.
proof fn lemma_in_front(w: Walked, obus: stream::Unit, tu: usize, f: int, n: int)
    requires
        lone_frame(obus, f),
        0 <= n <= f,
        w.with_obus(obus.take(n), tu) is Ok,
    ensures
        ({
            let (after, note) = w.with_obus(obus.take(n), tu)->Ok_0;
            &&& after == (Walk { header: after.header, ..w })
            &&& after.header == match w.header {
                Some(sh) => Some(sh),
                None => first_parsed(obus.take(n)),
            }
            &&& note == (UnitNote { has_seq: assemble::has_header(obus.take(n)), kind: None })
        }),
    decreases n,
{
    let part = obus.take(n);
    if n == 0 {
        assert(part =~= Seq::empty());
    } else {
        let o = obus[n - 1];
        assert(part.drop_last() =~= obus.take(n - 1));
        assert(obus.take(n - 1).push(o) =~= part);
        assert(part.last() == o);
        lemma_in_front(w, obus, tu, f, n - 1);
        lemma_first_header_push(obus.take(n - 1), o);
        assembled::lemma_has_header_step(obus, n - 1);
        assert(!stream::is_frame(o));
        let (before, _) = w.with_obus(obus.take(n - 1), tu)->Ok_0;
        if o.obu_type == ObuType::SequenceHeader && before.header is None {
            lemma_unparsed(w, obus, tu, n - 1);
        }
    }
}

/// While no header is known, none was seen.
proof fn lemma_unparsed(w: Walked, obus: stream::Unit, tu: usize, n: int)
    requires
        0 <= n <= obus.len(),
        w.with_obus(obus.take(n), tu) is Ok,
        w.with_obus(obus.take(n), tu)->Ok_0.0.header is None,
    ensures
        assemble::first_header(obus.take(n)) is None,
    decreases n,
{
    let part = obus.take(n);
    if n == 0 {
        assert(part =~= Seq::empty());
    } else {
        let o = obus[n - 1];
        assert(part.drop_last() =~= obus.take(n - 1));
        assert(obus.take(n - 1).push(o) =~= part);
        assert(part.last() == o);
        lemma_unparsed(w, obus, tu, n - 1);
        lemma_first_header_push(obus.take(n - 1), o);
    }
}

/// Behind the frame, nothing is learned.
proof fn lemma_behind(w: Walked, obus: stream::Unit, tu: usize, f: int, n: int)
    requires
        lone_frame(obus, f),
        f < n <= obus.len(),
        w.with_obus(obus.take(n), tu) is Ok,
    ensures
        w.with_obus(obus.take(f), tu) is Ok,
        ({
            let (before, _) = w.with_obus(obus.take(f), tu)->Ok_0;
            let frame = before.with_frame(obus[f].payload, tu);
            let (after, note) = w.with_obus(obus.take(n), tu)->Ok_0;
            &&& frame is Ok
            &&& after == frame->Ok_0.0
            &&& note == (UnitNote {
                has_seq: assemble::has_header(obus.take(n)),
                kind: Some(frame->Ok_0.1),
            })
        }),
    decreases n,
{
    let part = obus.take(n);
    assert(part.drop_last() =~= obus.take(n - 1));
    assert(part.last() == obus[n - 1]);
    assembled::lemma_has_header_step(obus, n - 1);
    if n == f + 1 {
        lemma_in_front(w, obus, tu, f, f);
    } else {
        lemma_behind(w, obus, tu, f, n - 1);
        assert(!stream::is_frame(obus[n - 1]));
    }
}

/// The header that the frame of a temporal unit is read under.
pub open spec fn header_for(w: Walked, tu: Seq<u8>) -> Option<Header> {
    match w.header {
        Some(sh) => Some(sh),
        None => first_parsed(obu::obus_of(tu)->Ok_0),
    }
}

/// A temporal unit of one frame that was walked adds what its frame is, read
/// under the first sequence header of the stream.
pub proof fn lemma_walked_unit(w: Walked, packet: (u64, Seq<u8>), tu: usize)
    requires
        one_frame(packet.1),
        w.with_unit(packet, tu) is Ok,
    ensures
        ({
            let obus = obu::obus_of(packet.1)->Ok_0;
            let known = Walk { header: header_for(w, packet.1), ..w };
            let frame = known.with_frame(assembled::frame_payload(packet.1), tu);
            let next = w.with_unit(packet, tu)->Ok_0;
            let (after, kind) = frame->Ok_0;
            &&& known.header is Some
            &&& frame is Ok
            &&& after.tus == w.tus
            &&& after.header == known.header
            &&& next == (Walk { tus: next.tus, ..after })
            &&& next.tus == w.tus.push(
                TuReport {
                    index: tu,
                    timestamp: packet.0,
                    bytes: packet.1.len() as usize,
                    has_seq_header: assemble::has_header(obus),
                    kind,
                },
            )
        }),
{
    let obus = obu::obus_of(packet.1)->Ok_0;
    let f = assembled::frame_at(obus);
    assert(lone_frame(obus, f));
    let n = obus.len() as int;
    assert(obus.take(n) =~= obus);
    lemma_behind(w, obus, tu, f, n);
    lemma_in_front(w, obus, tu, f, f);
    let (before, _) = w.with_obus(obus.take(f), tu)->Ok_0;
    assert(before.header is Some);
    if w.header is None {
        lemma_first_header_prefix(obus, f);
    }
    assert(before == Walk { header: header_for(w, packet.1), ..w });
}

/// Whether the temporal unit holds a coded frame that is no keyframe.
pub open spec fn is_coded_non_key(t: TuReport<TuKind<Seq<u8>>>) -> bool {
    t.kind matches TuKind::Coded { frame_type, .. } && frame_type != KEY_FRAME
}

/// Whether the temporal unit shows a stored frame again.
pub open spec fn is_show(t: TuReport<TuKind<Seq<u8>>>) -> bool {
    t.kind is ShowExisting
}

/// Whether the list holds, in increasing order, exactly the numbers of the
/// temporal units of which `p` holds.
pub open spec fn lists(
    list: Seq<usize>,
    tus: Seq<TuReport<TuKind<Seq<u8>>>>,
    p: spec_fn(TuReport<TuKind<Seq<u8>>>) -> bool,
) -> bool {
    &&& forall|k: int| 0 <= k < list.len() ==> (#[trigger] list[k]) < tus.len() && p(tus[list[k] as int])
    &&& forall|i: int| 0 <= i < tus.len() && p(#[trigger] tus[i]) ==> list.contains(i as usize)
    &&& forall|j: int, k: int| 0 <= j < k < list.len() ==> #[trigger] list[j] < #[trigger] list[k]
}

pub proof fn lemma_lists(
    tus: Seq<TuReport<TuKind<Seq<u8>>>>,
    p: spec_fn(TuReport<TuKind<Seq<u8>>>) -> bool,
)
    requires
        tus.len() <= usize::MAX,
        forall|i: int| 0 <= i < tus.len() ==> (#[trigger] tus[i]).index == i,
    ensures
        lists(numbers_where(tus, p), tus, p),
    decreases tus.len(),
{
    if tus.len() > 0 {
        let front = tus.drop_last();
        let list = numbers_where(tus, p);
        let short = numbers_where(front, p);
        lemma_lists(front, p);
        assert forall|k: int| 0 <= k < list.len() implies (#[trigger] list[k]) < tus.len() && p(
            tus[list[k] as int],
        ) by {
            if k < short.len() {
                assert(list[k] == short[k]);
                assert(front[short[k] as int] == tus[short[k] as int]);
            }
        }
        assert forall|i: int| 0 <= i < tus.len() && p(#[trigger] tus[i]) implies list.contains(
            i as usize,
        ) by {
            if i < front.len() {
                assert(front[i] == tus[i]);
                let k = choose|k: int| 0 <= k < short.len() && short[k] == i as usize;
                assert(list[k] == i as usize);
            } else {
                assert(list[list.len() - 1] == i as usize);
            }
        }
        assert forall|j: int, k: int| 0 <= j < k < list.len() implies #[trigger] list[j]
            < #[trigger] list[k] by {
            assert(list[j] == short[j]);
            if k < short.len() {
                assert(list[k] == short[k]);
            }
        }
    }
}

pub open spec fn shown_keys() -> spec_fn(TuReport<TuKind<Seq<u8>>>) -> bool {
    |t: TuReport<TuKind<Seq<u8>>>| report::is_shown_key(t)
}

pub open spec fn non_keys() -> spec_fn(TuReport<TuKind<Seq<u8>>>) -> bool {
    |t: TuReport<TuKind<Seq<u8>>>| is_coded_non_key(t)
}

pub open spec fn shows() -> spec_fn(TuReport<TuKind<Seq<u8>>>) -> bool {
    |t: TuReport<TuKind<Seq<u8>>>| is_show(t)
}

proof fn lemma_walked_lists(packets: Seq<(u64, Seq<u8>)>)
    requires
        packets.len() <= usize::MAX,
        forall|i: int| 0 <= i < packets.len() ==> one_frame((#[trigger] packets[i]).1),
        inspect::walked(packets) is Ok,
    ensures
        ({
            let w = inspect::walked(packets)->Ok_0;
            &&& w.tus.len() == packets.len()
            &&& w.key_tus == numbers_where(w.tus, shown_keys())
            &&& w.golden_tus == numbers_where(w.tus, non_keys())
            &&& w.show_existing_tus == numbers_where(w.tus, shows())
            &&& forall|i: int|
                0 <= i < packets.len() ==> {
                    let t = #[trigger] w.tus[i];
                    &&& t.index == i
                    &&& t.timestamp == packets[i].0
                    &&& t.bytes == packets[i].1.len() as usize
                    &&& t.has_seq_header == assemble::has_header(
                        obu::obus_of(packets[i].1)->Ok_0,
                    )
                }
        }),
    decreases packets.len(),
{
    if packets.len() == 0 {
    } else {
        let front = packets.drop_last();
        assert forall|i: int| 0 <= i < front.len() implies one_frame((#[trigger] front[i]).1) by {
            assert(one_frame(packets[i].1));
        }
        lemma_walked_lists(front);
        let before = inspect::walked(front)->Ok_0;
        let tu = (packets.len() - 1) as usize;
        assert(one_frame(packets[packets.len() - 1].1));
        lemma_walked_unit(before, packets.last(), tu);
        let w = inspect::walked(packets)->Ok_0;
        assert(w.tus.drop_last() =~= before.tus);
        assert forall|i: int| 0 <= i < packets.len() implies {
            let t = #[trigger] w.tus[i];
            &&& t.index == i
            &&& t.timestamp == packets[i].0
            &&& t.bytes == packets[i].1.len() as usize
            &&& t.has_seq_header == assemble::has_header(obu::obus_of(packets[i].1)->Ok_0)
        } by {
            if i < front.len() {
                assert(w.tus[i] == before.tus[i]);
                assert(front[i] == packets[i]);
            }
        }
    }
}

/// A report on temporal units of one frame each tells their number, timestamp
/// and size, and lists exactly those with a shown keyframe, those with a coded
/// frame that is no keyframe, and those that show a stored frame again.
pub proof fn report_lists_every_frame(packets: Seq<(u64, Seq<u8>)>)
    requires
        packets.len() <= usize::MAX,
        forall|i: int| 0 <= i < packets.len() ==> one_frame((#[trigger] packets[i]).1),
        inspect::report_of(packets) is Ok,
    ensures
        ({
            let rep = inspect::report_of(packets)->Ok_0;
            &&& rep.tus.len() == packets.len()
            &&& lists(rep.key_tus, rep.tus, shown_keys())
            &&& lists(rep.golden_tus, rep.tus, non_keys())
            &&& lists(rep.show_existing_tus, rep.tus, shows())
            &&& forall|i: int|
                0 <= i < packets.len() ==> {
                    let t = #[trigger] rep.tus[i];
                    &&& t.index == i
                    &&& t.timestamp == packets[i].0
                    &&& t.bytes == packets[i].1.len() as usize
                    &&& t.has_seq_header == assemble::has_header(
                        obu::obus_of(packets[i].1)->Ok_0,
                    )
                }
        }),
{
    lemma_walked_lists(packets);
    let w = inspect::walked(packets)->Ok_0;
    lemma_lists(w.tus, shown_keys());
    lemma_lists(w.tus, non_keys());
    lemma_lists(w.tus, shows());
}

} // verus!
