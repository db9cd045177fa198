//! What the pair that an input is split into is, told from its frame headers.

use vstd::arithmetic::power2::*;
use vstd::prelude::*;

use crate::assemble::scan::{self, Anchor, Headers, ScannedTu};
use crate::assemble::search;
use crate::error::Error;
use crate::frame_header::{self, FrameHeaderInfo};
use crate::obu::{self, Obu};
use crate::seq_header::{self, Header};

verus! {

/// Whether an OBU holds a frame header.
pub open spec fn codes(o: Obu<Seq<u8>>) -> bool {
    o.obu_type is Frame || o.obu_type is FrameHeader
}

/// Whether OBU `f` is the only one of the unit that holds a frame header, and
/// reads as `info` under the header `sh`.
pub open spec fn sole_frame(tu: Seq<u8>, f: int, sh: Header, info: FrameHeaderInfo) -> bool {
    &&& obu::obus_of(tu) is Ok
    &&& 0 <= f < obu::obus_of(tu)->Ok_0.len()
    &&& codes(obu::obus_of(tu)->Ok_0[f])
    &&& forall|i: int|
        0 <= i < obu::obus_of(tu)->Ok_0.len() && i != f ==> !codes(
            #[trigger] obu::obus_of(tu)->Ok_0[i],
        )
    &&& frame_header::info_of(obu::obus_of(tu)->Ok_0[f].payload, sh) == Ok::<
        FrameHeaderInfo,
        Error,
    >(info)
}

/// Whether OBU `k` is the last sequence header of the unit, and reads as `sh`.
pub open spec fn last_header(tu: Seq<u8>, k: int, sh: Header) -> bool {
    &&& obu::obus_of(tu) is Ok
    &&& 0 <= k < obu::obus_of(tu)->Ok_0.len()
    &&& obu::obus_of(tu)->Ok_0[k].obu_type is SequenceHeader
    &&& forall|i: int|
        k < i < obu::obus_of(tu)->Ok_0.len() ==> !((
        #[trigger] obu::obus_of(tu)->Ok_0[i]).obu_type is SequenceHeader)
    &&& seq_header::header_of(obu::obus_of(tu)->Ok_0[k].payload) == Ok::<Header, Error>(sh)
}

/// Whether a frame starts a stream: a key frame that is shown.
pub open spec fn starts_a_stream(info: FrameHeaderInfo) -> bool {
    !info.show_existing_frame && info.frame_type == Some(0u8) && info.show_frame
}

/// Whether a frame can be shown over and over behind the key frame `key`: it is
/// no key frame, is shown and can be shown again, stays in some slot, and where
/// frames are numbered has the number behind the key frame's.
pub open spec fn can_be_held(info: FrameHeaderInfo, key: FrameHeaderInfo, bits: usize) -> bool {
    &&& !info.show_existing_frame
    &&& info.frame_type != Some(0u8)
    &&& info.show_frame
    &&& info.showable_frame
    &&& info.refresh_frame_flags > 0
    &&& bits > 0 ==> info.order_hint == (key.order_hint + 1) % (pow2(bits as nat) as int)
}

proof fn lemma_frames(obus: Seq<Obu<Seq<u8>>>) -> (f: int)
    requires
        scan::frame_obus(obus).len() <= 1,
    ensures
        scan::frame_obus(obus).len() == 1 ==> {
            &&& 0 <= f < obus.len()
            &&& codes(obus[f])
            &&& scan::frame_obus(obus)[0] == obus[f]
            &&& forall|i: int| 0 <= i < obus.len() && i != f ==> !codes(#[trigger] obus[i])
        },
        scan::frame_obus(obus).len() == 0 ==> forall|i: int|
            0 <= i < obus.len() ==> !codes(#[trigger] obus[i]),
    decreases obus.len(),
{
    if obus.len() == 0 {
        0
    } else {
        let front = obus.drop_last();
        if scan::is_frame(obus.last().obu_type) {
            assert(scan::frame_obus(obus) == scan::frame_obus(front).push(obus.last()));
            let g = lemma_frames(front);
            assert forall|i: int| 0 <= i < obus.len() && i != front.len() implies !codes(
                #[trigger] obus[i],
            ) by {
                assert(front[i] == obus[i]);
            }
            front.len() as int
        } else {
            let g = lemma_frames(front);
            assert forall|i: int| 0 <= i < front.len() implies front[i] == #[trigger] obus[i] by {}
            if scan::frame_obus(front).len() == 1 {
                assert forall|i: int| 0 <= i < obus.len() && i != g implies !codes(
                    #[trigger] obus[i],
                ) by {
                    if i < front.len() {
                        assert(!codes(front[i]));
                    }
                }
            } else {
                assert forall|i: int| 0 <= i < obus.len() implies !codes(#[trigger] obus[i]) by {
                    if i < front.len() {
                        assert(!codes(front[i]));
                    }
                }
            }
            g
        }
    }
}

/// The headers behind OBUs that change none.
proof fn lemma_kept(obus: Seq<Obu<Seq<u8>>>, h: Headers<Header, Seq<u8>>, sh: Header)
    requires
        h.header == Some(sh),
        h.payload is Some,
        seq_header::header_of(h.payload->Some_0) == Ok::<Header, Error>(sh),
        !scan::headers_after(obus, h).changed,
    ensures
        scan::headers_after(obus, h).header == Some(sh),
        scan::headers_after(obus, h).payload == h.payload,
    decreases obus.len(),
{
    if obus.len() > 0 {
        lemma_kept(obus.drop_last(), h, sh);
    }
}

/// The headers behind OBUs with a sequence header.
proof fn lemma_present(obus: Seq<Obu<Seq<u8>>>, h: Headers<Header, Seq<u8>>) -> (k: int)
    requires
        !h.present,
        scan::headers_after(obus, h).present,
        scan::headers_after(obus, h).bad is None,
    ensures
        0 <= k < obus.len(),
        obus[k].obu_type is SequenceHeader,
        forall|i: int| k < i < obus.len() ==> !((#[trigger] obus[i]).obu_type is SequenceHeader),
        scan::headers_after(obus, h).payload == Some(obus[k].payload),
        scan::headers_after(obus, h).header is Some,
        seq_header::header_of(obus[k].payload) == Ok::<Header, Error>(
            scan::headers_after(obus, h).header->Some_0,
        ),
    decreases obus.len(),
{
    let front = obus.drop_last();
    if obus.last().obu_type is SequenceHeader {
        obus.len() - 1
    } else {
        let k = lemma_present(front, h);
        assert forall|i: int| k < i < obus.len() implies !((
        #[trigger] obus[i]).obu_type is SequenceHeader) by {
            if i < front.len() {
                assert(front[i] == obus[i]);
            }
        }
        k
    }
}

/// Until the golden is found, the search looks at every unit.
proof fn lemma_looks(tus: Seq<Seq<u8>>, i: int)
    requires
        tus.len() <= usize::MAX,
        0 <= i < tus.len(),
        search::searched(tus).track.golden matches Some(g) && i <= g,
    ensures
        search::searched(tus.take(i)).track.golden is None,
        search::searched(tus.take(i + 1)).headers == scan::classified(
            tus[i],
            search::searched(tus.take(i)).headers,
        ).1,
{
    let past = tus.take(i);
    search::search_keeps_its_promises(past);
    if search::searched(past).track.golden is Some {
        search::lemma_search_stops(tus, i);
    }
    assert(tus.take(i + 1).drop_last() =~= past);
    assert(tus.take(i + 1).last() == tus[i]);
}

/// From the anchor to the golden the same header governs.
proof fn lemma_governs(tus: Seq<Seq<u8>>, a: int, g: int, sh: Header, i: int)
    requires
        tus.len() <= usize::MAX,
        0 <= a < i <= g < tus.len(),
        search::searched(tus).track.golden == Some(g as usize),
        search::header_unchanged(tus, a, g),
        ({
            let h = scan::classified(tus[a], search::searched(tus.take(a)).headers).1;
            &&& h.header == Some(sh)
            &&& h.payload is Some
            &&& seq_header::header_of(h.payload->Some_0) == Ok::<Header, Error>(sh)
        }),
    ensures
        ({
            let h = scan::classified(tus[i], search::searched(tus.take(i)).headers).1;
            &&& h.header == Some(sh)
            &&& h.payload is Some
            &&& seq_header::header_of(h.payload->Some_0) == Ok::<Header, Error>(sh)
        }),
    decreases i - a,
{
    reveal(scan::classified);
    lemma_looks(tus, i - 1);
    if i - 1 > a {
        lemma_governs(tus, a, g, sh, i - 1);
    }
    let h = search::searched(tus.take(i)).headers;
    assert(!scan::classified(tus[i], h).1.changed);
    if obu::obus_of(tus[i]) is Ok {
        lemma_kept(obu::obus_of(tus[i])->Ok_0, scan::next_tu(h), sh);
    }
}

/// What a unit that codes one frame holds.
proof fn lemma_coded(tu: Seq<u8>, h: Headers<Header, Seq<u8>>, seq_header: bool, info: FrameHeaderInfo)
    requires
        scan::classified(tu, h).0 == (ScannedTu::Coded { seq_header, extra_frames: 0, info }),
        obu::obus_of(tu) is Ok ==> scan::frame_obus(obu::obus_of(tu)->Ok_0).len() <= usize::MAX,
    ensures
        scan::classified(tu, h).1.header is Some,
        exists|f: int|
            #[trigger] sole_frame(tu, f, scan::classified(tu, h).1.header->Some_0, info),
        !info.show_existing_frame,
        seq_header ==> scan::classified(tu, h).1.payload is Some && seq_header::header_of(
            scan::classified(tu, h).1.payload->Some_0,
        ) == Ok::<Header, Error>(scan::classified(tu, h).1.header->Some_0),
        seq_header ==> exists|k: int|
            #[trigger] last_header(tu, k, scan::classified(tu, h).1.header->Some_0),
{
    reveal(scan::classified);
    let obus = obu::obus_of(tu)->Ok_0;
    let sh = scan::classified(tu, h).1.header->Some_0;
    let f = lemma_frames(obus);
    assert(sole_frame(tu, f, sh, info));
    if seq_header {
        let k = lemma_present(obus, scan::next_tu(h));
        assert(last_header(tu, k, sh));
    }
}

/// There are no more frames than bytes.
proof fn lemma_few(obus: Seq<Obu<Seq<u8>>>)
    ensures
        scan::frame_obus(obus).len() <= obus.len(),
    decreases obus.len(),
{
    if obus.len() > 0 {
        lemma_few(obus.drop_last());
    }
}

/// There are no more OBUs than bytes.
proof fn lemma_short(data: Seq<u8>)
    requires
        obu::obus_of(data) is Ok,
    ensures
        obu::obus_of(data)->Ok_0.len() <= data.len(),
    decreases data.len(),
{
    if data.len() > 0 {
        obu::lemma_front_obu_len(data);
        let n = obu::front_obu(data)->Ok_0.1;
        lemma_short(data.skip(n as int));
    }
}

/// The pair that an input is split into: two of its first eight units, the
/// first in front of the second. The first holds a sequence header and one
/// frame, which starts a stream; the second holds one frame, which under the
/// same header can be held behind the first.
pub proof fn a_pair_can_be_held(frames: Seq<(u64, Seq<u8>)>) -> (r: (
    (int, int),
    Header,
    (FrameHeaderInfo, FrameHeaderInfo),
))
    requires
        search::split_of(frames) is Ok,
        forall|i: int| 0 <= i < frames.len() ==> (#[trigger] frames[i]).1.len() <= usize::MAX,
    ensures
        ({
            let ((a, g), sh, (key, golden)) = r;
            let pair = search::split_of(frames)->Ok_0;
            &&& 0 <= a < g < 8
            &&& g < frames.len()
            &&& pair == (frames[a].1, frames[g].1)
            &&& exists|k: int| #[trigger] last_header(pair.0, k, sh)
            &&& exists|f: int| #[trigger] sole_frame(pair.0, f, sh, key)
            &&& exists|f: int| #[trigger] sole_frame(pair.1, f, sh, golden)
            &&& starts_a_stream(key)
            &&& can_be_held(golden, key, sh.tools.inter.order_hint_bits)
        }),
{
    let tus = search::scanned_tus(frames);
    search::split_gives_a_usable_pair(frames);
    let t = search::searched(tus).track;
    let anchor = t.anchor->0;
    let a = anchor.tu as int;
    let g = t.golden->0 as int;
    assert(tus[a] == frames[a].1 && tus[g] == frames[g].1);
    lemma_unit_few(tus[a]);
    lemma_unit_few(tus[g]);
    let (found, h) = scan::classified(tus[a], search::searched(tus.take(a)).headers);
    let key = found->info;
    lemma_coded(tus[a], search::searched(tus.take(a)).headers, true, key);
    let sh = h.header->Some_0;
    let k = choose|k: int| #[trigger] last_header(tus[a], k, sh);
    let f = choose|f: int| #[trigger] sole_frame(tus[a], f, sh, key);
    lemma_governs(tus, a, g, sh, g);
    let shown = scan::classified(tus[g], search::searched(tus.take(g)).headers).0;
    let golden = shown->info;
    lemma_coded(tus[g], search::searched(tus.take(g)).headers, shown->Coded_seq_header, golden);
    let f2 = choose|f: int| #[trigger] sole_frame(tus[g], f, sh, golden);
    let bits = sh.tools.inter.order_hint_bits;
    if bits > 0 {
        seq_header::parsed_header_re_emits(h.payload->Some_0);
        lemma_hint(key.order_hint, bits);
    }
    let pair = search::split_of(frames)->Ok_0;
    assert(pair == (frames[a].1, frames[g].1));
    assert(last_header(pair.0, k, sh));
    assert(sole_frame(pair.0, f, sh, key));
    assert(sole_frame(pair.1, f2, sh, golden));
    ((a, g), sh, (key, golden))
}

proof fn lemma_unit_few(tu: Seq<u8>)
    requires
        tu.len() <= usize::MAX,
    ensures
        obu::obus_of(tu) is Ok ==> scan::frame_obus(obu::obus_of(tu)->Ok_0).len() <= usize::MAX,
{
    if obu::obus_of(tu) is Ok {
        lemma_short(tu);
        lemma_few(obu::obus_of(tu)->Ok_0);
    }
}

/// The number behind an order hint.
proof fn lemma_hint(hint: u64, bits: usize)
    requires
        0 < bits < 64,
    ensures
        scan::next_hint(hint, bits) == (hint + 1) % (pow2(bits as nat) as int),
{
    lemma_pow2_pos(bits as nat);
    crate::bitio::lemma_pow2_monotone(bits as nat, 63);
    lemma2_to64_rest();
    vstd::arithmetic::div_mod::lemma_mod_bound(hint + 1, pow2(bits as nat) as int);
}

/// Whether OBU `k` is the only sequence header of the unit.
pub open spec fn sole_header(tu: Seq<u8>, k: int) -> bool {
    forall|i: int|
        0 <= i < obu::obus_of(tu)->Ok_0.len() && i != k ==> !((
        #[trigger] obu::obus_of(tu)->Ok_0[i]).obu_type is SequenceHeader)
}

/// OBUs of which one is a sequence header, or none where `k` is not a place.
proof fn lemma_one_header(obus: Seq<Obu<Seq<u8>>>, h: Headers<Header, Seq<u8>>, k: int, sh: Header)
    requires
        h.bad is None,
        h.payload is None,
        forall|i: int|
            0 <= i < obus.len() && i != k ==> !((#[trigger] obus[i]).obu_type is SequenceHeader),
        0 <= k < obus.len() ==> obus[k].obu_type is SequenceHeader && seq_header::header_of(
            obus[k].payload,
        ) == Ok::<Header, Error>(sh),
    ensures
        ({
            let r = scan::headers_after(obus, h);
            if 0 <= k < obus.len() {
                &&& r.header == Some(sh)
                &&& r.payload == Some(obus[k].payload)
                &&& r.present
                &&& r.changed == h.changed
                &&& r.bad is None
            } else {
                r == h
            }
        }),
    decreases obus.len(),
{
    if obus.len() > 0 {
        let front = obus.drop_last();
        assert forall|i: int| 0 <= i < front.len() && i != k implies !((
        #[trigger] front[i]).obu_type is SequenceHeader) by {
            assert(front[i] == obus[i]);
        }
        lemma_one_header(front, h, k, sh);
    }
}

/// OBUs without a sequence header change no header.
proof fn lemma_no_header(obus: Seq<Obu<Seq<u8>>>, h: Headers<Header, Seq<u8>>)
    requires
        forall|i: int| 0 <= i < obus.len() ==> !((#[trigger] obus[i]).obu_type is SequenceHeader),
    ensures
        scan::headers_after(obus, h) == h,
    decreases obus.len(),
{
    if obus.len() > 0 {
        let front = obus.drop_last();
        assert forall|i: int| 0 <= i < front.len() implies !((
        #[trigger] front[i]).obu_type is SequenceHeader) by {
            assert(front[i] == obus[i]);
        }
        lemma_no_header(front, h);
    }
}

/// OBUs of which one holds a frame, or none where `f` is not a place.
proof fn lemma_one_frame(obus: Seq<Obu<Seq<u8>>>, f: int)
    requires
        forall|i: int| 0 <= i < obus.len() && i != f ==> !codes(#[trigger] obus[i]),
        0 <= f < obus.len() ==> codes(obus[f]),
    ensures
        scan::frame_obus(obus) == if 0 <= f < obus.len() {
            seq![obus[f]]
        } else {
            Seq::empty()
        },
    decreases obus.len(),
{
    if obus.len() > 0 {
        let front = obus.drop_last();
        assert forall|i: int| 0 <= i < front.len() && i != f implies !codes(
            #[trigger] front[i],
        ) by {
            assert(front[i] == obus[i]);
        }
        lemma_one_frame(front, f);
        assert(scan::is_frame(obus.last().obu_type) == codes(obus.last()));
        if f == front.len() {
            assert(Seq::<Obu<Seq<u8>>>::empty().push(obus.last()) =~= seq![obus[f]]);
        }
    }
}

/// A pair that stands in front of an input is the one that it is split into: a
/// unit with one sequence header and one frame, which starts a stream, and
/// right behind it a unit without one whose only frame can be held.
pub proof fn a_pair_in_front_is_taken(
    frames: Seq<(u64, Seq<u8>)>,
    k: int,
    sh: Header,
    f: int,
    key: FrameHeaderInfo,
    f2: int,
    golden: FrameHeaderInfo,
)
    requires
        frames.len() >= 2,
        last_header(frames[0].1, k, sh),
        sole_header(frames[0].1, k),
        sole_frame(frames[0].1, f, sh, key),
        starts_a_stream(key),
        sole_frame(frames[1].1, f2, sh, golden),
        sole_header(frames[1].1, -1),
        can_be_held(golden, key, sh.tools.inter.order_hint_bits),
    ensures
        search::split_of(frames) == Ok::<
            (Seq<u8>, Seq<u8>),
            crate::assemble::SplitError<Seq<scan::TuNote>>,
        >((frames[0].1, frames[1].1)),
{
    reveal(scan::classified);
    reveal(scan::judged);
    let tus = search::scanned_tus(frames);
    let none = scan::no_headers();
    let one = tus.take(1);
    let two = tus.take(2);
    assert(one.drop_last() =~= tus.take(0));
    assert(two.drop_last() =~= one);
    assert(tus.take(0).len() == 0);
    assert(one.last() == frames[0].1 && two.last() == frames[1].1);
    let obus = obu::obus_of(frames[0].1)->Ok_0;
    lemma_one_header(obus, scan::next_tu(none), k, sh);
    lemma_one_frame(obus, f);
    let zero = search::searched(tus.take(0));
    assert(zero.headers == none && zero.track == scan::start());
    let (found, headers) = scan::classified(frames[0].1, none);
    assert(found == (ScannedTu::Coded { seq_header: true, extra_frames: 0, info: key }));
    let first = search::searched(one);
    let bits = sh.tools.inter.order_hint_bits;
    assert(first.track.anchor == Some(Anchor { tu: 0, order_hint: key.order_hint, bits }));
    assert(first.track.golden is None);
    let obus2 = obu::obus_of(frames[1].1)->Ok_0;
    lemma_no_header(obus2, scan::next_tu(first.headers));
    lemma_one_frame(obus2, f2);
    if bits > 0 {
        seq_header::parsed_header_re_emits(obus[k].payload);
        lemma_hint(key.order_hint, bits);
    }
    let (found2, headers2) = scan::classified(frames[1].1, first.headers);
    assert(found2 == (ScannedTu::Coded { seq_header: false, extra_frames: 0, info: golden }));
    assert(!headers2.changed);
    let second = search::searched(two);
    assert(second.track.golden == Some(1usize));
    assert(second.track.anchor == first.track.anchor);
    search::lemma_search_stops(tus, 2);
}

} // verus!
