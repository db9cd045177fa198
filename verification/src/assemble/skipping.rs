//! Temporal units that the search for the pair passes over.

use vstd::prelude::*;

use crate::assemble::scan::{self, Anchor, Headers, ScannedTu, Track};
use crate::assemble::search::{self, Search};
use crate::assemble::{self, INPUT_SCAN_TUS};
use crate::bitio::Cur;
use crate::frame_header;
use crate::ivf;
use crate::obu;
use crate::seq_header::Header;

verus! {

/// Whether a frame header shows no frame that it codes: it shows a stored one
/// again, or is that of an invisible frame.
pub open spec fn shows_nothing_new(payload: Seq<u8>) -> bool {
    let (existing, c) = Cur::start(payload).flag();
    existing || !c.f(2).1.flag().0
}

/// Under every sequence header that a frame header can be read with.
pub proof fn shows_nothing_new_is_what_is_read(payload: Seq<u8>, sh: Header)
    requires
        frame_header::info_of(payload, sh) is Ok,
    ensures
        ({
            let f = frame_header::info_of(payload, sh)->Ok_0;
            shows_nothing_new(payload) == (f.show_existing_frame || !f.show_frame)
        }),
{
}

/// Whether a temporal unit carries no sequence header and no frame that could
/// be the golden: it is frameless, shows a stored frame again, or its frame is
/// invisible.
pub open spec fn is_skippable(tu: Seq<u8>) -> bool {
    match obu::obus_of(tu) {
        Err(_) => false,
        Ok(obus) => {
            let frames = scan::frame_obus(obus);
            !assemble::has_header(obus) && (frames.len() == 0 || shows_nothing_new(
                frames[0].payload,
            ))
        },
    }
}

/// The temporal units that are not passed over, in order.
pub open spec fn without_skippable(tus: Seq<Seq<u8>>) -> Seq<Seq<u8>>
    decreases tus.len(),
{
    if tus.len() == 0 {
        Seq::empty()
    } else if is_skippable(tus.last()) {
        without_skippable(tus.drop_last())
    } else {
        without_skippable(tus.drop_last()).push(tus.last())
    }
}

proof fn lemma_without_len(tus: Seq<Seq<u8>>)
    ensures
        without_skippable(tus).len() <= tus.len(),
    decreases tus.len(),
{
    if tus.len() > 0 {
        lemma_without_len(tus.drop_last());
    }
}

/// Whether the same sequence header governs.
pub open spec fn same_header(a: Headers<Header, Seq<u8>>, b: Headers<Header, Seq<u8>>) -> bool {
    a.header == b.header && a.payload == b.payload
}

/// Whether the same temporal unit anchors two searches.
pub open spec fn same_anchor(
    xs: Seq<Seq<u8>>,
    a: Option<Anchor>,
    ys: Seq<Seq<u8>>,
    b: Option<Anchor>,
) -> bool {
    match (a, b) {
        (None, None) => true,
        (Some(a), Some(b)) => {
            &&& a.tu < xs.len()
            &&& b.tu < ys.len()
            &&& xs[a.tu as int] == ys[b.tu as int]
            &&& a.order_hint == b.order_hint
            &&& a.bits == b.bits
        },
        _ => false,
    }
}

/// Whether the same temporal unit is the golden of two searches.
pub open spec fn same_golden(
    xs: Seq<Seq<u8>>,
    a: Option<usize>,
    ys: Seq<Seq<u8>>,
    b: Option<usize>,
) -> bool {
    match (a, b) {
        (None, None) => true,
        (Some(a), Some(b)) => {
            &&& a < xs.len()
            &&& b < ys.len()
            &&& xs[a as int] == ys[b as int]
        },
        _ => false,
    }
}

/// Whether two searches have come to the same.
pub open spec fn agree(xs: Seq<Seq<u8>>, x: Search, ys: Seq<Seq<u8>>, y: Search) -> bool {
    &&& same_header(x.headers, y.headers)
    &&& same_anchor(xs, x.track.anchor, ys, y.track.anchor)
    &&& same_golden(xs, x.track.golden, ys, y.track.golden)
}

proof fn lemma_no_header(obus: Seq<obu::Obu<Seq<u8>>>, h: Headers<Header, Seq<u8>>)
    requires
        !assemble::has_header(obus),
    ensures
        scan::headers_after(obus, h) == h,
    decreases obus.len(),
{
    if obus.len() > 0 {
        let front = obus.drop_last();
        assert(obus[obus.len() - 1].obu_type != obu::ObuType::SequenceHeader);
        assert(!assemble::has_header(front)) by {
            if assemble::has_header(front) {
                let i = choose|i: int|
                    0 <= i < front.len() && (#[trigger] front[i]).obu_type
                        == obu::ObuType::SequenceHeader;
                assert(obus[i].obu_type == obu::ObuType::SequenceHeader);
            }
        }
        lemma_no_header(front, h);
    }
}

/// A temporal unit that is passed over changes neither the governing header
/// nor the anchor nor the golden.
proof fn lemma_passed_over(tus: Seq<Seq<u8>>)
    requires
        0 < tus.len() <= usize::MAX,
        is_skippable(tus.last()),
    ensures
        ({
            let before = search::searched(tus.drop_last());
            let after = search::searched(tus);
            &&& same_header(before.headers, after.headers)
            &&& before.track.anchor == after.track.anchor
            &&& before.track.golden == after.track.golden
        }),
{
    let s = search::searched(tus.drop_last());
    if s.track.golden is None {
        reveal(scan::classified);
        reveal(scan::judged);
        let obus = obu::obus_of(tus.last())->Ok_0;
        let h = scan::next_tu(s.headers);
        lemma_no_header(obus, h);
        let frames = scan::frame_obus(obus);
        if frames.len() > 0 && h.header is Some {
            let sh = h.header->Some_0;
            if frame_header::info_of(frames[0].payload, sh) is Ok {
                shows_nothing_new_is_what_is_read(frames[0].payload, sh);
            }
        }
    }
}

proof fn lemma_searches_agree(tus: Seq<Seq<u8>>)
    requires
        tus.len() <= usize::MAX,
    ensures
        agree(
            tus,
            search::searched(tus),
            without_skippable(tus),
            search::searched(without_skippable(tus)),
        ),
    decreases tus.len(),
{
    if tus.len() > 0 {
        let front = tus.drop_last();
        lemma_searches_agree(front);
        lemma_without_len(front);
        let fewer = without_skippable(front);
        let x = search::searched(front);
        let y = search::searched(fewer);
        if is_skippable(tus.last()) {
            lemma_passed_over(tus);
            let z = search::searched(tus);
            assert(same_anchor(tus, z.track.anchor, fewer, y.track.anchor));
            assert(same_golden(tus, z.track.golden, fewer, y.track.golden));
        } else {
            let all = without_skippable(tus);
            assert(all.drop_last() =~= fewer);
            if x.track.golden is None {
                lemma_classified_alike(tus.last(), x.headers, y.headers);
                let (found, headers) = scan::classified(tus.last(), x.headers);
                lemma_judged_alike(
                    front,
                    x.track,
                    fewer,
                    y.track,
                    tus.last(),
                    found,
                    headers.changed,
                    search::hint_bits(headers),
                );
                assert(front.push(tus.last()) =~= tus);
            } else {
                lemma_longer(front, x.track, fewer, y.track, tus.last());
                assert(front.push(tus.last()) =~= tus);
            }
        }
    }
}

/// What a temporal unit does to two searches that have come to the same.
proof fn lemma_judged_alike(
    xs: Seq<Seq<u8>>,
    x: Track,
    ys: Seq<Seq<u8>>,
    y: Track,
    tu: Seq<u8>,
    found: ScannedTu,
    changed: bool,
    bits: usize,
)
    requires
        xs.len() < usize::MAX,
        ys.len() < usize::MAX,
        x.golden is None,
        y.golden is None,
        same_anchor(xs, x.anchor, ys, y.anchor),
    ensures
        ({
            let a = scan::judged(x, xs.len() as usize, found, changed, bits).0;
            let b = scan::judged(y, ys.len() as usize, found, changed, bits).0;
            &&& same_anchor(xs.push(tu), a.anchor, ys.push(tu), b.anchor)
            &&& same_golden(xs.push(tu), a.golden, ys.push(tu), b.golden)
        }),
{
    reveal(scan::judged);
}

/// Searches that have come to the same stay so when they look no further.
proof fn lemma_longer(xs: Seq<Seq<u8>>, x: Track, ys: Seq<Seq<u8>>, y: Track, tu: Seq<u8>)
    requires
        same_anchor(xs, x.anchor, ys, y.anchor),
        same_golden(xs, x.golden, ys, y.golden),
    ensures
        same_anchor(xs.push(tu), x.anchor, ys.push(tu), y.anchor),
        same_golden(xs.push(tu), x.golden, ys.push(tu), y.golden),
{
}

proof fn lemma_classified_alike(
    tu: Seq<u8>,
    a: Headers<Header, Seq<u8>>,
    b: Headers<Header, Seq<u8>>,
)
    requires
        same_header(a, b),
    ensures
        scan::classified(tu, a) == scan::classified(tu, b),
{
    reveal(scan::classified);
    assert(scan::next_tu(a) == scan::next_tu(b));
}

/// The search is over with the golden.
proof fn lemma_golden_ends(tus: Seq<Seq<u8>>)
    requires
        tus.len() <= usize::MAX,
        search::searched(tus).track.golden is Some,
    ensures
        ({
            let g = search::searched(tus).track.golden->0;
            &&& g < tus.len()
            &&& search::searched(tus.take(g + 1)) == search::searched(tus)
        }),
    decreases tus.len(),
{
    if tus.len() > 0 {
        let front = tus.drop_last();
        let s = search::searched(front);
        if s.track.golden is Some {
            lemma_golden_ends(front);
            let g = s.track.golden->0;
            assert(front.take(g + 1) =~= tus.take(g + 1));
        } else {
            let (found, headers) = scan::classified(tus.last(), s.headers);
            scan::lemma_judged(
                s.track,
                (tus.len() - 1) as usize,
                found,
                headers.changed,
                search::hint_bits(headers),
            );
            let g = search::searched(tus).track.golden->0;
            assert(tus.take(g + 1) =~= tus);
        }
    }
}

/// Skippable temporal units do not change the chosen pair: an input that, up
/// to temporal unit `m` of the scanned window, holds the same temporal units
/// but for skippable ones as one that was split up to its golden, is split
/// into the same pair.
pub proof fn skippable_units_do_not_change_the_pair(
    a: Seq<(u64, Seq<u8>)>,
    b: Seq<(u64, Seq<u8>)>,
    m: int,
)
    requires
        search::split_of(a) is Ok,
        0 <= m < b.len(),
        m < INPUT_SCAN_TUS,
        ({
            let g = search::searched(search::scanned_tus(a)).track.golden->0;
            without_skippable(ivf::units(b).take(m + 1)) == without_skippable(ivf::units(a).take(g + 1))
        }),
    ensures
        search::split_of(b) == search::split_of(a),
{
    let xs = search::scanned_tus(a);
    let x = search::searched(xs);
    let g = x.track.golden->0;
    lemma_golden_ends(xs);
    let left = ivf::units(a).take(g + 1);
    assert(xs.take(g + 1) =~= left);
    lemma_searches_agree(left);
    let right = ivf::units(b).take(m + 1);
    lemma_searches_agree(right);
    let ys = search::scanned_tus(b);
    assert(ys.take(m + 1) =~= right);
    search::lemma_search_stops(ys, m + 1);
    assert(left[g as int] == xs[g as int]);
    search::search_keeps_its_promises(xs);
    let at = x.track.anchor->0.tu as int;
    assert(left[at] == xs[at]);
    let y = search::searched(ys);
    assert(ys[y.track.golden->0 as int] == right[y.track.golden->0 as int]);
    assert(ys[y.track.anchor->0.tu as int] == right[y.track.anchor->0.tu as int]);
}

proof fn lemma_without_concat(xs: Seq<Seq<u8>>, ys: Seq<Seq<u8>>)
    ensures
        without_skippable(xs + ys) == without_skippable(xs) + without_skippable(ys),
    decreases ys.len(),
{
    if ys.len() == 0 {
        assert(xs + ys =~= xs);
        assert(without_skippable(xs) + without_skippable(ys) =~= without_skippable(xs));
    } else {
        assert((xs + ys).drop_last() =~= xs + ys.drop_last());
        lemma_without_concat(xs, ys.drop_last());
        assert(without_skippable(xs + ys) =~= without_skippable(xs) + without_skippable(ys));
    }
}

/// A skippable temporal unit that is put in front of the golden leaves the
/// pair as it is, while the golden stays in the scanned window.
pub proof fn a_skippable_unit_in_front_of_the_golden_changes_nothing(
    a: Seq<(u64, Seq<u8>)>,
    at: int,
    unit: (u64, Seq<u8>),
)
    requires
        search::split_of(a) is Ok,
        is_skippable(unit.1),
        0 <= at <= search::searched(search::scanned_tus(a)).track.golden->0,
        search::searched(search::scanned_tus(a)).track.golden->0 + 1 < INPUT_SCAN_TUS,
    ensures
        search::split_of(a.insert(at, unit)) == search::split_of(a),
{
    let g = search::searched(search::scanned_tus(a)).track.golden->0;
    lemma_golden_ends(search::scanned_tus(a));
    let b = a.insert(at, unit);
    let front = ivf::units(a).take(at);
    let back = ivf::units(a).take(g + 1).skip(at);
    let one = seq![unit.1];
    assert(ivf::units(a).take(g + 1) =~= front + back);
    assert(ivf::units(b).take(g + 2) =~= front + one + back);
    lemma_without_concat(front, back);
    lemma_without_concat(front + one, back);
    lemma_without_concat(front, one);
    reveal_with_fuel(without_skippable, 2);
    assert(one.drop_last() =~= Seq::empty());
    assert(without_skippable(front) + without_skippable(one) =~= without_skippable(front));
    skippable_units_do_not_change_the_pair(a, b, g + 1);
}

} // verus!
