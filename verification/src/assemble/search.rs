//! The search for the pair of temporal units that an output is made of.

use vstd::prelude::*;

use crate::assemble::scan::{self, Anchor, Headers, ScannedTu, Track, TuNote};
use crate::assemble::{SplitError, INPUT_SCAN_TUS};
use crate::seq_header::{OperatingPoint, Sections};

verus! {

/// The search after some temporal units.
pub struct Search {
    pub headers: Headers<Sections<Seq<OperatingPoint>>, Seq<u8>>,
    pub track: Track,
    pub notes: Seq<TuNote>,
}

/// order_hint_bits of the governing sequence header.
pub open spec fn hint_bits(h: Headers<Sections<Seq<OperatingPoint>>, Seq<u8>>) -> usize {
    match h.header {
        Some(sh) => sh.tools.inter.order_hint_bits,
        None => 0,
    }
}

/// The search after all of `tus`; once a golden is found nothing more is
/// looked at.
pub open spec fn searched(tus: Seq<Seq<u8>>) -> Search
    decreases tus.len(),
{
    if tus.len() == 0 {
        Search { headers: scan::no_headers(), track: scan::start(), notes: Seq::empty() }
    } else {
        let s = searched(tus.drop_last());
        if s.track.golden is Some {
            s
        } else {
            let (found, headers) = scan::classified(tus.last(), s.headers);
            let (track, note) = scan::judged(
                s.track,
                (tus.len() - 1) as usize,
                found,
                headers.changed,
                hint_bits(headers),
            );
            Search { headers, track, notes: s.notes.push(note) }
        }
    }
}

/// The temporal units that are scanned.
pub open spec fn scanned_tus(frames: Seq<(u64, Seq<u8>)>) -> Seq<Seq<u8>> {
    Seq::new(
        if frames.len() < INPUT_SCAN_TUS {
            frames.len()
        } else {
            INPUT_SCAN_TUS as nat
        },
        |i: int| frames[i].1,
    )
}

/// The pair that an input is split into, or why there is none.
pub open spec fn split_of(frames: Seq<(u64, Seq<u8>)>) -> Result<
    (Seq<u8>, Seq<u8>),
    SplitError<Seq<TuNote>>,
> {
    let tus = scanned_tus(frames);
    let s = searched(tus);
    if frames.len() == 0 {
        Err(SplitError::Empty)
    } else {
        match (s.track.anchor, s.track.golden) {
            (Some(a), Some(g)) => Ok((tus[a.tu as int], tus[g as int])),
            _ => Err(
                SplitError::NoPair {
                    window: tus.len() as usize,
                    total: frames.len() as usize,
                    notes: s.notes,
                    track: s.track,
                },
            ),
        }
    }
}

/// The search stops growing once a golden is found.
pub proof fn lemma_search_stops(tus: Seq<Seq<u8>>, i: int)
    requires
        0 <= i <= tus.len(),
        searched(tus.take(i)).track.golden is Some,
    ensures
        searched(tus) == searched(tus.take(i)),
    decreases tus.len(),
{
    if i == tus.len() {
        assert(tus.take(i) =~= tus);
    } else {
        assert(tus.drop_last().take(i) =~= tus.take(i));
        lemma_search_stops(tus.drop_last(), i);
    }
}

/// Whether temporal unit `i` can anchor the search as `a`: it holds a sequence
/// header and exactly one frame, a shown keyframe.
pub open spec fn anchors_at(tus: Seq<Seq<u8>>, i: int, a: Anchor) -> bool {
    let s = searched(tus.take(i));
    let (found, headers) = scan::classified(tus[i], s.headers);
    match found {
        ScannedTu::Coded { seq_header, extra_frames, info } => {
            &&& scan::is_anchor(seq_header, info)
            &&& extra_frames == 0
            &&& a.tu == i
            &&& a.order_hint == info.order_hint
            &&& a.bits == hint_bits(headers)
        },
        _ => false,
    }
}

/// Whether temporal unit `i` is a golden behind the anchor `a`: it holds
/// exactly one frame, which can be shown again and directly follows the anchor.
pub open spec fn golden_at(tus: Seq<Seq<u8>>, i: int, a: Anchor) -> bool {
    let s = searched(tus.take(i));
    match scan::classified(tus[i], s.headers).0 {
        ScannedTu::Coded { extra_frames, info, .. } => extra_frames == 0 && scan::is_golden(
            info,
            a,
        ),
        _ => false,
    }
}

/// No sequence header from temporal unit `a` (not counting it) to `g` differs
/// from the one before it.
pub open spec fn header_unchanged(tus: Seq<Seq<u8>>, a: int, g: int) -> bool {
    forall|i: int|
        a < i <= g ==> !(#[trigger] scan::classified(
            tus[i],
            searched(tus.take(i)).headers,
        )).1.changed
}

/// What holds of the search at any time: its anchor is one, its golden is one
/// behind that anchor, and they are within what was scanned.
pub proof fn search_keeps_its_promises(tus: Seq<Seq<u8>>)
    requires
        tus.len() <= usize::MAX,
    ensures
        ({
            let t = searched(tus).track;
            &&& t.anchor matches Some(a) ==> a.tu < tus.len() && anchors_at(tus, a.tu as int, a)
            &&& t.golden matches Some(g) ==> {
                &&& g < tus.len()
                &&& t.anchor is Some
                &&& t.anchor->0.tu < g
                &&& golden_at(tus, g as int, t.anchor->0)
                &&& header_unchanged(tus, t.anchor->0.tu as int, g as int)
            }
            &&& t.golden is None ==> t.anchor is Some ==> header_unchanged(
                tus,
                t.anchor->0.tu as int,
                tus.len() - 1,
            )
        }),
    decreases tus.len(),
{
    if tus.len() > 0 {
        let n = tus.len() - 1;
        let head = tus.drop_last();
        search_keeps_its_promises(head);
        assert(tus.take(n) =~= head);
        let s = searched(head);
        let t = searched(tus).track;
        assert forall|i: int| 0 <= i <= n implies #[trigger] tus.take(i) == head.take(i) by {
            assert(head.take(i) =~= tus.take(i));
        }
        if s.track.anchor is Some {
            let a = s.track.anchor->0;
            lemma_prefix_anchor(tus, a);
            if s.track.golden is Some {
                lemma_prefix_unchanged(tus, a.tu as int, s.track.golden->0 as int);
                assert(tus.take(s.track.golden->0 as int) == head.take(s.track.golden->0 as int));
            } else {
                lemma_prefix_unchanged(tus, a.tu as int, n - 1);
            }
        }
        if s.track.golden is None {
            let (found, headers) = scan::classified(tus.last(), s.headers);
            scan::lemma_judged(s.track, n as usize, found, headers.changed, hint_bits(headers));
        }
    }
}

/// An anchor of the temporal units but for the last is one of all.
proof fn lemma_prefix_anchor(tus: Seq<Seq<u8>>, a: Anchor)
    requires
        a.tu < tus.len() - 1,
        anchors_at(tus.drop_last(), a.tu as int, a),
    ensures
        anchors_at(tus, a.tu as int, a),
{
    assert(tus.drop_last().take(a.tu as int) =~= tus.take(a.tu as int));
}

proof fn lemma_prefix_unchanged(tus: Seq<Seq<u8>>, a: int, g: int)
    requires
        0 <= a,
        g < tus.len() - 1,
        header_unchanged(tus.drop_last(), a, g),
    ensures
        header_unchanged(tus, a, g),
{
    let head = tus.drop_last();
    assert forall|i: int| a < i <= g implies !(#[trigger] scan::classified(
        tus[i],
        searched(tus.take(i)).headers,
    )).1.changed by {
        assert(head.take(i) =~= tus.take(i));
        assert(!scan::classified(head[i], searched(head.take(i)).headers).1.changed);
    }
}

/// A pair that an input is split into meets the contract: the first is a
/// temporal unit with a sequence header and a shown keyframe, the second comes
/// behind it under the same sequence header and is a shown non-key frame that
/// can be shown again, is stored in a slot and directly follows the keyframe.
pub proof fn split_gives_a_usable_pair(frames: Seq<(u64, Seq<u8>)>)
    requires
        split_of(frames) is Ok,
    ensures
        ({
            let tus = scanned_tus(frames);
            let t = searched(tus).track;
            let a = t.anchor->0;
            let g = t.golden->0;
            &&& split_of(frames)->Ok_0 == (frames[a.tu as int].1, frames[g as int].1)
            &&& a.tu < g < INPUT_SCAN_TUS
            &&& g < frames.len()
            &&& anchors_at(tus, a.tu as int, a)
            &&& golden_at(tus, g as int, a)
            &&& header_unchanged(tus, a.tu as int, g as int)
        }),
{
    search_keeps_its_promises(scanned_tus(frames));
}

} // verus!
