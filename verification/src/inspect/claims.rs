//! What each check claims of a report.

use vstd::prelude::*;

use crate::inspect::report;
use crate::inspect::single::lists;
use crate::inspect::{ReportView, TuKind, TuReport};
use crate::text;

verus! {

/// A list of numbers between brackets.
pub open spec fn bracketed(numbers: Seq<usize>) -> Seq<char> {
    text::list(Seq::new(numbers.len(), |i: int| numbers[i] as nat))
}

proof fn lemma_none_listed(
    tus: Seq<TuReport<TuKind<Seq<u8>>>>,
    p: spec_fn(TuReport<TuKind<Seq<u8>>>) -> bool,
)
    ensures
        report::numbers_where(tus, p).len() == 0 <==> (forall|i: int|
            0 <= i < tus.len() ==> !p(#[trigger] tus[i])),
    decreases tus.len(),
{
    if tus.len() > 0 {
        let front = tus.drop_last();
        lemma_none_listed(front, p);
        if report::numbers_where(tus, p).len() == 0 {
            assert forall|i: int| 0 <= i < tus.len() implies !p(#[trigger] tus[i]) by {
                if i < front.len() {
                    assert(front[i] == tus[i]);
                }
            }
        }
        if forall|i: int| 0 <= i < tus.len() ==> !p(#[trigger] tus[i]) {
            assert forall|i: int| 0 <= i < front.len() implies !p(#[trigger] front[i]) by {
                assert(front[i] == tus[i]);
            }
            assert(!p(tus[tus.len() - 1]));
        }
    }
}

/// The flag of a check is set exactly where what it claims holds of every
/// temporal unit of the report: there is one; the first is a coded frame of
/// type 0 that is shown; none shows again what is held as a keyframe; no coded
/// frame is hidden; each candidate for a golden is a coded frame of type 1 or 3
/// that can be shown again; there is a keyframe.
pub proof fn checks_hold_where_their_claims_do(rep: ReportView)
    ensures
        report::checks_of(rep).len() == 6,
        report::checks_of(rep)[0].0 == "stream nonempty"@,
        report::checks_of(rep)[1].0 == "first TU is a shown KEY_FRAME"@,
        report::checks_of(rep)[2].0 == "no show_existing of a KEY_FRAME"@,
        report::checks_of(rep)[3].0 == "every TU shows a frame"@,
        report::checks_of(rep)[4].0 == "golden frames are INTER+showable"@,
        report::checks_of(rep)[5].0 == "keyframe count ≥ 1"@,
        report::checks_of(rep)[0].1 <==> rep.tus.len() > 0,
        report::checks_of(rep)[1].1 <==> rep.tus.len() > 0 && match rep.tus[0].kind {
            TuKind::Coded { frame_type, show_frame, .. } => frame_type == 0 && show_frame,
            TuKind::ShowExisting { .. } => false,
        },
        report::checks_of(rep)[2].1 <==> (forall|i: int|
            0 <= i < rep.tus.len() ==> match (#[trigger] rep.tus[i]).kind {
                TuKind::Coded { .. } => true,
                TuKind::ShowExisting { slot_was_key, .. } => !slot_was_key,
            }),
        report::checks_of(rep)[3].1 <==> (forall|i: int|
            0 <= i < rep.tus.len() ==> match (#[trigger] rep.tus[i]).kind {
                TuKind::Coded { show_frame, .. } => show_frame,
                TuKind::ShowExisting { .. } => true,
            }),
        report::checks_of(rep)[4].1 <==> (forall|k: int|
            0 <= k < rep.golden_tus.len() ==> match rep.tus[#[trigger] rep.golden_tus[k] as int].kind {
                TuKind::Coded { frame_type, showable_frame, .. } => (frame_type == 1 || frame_type
                    == 3) && showable_frame,
                TuKind::ShowExisting { .. } => false,
            }),
        report::checks_of(rep)[5].1 <==> rep.key_tus.len() > 0,
{
    let shows = |t: TuReport<TuKind<Seq<u8>>>| report::shows_key(t);
    let hides = |t: TuReport<TuKind<Seq<u8>>>| report::hides(t);
    lemma_none_listed(rep.tus, shows);
    lemma_none_listed(rep.tus, hides);
    let c = report::checks_of(rep);
    if c[2].1 {
        assert forall|i: int| 0 <= i < rep.tus.len() implies match (#[trigger] rep.tus[i]).kind {
            TuKind::Coded { .. } => true,
            TuKind::ShowExisting { slot_was_key, .. } => !slot_was_key,
        } by {
            assert(!shows(rep.tus[i]));
        }
    }
    if c[3].1 {
        assert forall|i: int| 0 <= i < rep.tus.len() implies match (#[trigger] rep.tus[i]).kind {
            TuKind::Coded { show_frame, .. } => show_frame,
            TuKind::ShowExisting { .. } => true,
        } by {
            assert(!hides(rep.tus[i]));
        }
    }
    if c[4].1 {
        assert forall|k: int| 0 <= k < rep.golden_tus.len() implies match rep.tus[
        #[trigger] rep.golden_tus[k] as int].kind {
            TuKind::Coded { frame_type, showable_frame, .. } => (frame_type == 1 || frame_type == 3)
                && showable_frame,
            TuKind::ShowExisting { .. } => false,
        } by {
            assert(report::is_showable_inter(rep.tus[rep.golden_tus[k] as int]));
        }
    }
    if forall|k: int|
        0 <= k < rep.golden_tus.len() ==> match rep.tus[#[trigger] rep.golden_tus[k] as int].kind {
            TuKind::Coded { frame_type, showable_frame, .. } => (frame_type == 1 || frame_type == 3)
                && showable_frame,
            TuKind::ShowExisting { .. } => false,
        } {
        assert forall|k: int| 0 <= k < rep.golden_tus.len() implies report::is_showable_inter(
            rep.tus[#[trigger] rep.golden_tus[k] as int],
        ) by {}
    }
}

/// What a check that fails names: exactly the temporal units that make it fail,
/// in increasing order, where the report numbers its temporal units.
pub proof fn failing_checks_name_the_culprits(rep: ReportView)
    requires
        rep.tus.len() <= usize::MAX,
        forall|i: int| 0 <= i < rep.tus.len() ==> (#[trigger] rep.tus[i]).index == i,
    ensures
        !report::checks_of(rep)[2].1 ==> exists|bad: Seq<usize>|
            #![trigger bracketed(bad)]
            lists(
                bad,
                rep.tus,
                |t: TuReport<TuKind<Seq<u8>>>|
                    t.kind matches TuKind::ShowExisting { slot_was_key, .. } && slot_was_key,
            ) && report::checks_of(rep)[2].2 == "TUs "@ + bracketed(bad) + " re-show keyframes"@,
        !report::checks_of(rep)[3].1 ==> exists|bad: Seq<usize>|
            #![trigger bracketed(bad)]
            lists(
                bad,
                rep.tus,
                |t: TuReport<TuKind<Seq<u8>>>|
                    t.kind matches TuKind::Coded { show_frame, .. } && !show_frame,
            ) && report::checks_of(rep)[3].2 == "hidden coded frames at "@ + bracketed(bad),
{
    let shows = |t: TuReport<TuKind<Seq<u8>>>| report::shows_key(t);
    let hides = |t: TuReport<TuKind<Seq<u8>>>| report::hides(t);
    crate::inspect::single::lemma_lists(rep.tus, shows);
    crate::inspect::single::lemma_lists(rep.tus, hides);
    let a = report::numbers_where(rep.tus, shows);
    let b = report::numbers_where(rep.tus, hides);
    let shows2 = |t: TuReport<TuKind<Seq<u8>>>|
        t.kind matches TuKind::ShowExisting { slot_was_key, .. } && slot_was_key;
    let hides2 = |t: TuReport<TuKind<Seq<u8>>>|
        t.kind matches TuKind::Coded { show_frame, .. } && !show_frame;
    assert forall|t: TuReport<TuKind<Seq<u8>>>| #[trigger] shows(t) == shows2(t) by {}
    assert forall|t: TuReport<TuKind<Seq<u8>>>| #[trigger] hides(t) == hides2(t) by {}
    assert(lists(a, rep.tus, shows2)) by {
        assert forall|i: int| 0 <= i < rep.tus.len() && shows2(#[trigger] rep.tus[i]) implies a.contains(
            i as usize,
        ) by {
            assert(shows(rep.tus[i]));
        }
        assert forall|k: int| 0 <= k < a.len() implies (#[trigger] a[k]) < rep.tus.len() && shows2(
            rep.tus[a[k] as int],
        ) by {
            assert(shows(rep.tus[a[k] as int]));
        }
    }
    assert(lists(b, rep.tus, hides2)) by {
        assert forall|i: int| 0 <= i < rep.tus.len() && hides2(#[trigger] rep.tus[i]) implies b.contains(
            i as usize,
        ) by {
            assert(hides(rep.tus[i]));
        }
        assert forall|k: int| 0 <= k < b.len() implies (#[trigger] b[k]) < rep.tus.len() && hides2(
            rep.tus[b[k] as int],
        ) by {
            assert(hides(rep.tus[b[k] as int]));
        }
    }
    assert(report::checks_of(rep)[2].2 == if a.len() == 0 {
        report::checks_of(rep)[2].2
    } else {
        "TUs "@ + bracketed(a) + " re-show keyframes"@
    });
    assert(report::checks_of(rep)[3].2 == if b.len() == 0 {
        report::checks_of(rep)[3].2
    } else {
        "hidden coded frames at "@ + bracketed(b)
    });
}

} // verus!
