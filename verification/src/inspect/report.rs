//! Reports and checks as text.

use vstd::prelude::*;

use crate::error;
use crate::frame_header::{self, INTER_FRAME, KEY_FRAME, SWITCH_FRAME};
use crate::inspect::{self, InspectError, ReportView, StreamReport, TuKind, TuReport};
use crate::model;
use crate::text;

verus! {

/// What a temporal unit is, in words.
pub open spec fn kind_text(k: TuKind<Seq<u8>>) -> Seq<char> {
    match k {
        TuKind::Coded {
            frame_type,
            show_frame,
            showable_frame,
            refresh_frame_flags,
            order_hint,
            ref_slots,
        } => {
            let s = frame_header::name_of_type(frame_type) + " show="@ + text::one_or_zero(show_frame)
                + " showable="@ + text::one_or_zero(showable_frame) + " oh="@ + text::number(
                order_hint as nat,
            ) + " refresh="@ + text::binary(8, refresh_frame_flags as nat);
            if inspect::refers(frame_type) {
                s + " refs="@ + text::list(Seq::new(ref_slots.len(), |i: int| ref_slots[i] as nat))
            } else {
                s
            }
        },
        TuKind::ShowExisting { slot, slot_was_key } => "show_existing slot="@ + text::number(
            slot as nat,
        ) + " (holds "@ + if slot_was_key {
            "KEY_FRAME"@
        } else {
            "inter"@
        } + ")"@,
    }
}

/// What a temporal unit is, in words.
pub fn describe_kind(k: &TuKind) -> (r: String)
    ensures
        r@ == kind_text(k@),
{
    match k {
        TuKind::Coded {
            frame_type,
            show_frame,
            showable_frame,
            refresh_frame_flags,
            order_hint,
            ref_slots,
        } => {
            let mut s = String::from_str(frame_header::frame_type_name(*frame_type));
            s.append(" show=");
            s.append(text::one_or_zero_text(*show_frame));
            s.append(" showable=");
            s.append(text::one_or_zero_text(*showable_frame));
            s.append(" oh=");
            text::put_number(&mut s, *order_hint);
            s.append(" refresh=");
            let bits = text::binary_text(8, *refresh_frame_flags as u64);
            s.append(bits.as_str());
            if *frame_type == INTER_FRAME || *frame_type == SWITCH_FRAME {
                let mut refs: Vec<usize> = Vec::new();
                let mut i: usize = 0;
                while i < 7
                    invariant
                        i <= 7,
                        refs@.len() == i,
                        forall|k: int| 0 <= k < i ==> #[trigger] refs@[k] == ref_slots@[k],
                    decreases 7 - i,
                {
                    refs.push(ref_slots[i] as usize);
                    i = i + 1;
                }
                assert(Seq::new(refs@.len(), |i: int| refs@[i] as nat) =~= Seq::new(
                    ref_slots@.len(),
                    |i: int| ref_slots@[i] as nat,
                ));
                s.append(" refs=");
                let list = text::list_text(&refs);
                s.append(list.as_str());
            }
            s
        },
        TuKind::ShowExisting { slot, slot_was_key } => {
            let mut s = String::from_str("show_existing slot=");
            text::put_number(&mut s, *slot as u64);
            s.append(" (holds ");
            s.append(
                if *slot_was_key {
                    "KEY_FRAME"
                } else {
                    "inter"
                },
            );
            s.append(")");
            s
        },
    }
}

// ---------- errors ----------

impl InspectError {
    /// What went wrong, without its cause.
    pub open spec fn text(self) -> Seq<char> {
        match self {
            InspectError::BadFraming { tu, .. } => "TU "@ + text::number(tu as nat) + ": bad OBU framing"@,
            InspectError::BadSequenceHeader { tu, .. } => "TU "@ + text::number(tu as nat) + ": bad sequence header"@,
            InspectError::HeaderChanged(tu) => "TU "@ + text::number(tu as nat) + ": sequence header changed mid-stream"@,
            InspectError::FrameBeforeHeader => "frame OBU before sequence header"@,
            InspectError::BadFrameHeader { tu, .. } => "TU "@ + text::number(tu as nat) + ": bad frame header"@,
            InspectError::ShowBeforeCoded(tu) => "TU "@ + text::number(tu as nat) + ": show_existing before any coded frame"@,
            InspectError::ScanFailed { tu, .. } => "TU "@ + text::number(tu as nat) + ": header scan failed"@,
            InspectError::RefSlots { tu, .. } => "TU "@ + text::number(tu as nat) + ": ref slots"@,
            InspectError::NoFrame(tu) => "TU "@ + text::number(tu as nat) + ": no frame OBU"@,
            InspectError::NoSequenceHeader => "stream has no sequence header"@,
        }
    }

    /// What went wrong, without its cause.
    pub fn message(&self) -> (r: String)
        ensures
            r@ == self.text(),
    {
        match *self {
            InspectError::BadFraming { tu, .. } => {
                let mut s = String::from_str("TU ");
                text::put_number(&mut s, tu as u64);
                s.append(": bad OBU framing");
                s
            },
            InspectError::BadSequenceHeader { tu, .. } => {
                let mut s = String::from_str("TU ");
                text::put_number(&mut s, tu as u64);
                s.append(": bad sequence header");
                s
            },
            InspectError::HeaderChanged(tu) => {
                let mut s = String::from_str("TU ");
                text::put_number(&mut s, tu as u64);
                s.append(": sequence header changed mid-stream");
                s
            },
            InspectError::FrameBeforeHeader => String::from_str("frame OBU before sequence header"),
            InspectError::BadFrameHeader { tu, .. } => {
                let mut s = String::from_str("TU ");
                text::put_number(&mut s, tu as u64);
                s.append(": bad frame header");
                s
            },
            InspectError::ShowBeforeCoded(tu) => {
                let mut s = String::from_str("TU ");
                text::put_number(&mut s, tu as u64);
                s.append(": show_existing before any coded frame");
                s
            },
            InspectError::ScanFailed { tu, .. } => {
                let mut s = String::from_str("TU ");
                text::put_number(&mut s, tu as u64);
                s.append(": header scan failed");
                s
            },
            InspectError::RefSlots { tu, .. } => {
                let mut s = String::from_str("TU ");
                text::put_number(&mut s, tu as u64);
                s.append(": ref slots");
                s
            },
            InspectError::NoFrame(tu) => {
                let mut s = String::from_str("TU ");
                text::put_number(&mut s, tu as u64);
                s.append(": no frame OBU");
                s
            },
            InspectError::NoSequenceHeader => String::from_str("stream has no sequence header"),
        }
    }

    /// What went wrong, with its cause.
    pub open spec fn full(self) -> Seq<char> {
        match self {
            InspectError::BadFraming { cause, .. } => error::caused(self.text(), cause.full()),
            InspectError::BadSequenceHeader { cause, .. } => error::caused(self.text(), cause.full()),
            InspectError::BadFrameHeader { cause, .. } => error::caused(self.text(), cause.full()),
            InspectError::ScanFailed { cause, .. } => error::caused(self.text(), cause.full()),
            InspectError::RefSlots { cause, .. } => error::caused(self.text(), cause.full()),
            _ => self.text(),
        }
    }

    /// What went wrong, with its cause.
    pub fn chain(&self) -> (r: String)
        ensures
            r@ == self.full(),
    {
        match *self {
            InspectError::BadFraming { cause, .. } => error::caused_text(self.message(), &cause.chain()),
            InspectError::BadSequenceHeader { cause, .. } => error::caused_text(self.message(), &cause.chain()),
            InspectError::BadFrameHeader { cause, .. } => error::caused_text(self.message(), &cause.chain()),
            InspectError::ScanFailed { cause, .. } => error::caused_text(self.message(), &cause.chain()),
            InspectError::RefSlots { cause, .. } => error::caused_text(self.message(), &cause.chain()),
            _ => self.message(),
        }
    }
}

// ---------- checks ----------

/// Whether the temporal unit shows a keyframe again.
pub open spec fn shows_key(t: TuReport<TuKind<Seq<u8>>>) -> bool {
    t.kind matches TuKind::ShowExisting { slot_was_key, .. } && slot_was_key
}

/// Whether the temporal unit holds a frame that is not shown.
pub open spec fn hides(t: TuReport<TuKind<Seq<u8>>>) -> bool {
    t.kind matches TuKind::Coded { show_frame, .. } && !show_frame
}

/// Whether the temporal unit holds a shown keyframe.
pub open spec fn is_shown_key(t: TuReport<TuKind<Seq<u8>>>) -> bool {
    t.kind matches TuKind::Coded { frame_type, show_frame, .. } && frame_type == KEY_FRAME
        && show_frame
}

/// Whether the temporal unit holds a frame that predicts from others and can
/// be shown again.
pub open spec fn is_showable_inter(t: TuReport<TuKind<Seq<u8>>>) -> bool {
    t.kind matches TuKind::Coded { frame_type, showable_frame, .. } && inspect::refers(frame_type)
        && showable_frame
}

/// The numbers of the temporal units of which `p` holds.
pub open spec fn numbers_where(
    tus: Seq<TuReport<TuKind<Seq<u8>>>>,
    p: spec_fn(TuReport<TuKind<Seq<u8>>>) -> bool,
) -> Seq<usize>
    decreases tus.len(),
{
    if tus.len() == 0 {
        Seq::empty()
    } else {
        inspect::listed(numbers_where(tus.drop_last(), p), tus.last().index, p(tus.last()))
    }
}

/// A list of numbers as text.
pub open spec fn numbers_text(numbers: Seq<usize>) -> Seq<char> {
    text::list(Seq::new(numbers.len(), |i: int| numbers[i] as nat))
}

/// A check: its name, whether it holds, and what was found.
pub type Check = (Seq<char>, bool, Seq<char>);

pub open spec fn nonempty_check(rep: ReportView) -> Check {
    (
        "stream nonempty"@,
        rep.tus.len() > 0,
        text::number(rep.tus.len()) + " temporal units"@,
    )
}

pub open spec fn first_check(rep: ReportView) -> Check {
    (
        "first TU is a shown KEY_FRAME"@,
        rep.tus.len() > 0 && is_shown_key(rep.tus[0]),
        if rep.tus.len() > 0 {
            kind_text(rep.tus[0].kind)
        } else {
            "empty"@
        },
    )
}

pub open spec fn shows_check(rep: ReportView) -> Check {
    let bad = numbers_where(rep.tus, |t: TuReport<TuKind<Seq<u8>>>| shows_key(t));
    (
        "no show_existing of a KEY_FRAME"@,
        bad.len() == 0,
        if bad.len() == 0 {
            text::number(rep.show_existing_tus.len()) + " show_existing TUs, all non-key"@
        } else {
            "TUs "@ + numbers_text(bad) + " re-show keyframes"@
        },
    )
}

pub open spec fn hidden_check(rep: ReportView) -> Check {
    let hidden = numbers_where(rep.tus, |t: TuReport<TuKind<Seq<u8>>>| hides(t));
    (
        "every TU shows a frame"@,
        hidden.len() == 0,
        if hidden.len() == 0 {
            "all TUs shown"@
        } else {
            "hidden coded frames at "@ + numbers_text(hidden)
        },
    )
}

pub open spec fn golden_check(rep: ReportView) -> Check {
    (
        "golden frames are INTER+showable"@,
        forall|k: int|
            0 <= k < rep.golden_tus.len() ==> is_showable_inter(
                rep.tus[#[trigger] rep.golden_tus[k] as int],
            ),
        text::number(rep.golden_tus.len()) + " non-key coded frames"@,
    )
}

pub open spec fn keys_check(rep: ReportView) -> Check {
    (
        "keyframe count ≥ 1"@,
        rep.key_tus.len() > 0,
        text::number(rep.key_tus.len()) + " shown keyframes"@,
    )
}

/// The checks of a report.
pub open spec fn checks_of(rep: ReportView) -> Seq<Check> {
    seq![
        nonempty_check(rep),
        first_check(rep),
        shows_check(rep),
        hidden_check(rep),
        golden_check(rep),
        keys_check(rep),
    ]
}

/// Whether the golden candidates are temporal units of the report.
pub open spec fn goldens_within(rep: ReportView) -> bool {
    forall|k: int| 0 <= k < rep.golden_tus.len() ==> (#[trigger] rep.golden_tus[k]) < rep.tus.len()
}

/// The view of a list of checks.
pub open spec fn check_views(checks: Seq<(&'static str, bool, String)>) -> Seq<Check> {
    Seq::new(checks.len(), |i: int| (checks[i].0@, checks[i].1, checks[i].2@))
}

fn shows_a_key(t: &TuReport) -> (r: bool)
    ensures
        r == shows_key(t@),
{
    match &t.kind {
        TuKind::ShowExisting { slot_was_key, .. } => *slot_was_key,
        _ => false,
    }
}

fn hides_its_frame(t: &TuReport) -> (r: bool)
    ensures
        r == hides(t@),
{
    match &t.kind {
        TuKind::Coded { show_frame, .. } => !*show_frame,
        _ => false,
    }
}

/// The temporal units that show a keyframe again.
fn shown_keys(rep: &StreamReport) -> (r: Vec<usize>)
    ensures
        r@ == numbers_where(rep@.tus, |t: TuReport<TuKind<Seq<u8>>>| shows_key(t)),
{
    let ghost all = rep@.tus;
    let ghost p = |t: TuReport<TuKind<Seq<u8>>>| shows_key(t);
    let mut found: Vec<usize> = Vec::new();
    let mut i: usize = 0;
    assert(all.take(0) =~= Seq::empty());
    assert(found@ =~= Seq::empty());
    while i < rep.tus.len()
        invariant
            i <= rep.tus@.len(),
            all == model::views(rep.tus@),
            p == (|t: TuReport<TuKind<Seq<u8>>>| shows_key(t)),
            found@ == numbers_where(all.take(i as int), p),
        decreases rep.tus@.len() - i,
    {
        assert(all.take(i + 1).drop_last() =~= all.take(i as int));
        assert(all[i as int] == rep.tus@[i as int]@);
        if shows_a_key(&rep.tus[i]) {
            found.push(rep.tus[i].index);
        }
        i = i + 1;
    }
    assert(all.take(i as int) =~= all);
    found
}

/// The temporal units whose frame is not shown.
fn hidden_frames(rep: &StreamReport) -> (r: Vec<usize>)
    ensures
        r@ == numbers_where(rep@.tus, |t: TuReport<TuKind<Seq<u8>>>| hides(t)),
{
    let ghost all = rep@.tus;
    let ghost p = |t: TuReport<TuKind<Seq<u8>>>| hides(t);
    let mut found: Vec<usize> = Vec::new();
    let mut i: usize = 0;
    assert(all.take(0) =~= Seq::empty());
    assert(found@ =~= Seq::empty());
    while i < rep.tus.len()
        invariant
            i <= rep.tus@.len(),
            all == model::views(rep.tus@),
            p == (|t: TuReport<TuKind<Seq<u8>>>| hides(t)),
            found@ == numbers_where(all.take(i as int), p),
        decreases rep.tus@.len() - i,
    {
        assert(all.take(i + 1).drop_last() =~= all.take(i as int));
        assert(all[i as int] == rep.tus@[i as int]@);
        if hides_its_frame(&rep.tus[i]) {
            found.push(rep.tus[i].index);
        }
        i = i + 1;
    }
    assert(all.take(i as int) =~= all);
    found
}

/// Whether every golden candidate predicts from others and can be shown again.
fn goldens_showable(rep: &StreamReport) -> (r: bool)
    requires
        goldens_within(rep@),
    ensures
        r == golden_check(rep@).1,
{
    let ghost all = rep@.tus;
    let mut k: usize = 0;
    while k < rep.golden_tus.len()
        invariant
            k <= rep.golden_tus@.len(),
            goldens_within(rep@),
            all == rep@.tus,
            forall|j: int|
                0 <= j < k ==> is_showable_inter(all[#[trigger] rep.golden_tus@[j] as int]),
        decreases rep.golden_tus@.len() - k,
    {
        let i = rep.golden_tus[k];
        assert(rep@.golden_tus[k as int] == i);
        assert(all[i as int] == rep.tus@[i as int]@);
        let ok = match &rep.tus[i].kind {
            TuKind::Coded { frame_type, showable_frame, .. } => (*frame_type == INTER_FRAME
                || *frame_type == SWITCH_FRAME) && *showable_frame,
            _ => false,
        };
        if !ok {
            assert(!is_showable_inter(all[rep@.golden_tus[k as int] as int]));
            return false;
        }
        k = k + 1;
    }
    true
}

fn counted(n: usize, what: &str) -> (r: String)
    ensures
        r@ == text::number(n as nat) + what@,
{
    let mut s = text::number_text(n as u64);
    s.append(what);
    s
}

/// The invariant checks `stillcast` streams must satisfy — each returns a
/// (name, ok, detail) triple; `ok == false` means the stream is NOT a valid
/// stillcast stream in the way described.
pub fn checks(rep: &StreamReport) -> (r: Vec<(&'static str, bool, String)>)
    requires
        goldens_within(rep@),
    ensures
        check_views(r@) == checks_of(rep@),
{
    let n = rep.tus.len();
    let mut out: Vec<(&'static str, bool, String)> = Vec::new();
    out.push(("stream nonempty", n > 0, counted(n, " temporal units")));

    let mut first_ok = false;
    let mut first_text = String::from_str("empty");
    if n > 0 {
        assert(rep@.tus[0] == rep.tus@[0]@);
        first_ok = match &rep.tus[0].kind {
            TuKind::Coded { frame_type, show_frame, .. } => *frame_type == KEY_FRAME && *show_frame,
            _ => false,
        };
        first_text = describe_kind(&rep.tus[0].kind);
    }
    out.push(("first TU is a shown KEY_FRAME", first_ok, first_text));

    let bad_show = shown_keys(rep);
    let no_bad_show = bad_show.len() == 0;
    let shows_text = if no_bad_show {
        counted(rep.show_existing_tus.len(), " show_existing TUs, all non-key")
    } else {
        let mut s = String::from_str("TUs ");
        let l = text::list_text(&bad_show);
        s.append(l.as_str());
        s.append(" re-show keyframes");
        s
    };
    out.push(("no show_existing of a KEY_FRAME", no_bad_show, shows_text));

    let hidden = hidden_frames(rep);
    let none_hidden = hidden.len() == 0;
    let hidden_text = if none_hidden {
        String::from_str("all TUs shown")
    } else {
        let mut s = String::from_str("hidden coded frames at ");
        let l = text::list_text(&hidden);
        s.append(l.as_str());
        s
    };
    out.push(("every TU shows a frame", none_hidden, hidden_text));

    out.push(
        (
            "golden frames are INTER+showable",
            goldens_showable(rep),
            counted(rep.golden_tus.len(), " non-key coded frames"),
        ),
    );
    out.push(
        (
            "keyframe count ≥ 1",
            rep.key_tus.len() > 0,
            counted(rep.key_tus.len(), " shown keyframes"),
        ),
    );
    assert(check_views(out@) =~= checks_of(rep@));
    out
}

} // verus!
