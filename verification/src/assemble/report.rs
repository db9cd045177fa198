//! Errors of the assembler as text.

use vstd::prelude::*;

use crate::assemble::scan::{Track, TuNote};
use crate::assemble::{AssembleError, SplitError, MAX_TOTAL_FRAMES};
use crate::error;
use crate::frame_header;
use crate::text;

verus! {

/// A number that may be missing.
pub open spec fn option_text(v: Option<u8>) -> Seq<char> {
    match v {
        Some(n) => "Some("@ + text::number(n as nat) + ")"@,
        None => "None"@,
    }
}

fn option_string(v: Option<u8>) -> (r: String)
    ensures
        r@ == option_text(v),
{
    match v {
        Some(n) => {
            let mut s = String::from_str("Some(");
            text::put_number(&mut s, n as u64);
            s.append(")");
            s
        },
        None => String::from_str("None"),
    }
}

impl AssembleError {
    /// What went wrong, without its cause.
    pub open spec fn text(self) -> Seq<char> {
        match self {
            AssembleError::NoSegments => "no segments"@,
            AssembleError::GopTooSmall => "gop size must be >= 2 (keyframe + golden)"@,
            AssembleError::TooFewFrames => "need at least 2 output frames"@,
            AssembleError::TooManyFrames(n) => text::number(n as nat) + " output frames exceeds the maximum of "@ + text::number(MAX_TOTAL_FRAMES as nat),
            AssembleError::EmptySegment(i) => "segment "@ + text::number(i as nat) + " has no output frames"@,
            AssembleError::NoSequenceHeader => "key temporal unit must contain a sequence header OBU"@,
            AssembleError::Stream(e) => e.text(),
            AssembleError::Unsupported(_) => "sequence header enables features this assembler does not support"@,
            AssembleError::SequenceHeaderMismatch(i) => "segment "@ + text::number(i as nat) + " has a different sequence header — encode all images with identical dimensions/settings"@,
            AssembleError::DecoderModel(_) => "decoder model injection"@,
            AssembleError::SpliceKey { segment, .. } => "splicing removal flag into keyframe (segment "@ + text::number(segment as nat) + ")"@,
            AssembleError::SpliceGolden { segment, .. } => "splicing removal flag into golden (segment "@ + text::number(segment as nat) + ")"@,
            AssembleError::NoFrame => "temporal unit contains no frame OBU"@,
            AssembleError::NotKeyFrame { segment, got } => "segment "@ + text::number(segment as nat) + ": first TU must contain a shown KEY_FRAME (got "@ + option_text(got) + ")"@,
            AssembleError::GoldenShowExisting => "golden TU cannot be show_existing"@,
            AssembleError::GoldenNotShown(i) => "segment "@ + text::number(i as nat) + ": golden frame must be shown"@,
            AssembleError::GoldenNotShowable { segment, frame_type } => "segment "@ + text::number(segment as nat) + ": golden frame is not showable (frame_type="@ + text::number(frame_type as nat) + ")"@,
            AssembleError::GoldenNoSlots => "golden frame refreshes no reference slots"@,
        }
    }

    /// What went wrong, without its cause.
    pub fn message(&self) -> (r: String)
        ensures
            r@ == self.text(),
    {
        match *self {
            AssembleError::NoSegments => String::from_str("no segments"),
            AssembleError::GopTooSmall => String::from_str("gop size must be >= 2 (keyframe + golden)"),
            AssembleError::TooFewFrames => String::from_str("need at least 2 output frames"),
            AssembleError::TooManyFrames(n) => {
                let mut s = text::number_text(n as u64);
                s.append(" output frames exceeds the maximum of ");
                text::put_number(&mut s, MAX_TOTAL_FRAMES as u64);
                s
            },
            AssembleError::EmptySegment(i) => {
                let mut s = String::from_str("segment ");
                text::put_number(&mut s, i as u64);
                s.append(" has no output frames");
                s
            },
            AssembleError::NoSequenceHeader => String::from_str("key temporal unit must contain a sequence header OBU"),
            AssembleError::Stream(e) => {
                e.message()
            },
            AssembleError::Unsupported(_) => String::from_str("sequence header enables features this assembler does not support"),
            AssembleError::SequenceHeaderMismatch(i) => {
                let mut s = String::from_str("segment ");
                text::put_number(&mut s, i as u64);
                s.append(" has a different sequence header — encode all images with identical dimensions/settings");
                s
            },
            AssembleError::DecoderModel(_) => String::from_str("decoder model injection"),
            AssembleError::SpliceKey { segment, .. } => {
                let mut s = String::from_str("splicing removal flag into keyframe (segment ");
                text::put_number(&mut s, segment as u64);
                s.append(")");
                s
            },
            AssembleError::SpliceGolden { segment, .. } => {
                let mut s = String::from_str("splicing removal flag into golden (segment ");
                text::put_number(&mut s, segment as u64);
                s.append(")");
                s
            },
            AssembleError::NoFrame => String::from_str("temporal unit contains no frame OBU"),
            AssembleError::NotKeyFrame { segment, got } => {
                let mut s = String::from_str("segment ");
                text::put_number(&mut s, segment as u64);
                s.append(": first TU must contain a shown KEY_FRAME (got ");
                let t = option_string(got);
                s.append(t.as_str());
                s.append(")");
                s
            },
            AssembleError::GoldenShowExisting => String::from_str("golden TU cannot be show_existing"),
            AssembleError::GoldenNotShown(i) => {
                let mut s = String::from_str("segment ");
                text::put_number(&mut s, i as u64);
                s.append(": golden frame must be shown");
                s
            },
            AssembleError::GoldenNotShowable { segment, frame_type } => {
                let mut s = String::from_str("segment ");
                text::put_number(&mut s, segment as u64);
                s.append(": golden frame is not showable (frame_type=");
                text::put_number(&mut s, frame_type as u64);
                s.append(")");
                s
            },
            AssembleError::GoldenNoSlots => String::from_str("golden frame refreshes no reference slots"),
        }
    }

    /// What went wrong, with its cause.
    pub open spec fn full(self) -> Seq<char> {
        match self {
            AssembleError::Stream(e) => e.full(),
            AssembleError::Unsupported(e) => error::caused(self.text(), e.full()),
            AssembleError::DecoderModel(e) => error::caused(self.text(), e.full()),
            AssembleError::SpliceKey { cause, .. } => error::caused(self.text(), cause.full()),
            AssembleError::SpliceGolden { cause, .. } => error::caused(self.text(), cause.full()),
            _ => self.text(),
        }
    }

    /// What went wrong, with its cause.
    pub fn chain(&self) -> (r: String)
        ensures
            r@ == self.full(),
    {
        match *self {
            AssembleError::Stream(e) => e.chain(),
            AssembleError::Unsupported(e) => error::caused_text(self.message(), &e.chain()),
            AssembleError::DecoderModel(e) => error::caused_text(self.message(), &e.chain()),
            AssembleError::SpliceKey { cause, .. } => error::caused_text(
                self.message(),
                &cause.chain(),
            ),
            AssembleError::SpliceGolden { cause, .. } => error::caused_text(
                self.message(),
                &cause.chain(),
            ),
            _ => self.message(),
        }
    }
}

// ---------- why an input has no usable pair ----------

/// Which anchor a later one replaces.
pub open spec fn replaces_text(replaces: Option<usize>) -> Seq<char> {
    match replaces {
        Some(tu) => " (replaces TU"@ + text::number(tu as nat) + ")"@,
        None => ""@,
    }
}

fn replaces_string(replaces: Option<usize>) -> (r: String)
    ensures
        r@ == replaces_text(replaces),
{
    match replaces {
        Some(tu) => {
            let mut s = String::from_str(" (replaces TU");
            text::put_number(&mut s, tu as u64);
            s.append(")");
            s
        },
        None => String::from_str(""),
    }
}

pub open spec fn shown_text(shown: bool) -> Seq<char> {
    if shown {
        "shown"@
    } else {
        "invisible"@
    }
}

fn shown_str(shown: bool) -> (r: &'static str)
    ensures
        r@ == shown_text(shown),
{
    if shown {
        "shown"
    } else {
        "invisible"
    }
}

impl TuNote {
    /// What was found, in words.
    pub open spec fn text(self) -> Seq<char> {
        match self {
            TuNote::Malformed(e) => "unreadable — "@ + e.full(),
            TuNote::BadSequenceHeader(e) => "unreadable — bad sequence header: "@ + e.full(),
            TuNote::SequenceHeaderOnly => "sequence header only, no coded frame — skipped"@,
            TuNote::NoCodedFrame => "no coded frame (TD / metadata / padding only) — skipped"@,
            TuNote::ShowExisting => "show_existing_frame TU — skipped"@,
            TuNote::Unreadable(e) => "frame header unreadable — "@ + e.full(),
            TuNote::Layered(n) => text::number(n as nat) + " coded frames in one TU (spatial/SVC layering) — unsupported"@,
            TuNote::Anchor { order_hint, replaces } => "anchor — sequence header + shown KEY_FRAME (order_hint "@ + text::number(order_hint as nat) + ")"@ + replaces_text(replaces),
            TuNote::KeyWithoutHeader => "shown KEY_FRAME without a sequence header OBU — cannot anchor (the anchor TU must carry both)"@,
            TuNote::BeforeAnchor { shown, frame_type } => shown_text(shown) + " "@ + frame_header::name_of_type(frame_type) + " — skipped (before the anchor)"@,
            TuNote::ForcedKey => "KEY_FRAME — encoder forced keyframes; drop \"-g 1\" (golden must be a shown non-key frame)"@,
            TuNote::NotShown { frame_type } => "invisible "@ + frame_header::name_of_type(frame_type) + " — skipped (not shown)"@,
            TuNote::NotShowable { frame_type } => "shown "@ + frame_header::name_of_type(frame_type) + " is not showable — cannot be re-shown"@,
            TuNote::NoSlots { frame_type } => "shown "@ + frame_header::name_of_type(frame_type) + " refreshes no reference slots — cannot be re-shown"@,
            TuNote::GoldenUnverified { frame_type } => "golden — shown "@ + frame_header::name_of_type(frame_type) + "; stream carries no order hints, adjacency unverifiable"@,
            TuNote::Golden { frame_type, order_hint } => "golden — shown "@ + frame_header::name_of_type(frame_type) + ", order_hint "@ + text::number(order_hint as nat) + " == anchor+1"@,
            TuNote::OrderHintGap { order_hint, want } => "order_hint="@ + text::number(order_hint as nat) + " vs anchor+1="@ + text::number(want as nat) + " — coded against other frames"@,
        }
    }

    /// What was found, in words.
    pub fn message(&self) -> (r: String)
        ensures
            r@ == self.text(),
    {
        match *self {
            TuNote::Malformed(e) => {
                let mut s = String::from_str("unreadable — ");
                let t = e.chain();
                s.append(t.as_str());
                s
            },
            TuNote::BadSequenceHeader(e) => {
                let mut s = String::from_str("unreadable — bad sequence header: ");
                let t = e.chain();
                s.append(t.as_str());
                s
            },
            TuNote::SequenceHeaderOnly => String::from_str("sequence header only, no coded frame — skipped"),
            TuNote::NoCodedFrame => String::from_str("no coded frame (TD / metadata / padding only) — skipped"),
            TuNote::ShowExisting => String::from_str("show_existing_frame TU — skipped"),
            TuNote::Unreadable(e) => {
                let mut s = String::from_str("frame header unreadable — ");
                let t = e.chain();
                s.append(t.as_str());
                s
            },
            TuNote::Layered(n) => {
                let mut s = text::number_text(n as u64);
                s.append(" coded frames in one TU (spatial/SVC layering) — unsupported");
                s
            },
            TuNote::Anchor { order_hint, replaces } => {
                let mut s = String::from_str("anchor — sequence header + shown KEY_FRAME (order_hint ");
                text::put_number(&mut s, order_hint as u64);
                s.append(")");
                let t = replaces_string(replaces);
                s.append(t.as_str());
                s
            },
            TuNote::KeyWithoutHeader => String::from_str("shown KEY_FRAME without a sequence header OBU — cannot anchor (the anchor TU must carry both)"),
            TuNote::BeforeAnchor { shown, frame_type } => {
                let mut s = String::from_str(shown_str(shown));
                s.append(" ");
                s.append(frame_header::frame_type_name(frame_type));
                s.append(" — skipped (before the anchor)");
                s
            },
            TuNote::ForcedKey => String::from_str("KEY_FRAME — encoder forced keyframes; drop \"-g 1\" (golden must be a shown non-key frame)"),
            TuNote::NotShown { frame_type } => {
                let mut s = String::from_str("invisible ");
                s.append(frame_header::frame_type_name(frame_type));
                s.append(" — skipped (not shown)");
                s
            },
            TuNote::NotShowable { frame_type } => {
                let mut s = String::from_str("shown ");
                s.append(frame_header::frame_type_name(frame_type));
                s.append(" is not showable — cannot be re-shown");
                s
            },
            TuNote::NoSlots { frame_type } => {
                let mut s = String::from_str("shown ");
                s.append(frame_header::frame_type_name(frame_type));
                s.append(" refreshes no reference slots — cannot be re-shown");
                s
            },
            TuNote::GoldenUnverified { frame_type } => {
                let mut s = String::from_str("golden — shown ");
                s.append(frame_header::frame_type_name(frame_type));
                s.append("; stream carries no order hints, adjacency unverifiable");
                s
            },
            TuNote::Golden { frame_type, order_hint } => {
                let mut s = String::from_str("golden — shown ");
                s.append(frame_header::frame_type_name(frame_type));
                s.append(", order_hint ");
                text::put_number(&mut s, order_hint as u64);
                s.append(" == anchor+1");
                s
            },
            TuNote::OrderHintGap { order_hint, want } => {
                let mut s = String::from_str("order_hint=");
                text::put_number(&mut s, order_hint as u64);
                s.append(" vs anchor+1=");
                text::put_number(&mut s, want as u64);
                s.append(" — coded against other frames");
                s
            },
        }
    }
}

/// The line of a temporal unit.
pub open spec fn line_text(tu: nat, note: TuNote) -> Seq<char> {
    "\n  TU"@ + text::number(tu) + ": "@ + note.text()
}

/// The lines of the temporal units.
pub open spec fn lines_text(notes: Seq<TuNote>) -> Seq<char>
    decreases notes.len(),
{
    if notes.len() == 0 {
        Seq::empty()
    } else {
        lines_text(notes.drop_last()) + line_text((notes.len() - 1) as nat, notes.last())
    }
}

/// What was wanted.
pub open spec fn wanted_text(t: Track) -> Seq<char> {
    match t.anchor {
        None =>
            "\nwanted: a TU containing the sequence header and a shown KEY_FRAME, then a shown non-key golden"@,
        Some(a) => "\nanchor is TU"@ + text::number(a.tu as nat)
            + "; wanted after it: a shown non-key showable frame with refresh_frame_flags != 0"@
            + if a.bits > 0 {
            ", order_hint == keyframe's + 1"@
        } else {
            ""@
        } + if t.coded == 0 && t.anchors <= 1 {
            " — no coded frame follows it in the window"@
        } else if t.key_only {
            " — every coded frame in the window is a KEY_FRAME (encoder forced keyframes, e.g. \"-g 1\")"@
        } else {
            ""@
        },
    }
}

impl SplitError<Seq<TuNote>> {
    /// What went wrong, with a line for each temporal unit that was looked at.
    pub open spec fn text(self) -> Seq<char> {
        match self {
            SplitError::Empty => "input carries no temporal units"@,
            SplitError::NoPair { window, total, notes, track } =>
                "no usable keyframe+golden pair in the first "@ + text::number(window as nat)
                + " temporal unit(s) (input has "@ + text::number(total as nat) + "):"@
                + lines_text(notes) + wanted_text(track),
        }
    }
}

fn put_lines(out: &mut String, notes: &Vec<TuNote>)
    ensures
        final(out)@ == old(out)@ + lines_text(notes@),
{
    let ghost had = out@;
    let mut i: usize = 0;
    assert(notes@.take(0) =~= Seq::empty());
    assert(had + lines_text(notes@.take(0)) =~= had);
    while i < notes.len()
        invariant
            i <= notes@.len(),
            had == old(out)@,
            out@ == had + lines_text(notes@.take(i as int)),
        decreases notes@.len() - i,
    {
        let ghost before = out@;
        let mut line = String::from_str("\n  TU");
        text::put_number(&mut line, i as u64);
        line.append(": ");
        let note = notes[i].message();
        line.append(note.as_str());
        out.append(line.as_str());
        proof {
            assert(notes@.take(i + 1).drop_last() =~= notes@.take(i as int));
            let l = line_text(i as nat, notes@[i as int]);
            assert(line@ == l);
            assert(before + l =~= had + (lines_text(notes@.take(i as int)) + l));
        }
        i = i + 1;
    }
    assert(notes@.take(i as int) =~= notes@);
}

fn wanted(t: &Track) -> (r: String)
    ensures
        r@ == wanted_text(*t),
{
    match t.anchor {
        None => String::from_str(
            "\nwanted: a TU containing the sequence header and a shown KEY_FRAME, then a shown non-key golden",
        ),
        Some(a) => {
            let mut s = String::from_str("\nanchor is TU");
            text::put_number(&mut s, a.tu as u64);
            s.append(
                "; wanted after it: a shown non-key showable frame with refresh_frame_flags != 0",
            );
            s.append(
                if a.bits > 0 {
                    ", order_hint == keyframe's + 1"
                } else {
                    ""
                },
            );
            s.append(
                if t.coded == 0 && t.anchors <= 1 {
                    " — no coded frame follows it in the window"
                } else if t.key_only {
                    " — every coded frame in the window is a KEY_FRAME (encoder forced keyframes, e.g. \"-g 1\")"
                } else {
                    ""
                },
            );
            s
        },
    }
}

impl SplitError {
    /// What went wrong, with a line for each temporal unit that was looked at.
    pub fn message(&self) -> (r: String)
        ensures
            r@ == self@.text(),
    {
        match self {
            SplitError::Empty => String::from_str("input carries no temporal units"),
            SplitError::NoPair { window, total, notes, track } => {
                let mut s = String::from_str("no usable keyframe+golden pair in the first ");
                text::put_number(&mut s, *window as u64);
                s.append(" temporal unit(s) (input has ");
                text::put_number(&mut s, *total as u64);
                s.append("):");
                put_lines(&mut s, notes);
                let w = wanted(track);
                s.append(w.as_str());
                s
            },
        }
    }
}

} // verus!
