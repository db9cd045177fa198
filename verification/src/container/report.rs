//! Errors of reading inputs as text.

use vstd::prelude::*;

use crate::container::geometry::Complaint;
use crate::container::ContainerError;
use crate::error;
use crate::text;

verus! {

impl Complaint {
    /// What went wrong, with its cause.
    pub open spec fn text(self) -> Seq<char> {
        match self {
            Complaint::BadHeader { tu, cause } => "TU "@ + text::number(tu as nat) + ": bad uncompressed header: "@ + cause.full(),
            Complaint::Unreadable { tu, cause } => "TU "@ + text::number(tu as nat) + ": frame header unreadable: "@ + cause.full(),
        }
    }

    /// What went wrong, with its cause.
    pub fn message(&self) -> (r: String)
        ensures
            r@ == self.text(),
    {
        match *self {
            Complaint::BadHeader { tu, cause } => {
                let mut s = String::from_str("TU ");
                text::put_number(&mut s, tu as u64);
                s.append(": bad uncompressed header: ");
                let t = cause.chain();
                s.append(t.as_str());
                s
            },
            Complaint::Unreadable { tu, cause } => {
                let mut s = String::from_str("TU ");
                text::put_number(&mut s, tu as u64);
                s.append(": frame header unreadable: ");
                let t = cause.chain();
                s.append(t.as_str());
                s
            },
        }
    }
}

/// No coded frame could be decoded.
pub open spec fn no_frame_text(complaint: Option<Complaint>) -> Seq<char> {
    match complaint {
        Some(c) => "no decodable coded frame found ("@ + c.text() + ")"@,
        None => "no temporal unit carries a decodable coded frame"@,
    }
}

fn no_frame_string(complaint: Option<Complaint>) -> (r: String)
    ensures
        r@ == no_frame_text(complaint),
{
    match complaint {
        Some(c) => {
            let mut s = String::from_str("no decodable coded frame found (");
            let t = c.message();
            s.append(t.as_str());
            s.append(")");
            s
        },
        None => String::from_str("no temporal unit carries a decodable coded frame"),
    }
}

impl ContainerError {
    /// What went wrong, without its cause.
    pub open spec fn text(self) -> Seq<char> {
        match self {
            ContainerError::Ivf(e) => e.text(),
            ContainerError::Mp4 => "MP4 input is not supported by expand/plan (core stays ffmpeg-free); remux with `ffmpeg -i <input> -map 0:v:0 -c:v copy -f ivf out.ivf` (`stillcast info` accepts mp4 directly)"@,
            ContainerError::WebM => "WebM/MKV input is not supported; remux with `ffmpeg -i <input> -map 0:v:0 -c:v copy -f ivf out.ivf`"@,
            ContainerError::Unrecognized(_) => "unrecognized input: expected IVF, a low-overhead OBU stream, or Annex-B"@,
            ContainerError::TooFewUnits => "input needs at least 2 temporal units"@,
            ContainerError::BadFraming { tu, .. } => "TU "@ + text::number(tu as nat) + ": bad OBU framing"@,
            ContainerError::BadSequenceHeader { tu, .. } => "TU "@ + text::number(tu as nat) + ": bad sequence header"@,
            ContainerError::NoSequenceHeader => "input carries no sequence header OBU"@,
            ContainerError::FramePeriod => "frame period overflow"@,
            ContainerError::NoCodedFrame(c) => no_frame_text(c),
            ContainerError::WidthLimit => "frame width exceeds IVF limit"@,
            ContainerError::HeightLimit => "frame height exceeds IVF limit"@,
        }
    }

    /// What went wrong, without its cause.
    pub fn message(&self) -> (r: String)
        ensures
            r@ == self.text(),
    {
        match *self {
            ContainerError::Ivf(e) => e.message(),
            ContainerError::Mp4 => String::from_str("MP4 input is not supported by expand/plan (core stays ffmpeg-free); remux with `ffmpeg -i <input> -map 0:v:0 -c:v copy -f ivf out.ivf` (`stillcast info` accepts mp4 directly)"),
            ContainerError::WebM => String::from_str("WebM/MKV input is not supported; remux with `ffmpeg -i <input> -map 0:v:0 -c:v copy -f ivf out.ivf`"),
            ContainerError::Unrecognized(_) => String::from_str("unrecognized input: expected IVF, a low-overhead OBU stream, or Annex-B"),
            ContainerError::TooFewUnits => String::from_str("input needs at least 2 temporal units"),
            ContainerError::BadFraming { tu, .. } => {
                let mut s = String::from_str("TU ");
                text::put_number(&mut s, tu as u64);
                s.append(": bad OBU framing");
                s
            },
            ContainerError::BadSequenceHeader { tu, .. } => {
                let mut s = String::from_str("TU ");
                text::put_number(&mut s, tu as u64);
                s.append(": bad sequence header");
                s
            },
            ContainerError::NoSequenceHeader => String::from_str("input carries no sequence header OBU"),
            ContainerError::FramePeriod => String::from_str("frame period overflow"),
            ContainerError::NoCodedFrame(c) => no_frame_string(c),
            ContainerError::WidthLimit => String::from_str("frame width exceeds IVF limit"),
            ContainerError::HeightLimit => String::from_str("frame height exceeds IVF limit"),
        }
    }

    /// What went wrong, with its cause.
    pub open spec fn full(self) -> Seq<char> {
        match self {
            ContainerError::Ivf(e) => e.full(),
            ContainerError::Unrecognized(e) => error::caused(self.text(), e.full()),
            ContainerError::BadFraming { cause, .. } => error::caused(self.text(), cause.full()),
            ContainerError::BadSequenceHeader { cause, .. } => error::caused(
                self.text(),
                cause.full(),
            ),
            _ => self.text(),
        }
    }

    /// What went wrong, with its cause.
    pub fn chain(&self) -> (r: String)
        ensures
            r@ == self.full(),
    {
        match *self {
            ContainerError::Ivf(e) => e.chain(),
            ContainerError::Unrecognized(e) => error::caused_text(self.message(), &e.chain()),
            ContainerError::BadFraming { cause, .. } => error::caused_text(
                self.message(),
                &cause.chain(),
            ),
            ContainerError::BadSequenceHeader { cause, .. } => error::caused_text(
                self.message(),
                &cause.chain(),
            ),
            _ => self.message(),
        }
    }
}

} // verus!
