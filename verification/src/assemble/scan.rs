//! Scanning the leading temporal units of an input for an anchor keyframe and
//! a golden frame.

use vstd::prelude::*;
use vstd::arithmetic::power2::*;

use crate::bitio;
use crate::bytes;
use crate::error::Error;
use crate::frame_header::{self, FrameHeaderInfo, KEY_FRAME};
use crate::model;
use crate::obu::{self, parse_obus, Obu, ObuType};
use crate::seq_header::{self, OperatingPoint, Sections, SequenceHeader};

verus! {

// ---------- one temporal unit ----------

/// What the scan classifies one temporal unit as.
#[derive(Debug, Clone, Copy, PartialEq, Eq, Structural)]
pub enum ScannedTu {
    /// The OBU framing failed to parse.
    Malformed(Error),
    /// An enclosed sequence header failed to parse.
    BadSequenceHeader(Error),
    /// TD / sequence-header / metadata / padding only — no coded frame.
    NoCodedFrame { seq_header: bool },
    /// A show_existing_frame TU: re-display only, no coded picture.
    ShowExisting,
    /// A TU with at least one coded frame OBU whose header cannot be read.
    Unreadable(Error),
    /// A TU with at least one coded frame OBU; `info` is of the first.
    Coded {
        seq_header: bool,
        /// Additional frame OBUs in the same TU (layered encodes).
        extra_frames: usize,
        info: FrameHeaderInfo,
    },
}

pub open spec fn is_frame(t: ObuType) -> bool {
    t == ObuType::Frame || t == ObuType::FrameHeader
}

/// The frame and frame header OBUs, in order.
pub open spec fn frame_obus(obus: Seq<Obu<Seq<u8>>>) -> Seq<Obu<Seq<u8>>>
    decreases obus.len(),
{
    if obus.len() == 0 {
        Seq::empty()
    } else if is_frame(obus.last().obu_type) {
        frame_obus(obus.drop_last()).push(obus.last())
    } else {
        frame_obus(obus.drop_last())
    }
}

/// The sequence headers seen so far. `P` holds the payload of the latest,
/// `H` what it says.
pub struct Headers<H, P> {
    pub header: Option<H>,
    pub payload: Option<P>,
    /// Whether the temporal unit at hand has one.
    pub present: bool,
    /// Whether one differed from the one before it.
    pub changed: bool,
    /// Why one could not be parsed; nothing behind it counts.
    pub bad: Option<Error>,
}

/// The sequence headers seen once the OBUs were gone through.
pub open spec fn headers_after(
    obus: Seq<Obu<Seq<u8>>>,
    h: Headers<Sections<Seq<OperatingPoint>>, Seq<u8>>,
) -> Headers<Sections<Seq<OperatingPoint>>, Seq<u8>>
    decreases obus.len(),
{
    if obus.len() == 0 {
        h
    } else {
        let h = headers_after(obus.drop_last(), h);
        let payload = obus.last().payload;
        if h.bad is Some || obus.last().obu_type != ObuType::SequenceHeader {
            h
        } else {
            match seq_header::header_of(payload) {
                Ok(sh) => Headers {
                    header: Some(sh),
                    payload: Some(payload),
                    present: true,
                    changed: h.changed || (h.payload is Some && h.payload != Some(payload)),
                    bad: None,
                },
                Err(e) => Headers { present: true, bad: Some(e), ..h },
            }
        }
    }
}

/// A new temporal unit under the headers seen so far.
pub open spec fn next_tu<H, P>(h: Headers<H, P>) -> Headers<H, P> {
    Headers { present: false, changed: false, bad: None, ..h }
}

/// What a temporal unit is, and the sequence headers seen after it.
#[verifier::opaque]
pub open spec fn classified(
    tu: Seq<u8>,
    h: Headers<Sections<Seq<OperatingPoint>>, Seq<u8>>,
) -> (ScannedTu, Headers<Sections<Seq<OperatingPoint>>, Seq<u8>>) {
    let h = next_tu(h);
    match obu::obus_of(tu) {
        Err(e) => (ScannedTu::Malformed(e), h),
        Ok(obus) => {
            let h = headers_after(obus, h);
            let frames = frame_obus(obus);
            (
                match h.bad {
                    Some(e) => ScannedTu::BadSequenceHeader(e),
                    None => if frames.len() == 0 {
                        ScannedTu::NoCodedFrame { seq_header: h.present }
                    } else {
                        match h.header {
                            None => ScannedTu::Unreadable(Error::FrameBeforeSequenceHeader),
                            Some(sh) => match frame_header::info_of(frames[0].payload, sh) {
                                Err(e) => ScannedTu::Unreadable(e),
                                Ok(info) => if info.show_existing_frame {
                                    ScannedTu::ShowExisting
                                } else {
                                    ScannedTu::Coded {
                                        seq_header: h.present,
                                        extra_frames: (frames.len() - 1) as usize,
                                        info,
                                    }
                                },
                            },
                        }
                    },
                },
                h,
            )
        },
    }
}

impl View for Headers<SequenceHeader, Vec<u8>> {
    type V = Headers<Sections<Seq<OperatingPoint>>, Seq<u8>>;

    open spec fn view(&self) -> Headers<Sections<Seq<OperatingPoint>>, Seq<u8>> {
        Headers {
            header: match self.header {
                Some(h) => Some(h@),
                None => None,
            },
            payload: match self.payload {
                Some(p) => Some(p@),
                None => None,
            },
            present: self.present,
            changed: self.changed,
            bad: self.bad,
        }
    }
}

impl Headers<SequenceHeader, Vec<u8>> {
    pub(crate) fn none() -> (r: Self)
        ensures
            r@ == no_headers(),
    {
        Headers { header: None, payload: None, present: false, changed: false, bad: None }
    }

    /// Take the next OBU into account.
    fn take(&mut self, o: &Obu)
        requires
            old(self)@.bad is None,
            old(self).wf(),
        ensures
            final(self).wf(),
            final(self)@ == headers_after(seq![o@], old(self)@),
    {
        proof {
            reveal_with_fuel(headers_after, 2);
            assert(seq![o@].drop_last() =~= Seq::empty());
        }
        if o.obu_type != ObuType::SequenceHeader {
            return ;
        }
        self.present = true;
        match seq_header::parse_sequence_header(&o.payload) {
            Ok(sh) => {
                proof {
                    seq_header::parsed_header_re_emits(o.payload@);
                }
                let differs = match &self.payload {
                    Some(p) => !bytes::same(p, &o.payload),
                    None => false,
                };
                if differs {
                    self.changed = true;
                }
                let payload = o.payload.clone();
                assert(payload@ =~= o.payload@);
                self.header = Some(sh);
                self.payload = Some(payload);
            },
            Err(e) => {
                self.bad = Some(e);
            },
        }
    }

    /// What was parsed is a header that the syntax can code.
    pub open spec fn wf(&self) -> bool {
        self@.header matches Some(sh) ==> sh.canonical()
    }
}

pub open spec fn no_headers() -> Headers<Sections<Seq<OperatingPoint>>, Seq<u8>> {
    Headers { header: None, payload: None, present: false, changed: false, bad: None }
}

proof fn lemma_headers_stop(
    obus: Seq<Obu<Seq<u8>>>,
    h: Headers<Sections<Seq<OperatingPoint>>, Seq<u8>>,
    i: int,
)
    requires
        0 <= i <= obus.len(),
        headers_after(obus.take(i), h).bad is Some,
    ensures
        headers_after(obus, h) == headers_after(obus.take(i), h),
    decreases obus.len(),
{
    if i == obus.len() {
        assert(obus.take(i) =~= obus);
    } else {
        assert(obus.drop_last().take(i) =~= obus.take(i));
        lemma_headers_stop(obus.drop_last(), h, i);
    }
}

/// Classify one TU for pair selection. `h` tracks the most recently seen
/// sequence header and is updated in OBU order, so a frame in the same TU as
/// its sequence header parses under it.
pub(crate) fn classify_tu(tu: &[u8], h: &mut Headers<SequenceHeader, Vec<u8>>) -> (r: ScannedTu)
    requires
        old(h).wf(),
    ensures
        final(h).wf(),
        (r, final(h)@) == classified(tu@, old(h)@),
        r matches ScannedTu::Coded { extra_frames, .. } ==> extra_frames < usize::MAX,
{
    proof {
        reveal(classified);
    }
    h.present = false;
    h.changed = false;
    h.bad = None;
    let ghost h0 = h@;
    assert(h0 == next_tu(old(h)@));
    let obus = match parse_obus(tu) {
        Ok(o) => o,
        Err(e) => {
            return ScannedTu::Malformed(e);
        },
    };
    let ghost all = model::views(obus@);
    let mut first: Option<usize> = None;
    let mut count: usize = 0;
    let mut i: usize = 0;
    assert(all.take(0) =~= Seq::empty());
    while i < obus.len()
        invariant
            i <= obus@.len(),
            all == model::views(obus@),
            obu::obus_of(tu@) == Ok::<Seq<Obu<Seq<u8>>>, Error>(all),
            h0 == next_tu(old(h)@),
            h@ == headers_after(all.take(i as int), h0),
            h@.bad is None,
            h.wf(),
            count == frame_obus(all.take(i as int)).len(),
            count <= i,
            match first {
                Some(k) => k < i && count > 0 && all[k as int] == frame_obus(
                    all.take(i as int),
                )[0],
                None => count == 0,
            },
        decreases obus@.len() - i,
    {
        let ghost before = h@;
        proof {
            assert(all.take(i + 1).drop_last() =~= all.take(i as int));
            assert(all[i as int] == obus@[i as int]@);
            reveal_with_fuel(headers_after, 2);
            assert(seq![all[i as int]].drop_last() =~= Seq::empty());
        }
        h.take(&obus[i]);
        assert(h@ == headers_after(all.take(i + 1), h0));
        if h.bad.is_some() {
            proof {
                reveal(classified);
                lemma_headers_stop(all, h0, i + 1);
            }
            return ScannedTu::BadSequenceHeader(h.bad.unwrap());
        }
        if obus[i].obu_type == ObuType::Frame || obus[i].obu_type == ObuType::FrameHeader {
            if first.is_none() {
                first = Some(i);
            }
            count = count + 1;
        }
        i = i + 1;
    }
    assert(all.take(i as int) =~= all);
    let first = match first {
        Some(k) => k,
        None => {
            return ScannedTu::NoCodedFrame { seq_header: h.present };
        },
    };
    match &h.header {
        None => ScannedTu::Unreadable(Error::FrameBeforeSequenceHeader),
        Some(sh) => match frame_header::parse_frame_header_info(&obus[first].payload, sh) {
            Err(e) => ScannedTu::Unreadable(e),
            Ok(info) => {
                if info.show_existing_frame {
                    ScannedTu::ShowExisting
                } else {
                    ScannedTu::Coded { seq_header: h.present, extra_frames: count - 1, info }
                }
            },
        },
    }
}

// ---------- the decision about each temporal unit ----------

/// The temporal unit that the search is anchored at.
#[derive(Debug, Clone, Copy, PartialEq, Eq, Structural)]
pub struct Anchor {
    pub tu: usize,
    pub order_hint: u64,
    /// order_hint_bits of the governing sequence header.
    pub bits: usize,
}

/// How far the search has come.
#[derive(Debug, Clone, Copy, PartialEq, Eq, Structural)]
pub struct Track {
    pub anchor: Option<Anchor>,
    pub golden: Option<usize>,
    /// Coded frames seen since the latest anchor.
    pub coded: usize,
    pub anchors: usize,
    /// Every coded frame that was read so far is a KEY_FRAME.
    pub key_only: bool,
}

/// Why a temporal unit was taken or passed over.
#[derive(Debug, Clone, Copy, PartialEq, Eq, Structural)]
pub enum TuNote {
    Malformed(Error),
    BadSequenceHeader(Error),
    SequenceHeaderOnly,
    NoCodedFrame,
    ShowExisting,
    Unreadable(Error),
    /// This many coded frames in one TU.
    Layered(usize),
    Anchor { order_hint: u64, replaces: Option<usize> },
    KeyWithoutHeader,
    BeforeAnchor { shown: bool, frame_type: u8 },
    ForcedKey,
    NotShown { frame_type: u8 },
    NotShowable { frame_type: u8 },
    NoSlots { frame_type: u8 },
    GoldenUnverified { frame_type: u8 },
    Golden { frame_type: u8, order_hint: u64 },
    OrderHintGap { order_hint: u64, want: u64 },
}

pub open spec fn start() -> Track {
    Track { anchor: None, golden: None, coded: 0, anchors: 0, key_only: true }
}

/// The order hint right after `hint`, in a field of `bits` bits.
pub open spec fn next_hint(hint: u64, bits: usize) -> u64 {
    ((hint + 1) % pow2(
        if bits == 0 {
            1
        } else {
            bits as nat
        },
    ) as int) as u64
}

/// Whether `f`, after the anchor `a`, can be the golden: a shown non-key frame
/// that can be shown again, is stored in some slot and, where the stream has
/// order hints, directly follows the anchor.
pub open spec fn is_golden(f: FrameHeaderInfo, a: Anchor) -> bool {
    &&& f.frame_type != Some(KEY_FRAME)
    &&& f.show_frame
    &&& f.showable_frame
    &&& f.refresh_frame_flags != 0
    &&& a.bits == 0 || f.order_hint == next_hint(a.order_hint, a.bits)
}

/// Whether a frame, in a temporal unit with or without a sequence header, is
/// an anchor.
pub open spec fn is_anchor(seq_header: bool, f: FrameHeaderInfo) -> bool {
    seq_header && f.frame_type == Some(KEY_FRAME) && f.show_frame
}

pub open spec fn type_of(f: FrameHeaderInfo) -> u8 {
    match f.frame_type {
        Some(t) => t,
        None => 0xff,
    }
}

/// Why a frame after the anchor `a` is the golden, or is not.
pub open spec fn golden_note(f: FrameHeaderInfo, a: Anchor) -> TuNote {
    let frame_type = type_of(f);
    let want = next_hint(a.order_hint, a.bits);
    if frame_type == KEY_FRAME {
        TuNote::ForcedKey
    } else if !f.show_frame {
        TuNote::NotShown { frame_type }
    } else if !f.showable_frame {
        TuNote::NotShowable { frame_type }
    } else if f.refresh_frame_flags == 0 {
        TuNote::NoSlots { frame_type }
    } else if a.bits == 0 {
        TuNote::GoldenUnverified { frame_type }
    } else if f.order_hint == want {
        TuNote::Golden { frame_type, order_hint: f.order_hint }
    } else {
        TuNote::OrderHintGap { order_hint: f.order_hint, want }
    }
}

/// The search after the coded frame `f` of temporal unit `i`, whose governing
/// sequence header has `bits` bits of order hint.
pub open spec fn judged_frame(
    t: Track,
    i: usize,
    seq_header: bool,
    extra_frames: usize,
    f: FrameHeaderInfo,
    bits: usize,
) -> (Track, TuNote) {
    let anchors = is_anchor(seq_header, f);
    let t = Track {
        key_only: t.key_only && type_of(f) == KEY_FRAME,
        coded: if t.anchor is Some && !anchors {
            (t.coded + 1) as usize
        } else {
            t.coded
        },
        ..t
    };
    if extra_frames > 0 {
        (t, TuNote::Layered((extra_frames + 1) as usize))
    } else if anchors {
        (
            Track {
                anchor: Some(Anchor { tu: i, order_hint: f.order_hint, bits }),
                coded: 0,
                anchors: (t.anchors + 1) as usize,
                ..t
            },
            TuNote::Anchor {
                order_hint: f.order_hint,
                replaces: match t.anchor {
                    Some(a) => Some(a.tu),
                    None => None,
                },
            },
        )
    } else {
        match t.anchor {
            None => (
                t,
                if type_of(f) == KEY_FRAME && f.show_frame {
                    TuNote::KeyWithoutHeader
                } else {
                    TuNote::BeforeAnchor { shown: f.show_frame, frame_type: type_of(f) }
                },
            ),
            Some(a) => (
                Track {
                    golden: if is_golden(f, a) {
                        Some(i)
                    } else {
                        t.golden
                    },
                    ..t
                },
                golden_note(f, a),
            ),
        }
    }
}

/// The search after temporal unit `i`. A changed sequence header ends what the
/// anchor stands for.
#[verifier::opaque]
pub open spec fn judged(t: Track, i: usize, scan: ScannedTu, changed: bool, bits: usize) -> (
    Track,
    TuNote,
) {
    let t = if changed {
        Track { anchor: None, coded: 0, ..t }
    } else {
        t
    };
    match scan {
        ScannedTu::Malformed(e) => (t, TuNote::Malformed(e)),
        ScannedTu::BadSequenceHeader(e) => (t, TuNote::BadSequenceHeader(e)),
        ScannedTu::NoCodedFrame { seq_header } => (
            t,
            if seq_header {
                TuNote::SequenceHeaderOnly
            } else {
                TuNote::NoCodedFrame
            },
        ),
        ScannedTu::ShowExisting => (t, TuNote::ShowExisting),
        ScannedTu::Unreadable(e) => (t, TuNote::Unreadable(e)),
        ScannedTu::Coded { seq_header, extra_frames, info } => judged_frame(
            t,
            i,
            seq_header,
            extra_frames,
            info,
            bits,
        ),
    }
}

fn hint_after(hint: u64, bits: usize) -> (r: u64)
    requires
        bits <= 63,
    ensures
        r == next_hint(hint, bits),
{
    let n: u64 = if bits == 0 {
        1
    } else {
        bits as u64
    };
    proof {
        bitio::lemma_one_shl(n);
        lemma_pow2_pos(n as nat);
        bitio::lemma_pow2_monotone(n as nat, 63);
        lemma2_to64_rest();
    }
    let m: u64 = 1u64 << n;
    if hint == u64::MAX {
        proof {
            lemma_pow2_adds(n as nat, (64 - n) as nat);
            let k = pow2((64 - n) as nat);
            assert(m * k + 0 == pow2(64));
            vstd::arithmetic::div_mod::lemma_fundamental_div_mod_converse(
                pow2(64) as int,
                m as int,
                k as int,
                0,
            );
        }
        0
    } else {
        (hint + 1) % m
    }
}

fn judge_frame(
    t: Track,
    i: usize,
    seq_header: bool,
    extra_frames: usize,
    f: FrameHeaderInfo,
    bits: usize,
) -> (r: (Track, TuNote))
    requires
        t.coded < usize::MAX,
        t.anchors < usize::MAX,
        extra_frames < usize::MAX,
        t.anchor matches Some(a) ==> a.bits <= 63,
    ensures
        r == judged_frame(t, i, seq_header, extra_frames, f, bits),
{
    let mut t = t;
    let ft: u8 = match f.frame_type {
        Some(ft) => ft,
        None => 0xff,
    };
    if ft != KEY_FRAME {
        t.key_only = false;
    }
    let anchors = seq_header && ft == KEY_FRAME && f.show_frame;
    if t.anchor.is_some() && !anchors {
        t.coded = t.coded + 1;
    }
    if extra_frames > 0 {
        return (t, TuNote::Layered(extra_frames + 1));
    }
    if anchors {
        let replaces = match t.anchor {
            Some(a) => Some(a.tu),
            None => None,
        };
        t.anchor = Some(Anchor { tu: i, order_hint: f.order_hint, bits });
        t.coded = 0;
        t.anchors = t.anchors + 1;
        return (t, TuNote::Anchor { order_hint: f.order_hint, replaces });
    }
    match t.anchor {
        None => {
            if ft == KEY_FRAME && f.show_frame {
                (t, TuNote::KeyWithoutHeader)
            } else {
                (t, TuNote::BeforeAnchor { shown: f.show_frame, frame_type: ft })
            }
        },
        Some(a) => {
            let want = hint_after(a.order_hint, a.bits);
            if ft == KEY_FRAME {
                (t, TuNote::ForcedKey)
            } else if !f.show_frame {
                (t, TuNote::NotShown { frame_type: ft })
            } else if !f.showable_frame {
                (t, TuNote::NotShowable { frame_type: ft })
            } else if f.refresh_frame_flags == 0 {
                (t, TuNote::NoSlots { frame_type: ft })
            } else if a.bits == 0 {
                t.golden = Some(i);
                (t, TuNote::GoldenUnverified { frame_type: ft })
            } else if f.order_hint == want {
                t.golden = Some(i);
                (t, TuNote::Golden { frame_type: ft, order_hint: f.order_hint })
            } else {
                (t, TuNote::OrderHintGap { order_hint: f.order_hint, want })
            }
        },
    }
}

pub(crate) fn judge(t: Track, i: usize, scan: ScannedTu, changed: bool, bits: usize) -> (r: (
    Track,
    TuNote,
))
    requires
        t.coded < usize::MAX,
        t.anchors < usize::MAX,
        t.anchor matches Some(a) ==> a.bits <= 63,
        scan matches ScannedTu::Coded { extra_frames, .. } ==> extra_frames < usize::MAX,
    ensures
        r == judged(t, i, scan, changed, bits),
{
    proof {
        reveal(judged);
    }
    let mut t = t;
    if changed {
        t.anchor = None;
        t.coded = 0;
    }
    match scan {
        ScannedTu::Malformed(e) => (t, TuNote::Malformed(e)),
        ScannedTu::BadSequenceHeader(e) => (t, TuNote::BadSequenceHeader(e)),
        ScannedTu::NoCodedFrame { seq_header } => {
            if seq_header {
                (t, TuNote::SequenceHeaderOnly)
            } else {
                (t, TuNote::NoCodedFrame)
            }
        },
        ScannedTu::ShowExisting => (t, TuNote::ShowExisting),
        ScannedTu::Unreadable(e) => (t, TuNote::Unreadable(e)),
        ScannedTu::Coded { seq_header, extra_frames, info } => judge_frame(
            t,
            i,
            seq_header,
            extra_frames,
            info,
            bits,
        ),
    }
}

/// What one temporal unit can do to the search: make itself the anchor, make
/// itself the golden of the anchor there is, end the anchor, or nothing.
pub proof fn lemma_judged(t: Track, i: usize, scan: ScannedTu, changed: bool, bits: usize)
    ensures
        ({
            let r = judged(t, i, scan, changed, bits).0;
            &&& r.anchor is None || (r.anchor == t.anchor && !changed) || (match scan {
                ScannedTu::Coded { seq_header, extra_frames, info } => {
                    &&& is_anchor(seq_header, info)
                    &&& extra_frames == 0
                    &&& r.anchor == Some(Anchor { tu: i, order_hint: info.order_hint, bits })
                    &&& r.golden == t.golden
                },
                _ => false,
            })
            &&& r.golden == t.golden || (match scan {
                ScannedTu::Coded { extra_frames, info, .. } => {
                    &&& r.golden == Some(i)
                    &&& r.anchor is Some
                    &&& r.anchor == t.anchor
                    &&& extra_frames == 0
                    &&& is_golden(info, r.anchor->0)
                    &&& !changed
                },
                _ => false,
            })
        }),
{
    reveal(judged);
}

/// The bounds that keep the counters and order hints in range.
pub proof fn lemma_judged_bounds(t: Track, i: usize, scan: ScannedTu, changed: bool, bits: usize)
    requires
        t.coded <= i,
        t.anchors <= i,
        i < usize::MAX,
        bits <= 63,
        t.anchor matches Some(a) ==> a.bits <= 63,
    ensures
        ({
            let r = judged(t, i, scan, changed, bits).0;
            &&& r.coded <= i + 1
            &&& r.anchors <= i + 1
            &&& r.anchor matches Some(a) ==> a.bits <= 63
        }),
{
    reveal(judged);
}

} // verus!
