//! Stream structure inspector: walks every temporal unit of an assembled
//! IVF and reports what each one is (KEY_FRAME / INTER / show_existing),
//! which reference slots are touched, and whether the stream satisfies the
//! invariants stillcast relies on.

use vstd::prelude::*;

use crate::bitio::{self, BitReader, Cur};
use crate::bytes;
use crate::container::stream;
use crate::error::Error;
use crate::frame_header::{
    self, parse_frame_header_info, INTER_FRAME, INTRA_ONLY_FRAME, KEY_FRAME, SWITCH_FRAME,
};
use crate::ivf::{self, IvfFile};
use crate::model;
use crate::obu::{self, parse_obus, Obu, ObuType};
use crate::seq_header::{
    self, emit_sequence_header, parse_sequence_header, OperatingPoint, Sections, SequenceHeader,
};
use crate::uheader::codes::REFS_PER_FRAME;
use crate::uheader::{self, picture, scan_uncompressed_header, Dpb, HeaderScan, RefSlot};

pub use report::{checks, describe_kind};

pub mod analyzed;
pub mod assembled;
pub mod claims;
pub mod passing;
pub mod report;
pub mod single;
pub mod written;

verus! {

/// What one temporal unit showed / coded.
#[derive(Debug)]
pub enum TuKind<R = [u8; 7]> {
    /// A coded frame (any of KEY/INTER/INTRA_ONLY/SWITCH).
    Coded {
        frame_type: u8,
        show_frame: bool,
        showable_frame: bool,
        refresh_frame_flags: u8,
        order_hint: u64,
        /// Slots this frame reads as references (ref_frame_idx), zero for intra.
        ref_slots: R,
    },
    /// A show_existing_frame TU redisplaying `slot`.
    ShowExisting {
        slot: u8,
        /// What the referenced slot held at display time.
        slot_was_key: bool,
    },
}

impl View for TuKind {
    type V = TuKind<Seq<u8>>;

    open spec fn view(&self) -> TuKind<Seq<u8>> {
        match *self {
            TuKind::Coded {
                frame_type,
                show_frame,
                showable_frame,
                refresh_frame_flags,
                order_hint,
                ref_slots,
            } => TuKind::Coded {
                frame_type,
                show_frame,
                showable_frame,
                refresh_frame_flags,
                order_hint,
                ref_slots: ref_slots@,
            },
            TuKind::ShowExisting { slot, slot_was_key } => TuKind::ShowExisting {
                slot,
                slot_was_key,
            },
        }
    }
}

pub struct TuReport<K = TuKind> {
    /// 0-based TU index = output frame index.
    pub index: usize,
    pub timestamp: u64,
    pub bytes: usize,
    pub has_seq_header: bool,
    pub kind: K,
}

impl View for TuReport {
    type V = TuReport<TuKind<Seq<u8>>>;

    open spec fn view(&self) -> TuReport<TuKind<Seq<u8>>> {
        TuReport {
            index: self.index,
            timestamp: self.timestamp,
            bytes: self.bytes,
            has_seq_header: self.has_seq_header,
            kind: self.kind@,
        }
    }
}

pub struct StreamReport<T = Vec<TuReport>, H = SequenceHeader, L = Vec<usize>> {
    pub tus: T,
    pub seq_header: H,
    /// TU indices whose shown frame is a KEY_FRAME (decoder-reset points).
    pub key_tus: L,
    /// TU indices of coded frames that are non-key (golden candidates).
    pub golden_tus: L,
    /// TU indices of show_existing TUs.
    pub show_existing_tus: L,
}

/// The model of a report.
pub type ReportView = StreamReport<
    Seq<TuReport<TuKind<Seq<u8>>>>,
    Sections<Seq<OperatingPoint>>,
    Seq<usize>,
>;

impl View for StreamReport {
    type V = ReportView;

    open spec fn view(&self) -> ReportView {
        StreamReport {
            tus: model::views(self.tus@),
            seq_header: self.seq_header@,
            key_tus: self.key_tus@,
            golden_tus: self.golden_tus@,
            show_existing_tus: self.show_existing_tus@,
        }
    }
}

/// Why a stream cannot be analyzed.
#[derive(Debug, Clone, Copy, PartialEq, Eq, Structural)]
pub enum InspectError {
    BadFraming { tu: usize, cause: Error },
    BadSequenceHeader { tu: usize, cause: Error },
    HeaderChanged(usize),
    FrameBeforeHeader,
    BadFrameHeader { tu: usize, cause: Error },
    ShowBeforeCoded(usize),
    ScanFailed { tu: usize, cause: Error },
    RefSlots { tu: usize, cause: Error },
    NoFrame(usize),
    NoSequenceHeader,
}

// ---------- reference slots ----------

/// Behind the fields that tell whether a frame has ref_frame_idx entries:
/// only one that is coded, and is no intra frame, has them.
pub open spec fn referring_at(c: Cur) -> Cur {
    let (existing, c) = c.flag();
    let c = if existing {
        c.fail(Error::NotCodedFrame)
    } else {
        c
    };
    let (ft, c) = c.f(2);
    if frame_header::is_intra(ft as u8) {
        c.fail(Error::IntraRefSlots)
    } else {
        c
    }
}

/// The ref_frame_idx entries of a frame.
#[verifier::opaque]
pub open spec fn ref_slots_at(c: Cur, sh: Sections<Seq<OperatingPoint>>) -> (Seq<u8>, Cur) {
    if referring_at(c).err is Some {
        (Seq::empty(), referring_at(c))
    } else {
        let (k, c) = uheader::kind_at(c, sh);
        let (_, c) = frame_header::prelude_at(c, sh, k.frame_type, k.resilient);
        let c = frame_header::removal_at(c, sh);
        let (_, c) = uheader::refreshes_at(c, sh, k);
        let c = picture::short_signaling_at(c, sh);
        picture::ref_idx_at(c, REFS_PER_FRAME as nat)
    }
}

/// The slots that the frame of `payload` refers to.
pub open spec fn ref_slots_of(payload: Seq<u8>, sh: Sections<Seq<OperatingPoint>>) -> Result<
    Seq<u8>,
    Error,
> {
    bitio::outcome(ref_slots_at(Cur::start(payload), sh))
}

/// Read the `ref_frame_idx` fields out of an INTER frame's uncompressed
/// header.
fn inter_ref_slots(payload: &[u8], sh: &SequenceHeader) -> (res: Result<[u8; 7], Error>)
    ensures
        match res {
            Ok(refs) => ref_slots_of(payload@, sh@) == Ok::<Seq<u8>, Error>(refs@),
            Err(e) => ref_slots_of(payload@, sh@) == Err::<Seq<u8>, Error>(e),
        },
{
    broadcast use {
        uheader::group_sticky,
        picture::short_signaling_sticky,
        picture::ref_idx_sticky,
    };

    proof {
        reveal(ref_slots_at);
    }
    let mut front = BitReader::new(payload);
    if front.flag()? {
        return Err(Error::NotCodedFrame);
    }
    let ft = front.f(2)?;
    if ft as u8 == KEY_FRAME || ft as u8 == INTRA_ONLY_FRAME {
        return Err(Error::IntraRefSlots);
    }
    let mut r = BitReader::new(payload);
    let k = uheader::kind(&mut r, sh)?;
    frame_header::prelude(&mut r, sh, k.frame_type, k.resilient)?;
    frame_header::removal_times(&mut r, sh)?;
    uheader::refreshes(&mut r, sh, k)?;
    picture::short_signaling(&mut r, sh)?;
    let v = picture::ref_frame_idx(&mut r)?;
    let refs: [u8; 7] = [v[0], v[1], v[2], v[3], v[4], v[5], v[6]];
    assert(refs@ =~= v@);
    Ok(refs)
}

/// A header that can be walked to its end has readable reference slots.
pub proof fn scanned_frames_have_ref_slots(
    payload: Seq<u8>,
    sh: Sections<Seq<OperatingPoint>>,
    slots: Seq<RefSlot>,
)
    requires
        uheader::scan_of(payload, sh, slots) is Ok,
        !frame_header::is_intra(uheader::scan_of(payload, sh, slots)->Ok_0.frame_type),
    ensures
        ref_slots_of(payload, sh) is Ok,
{
    broadcast use {
        uheader::group_sticky,
        picture::short_signaling_sticky,
        picture::ref_idx_sticky,
        picture::size_with_refs_sticky,
        picture::geometry_sticky,
        picture::motion_sticky,
    };

    reveal(uheader::scan_at);
    reveal(uheader::kind_at);
    reveal(ref_slots_at);
    reveal(picture::inter_at);
}

// ---------- the walk ----------

/// What is known after some temporal units.
pub struct Walk<
    H = Option<SequenceHeader>,
    D = Dpb,
    T = Vec<TuReport>,
    L = Vec<usize>,
> {
    /// The sequence header that the stream started with.
    pub header: H,
    pub dpb: D,
    /// A coded frame was seen.
    pub coded: bool,
    pub tus: T,
    pub key_tus: L,
    pub golden_tus: L,
    pub show_existing_tus: L,
}

pub type Walked = Walk<
    Option<Sections<Seq<OperatingPoint>>>,
    Seq<RefSlot>,
    Seq<TuReport<TuKind<Seq<u8>>>>,
    Seq<usize>,
>;

impl View for Walk {
    type V = Walked;

    open spec fn view(&self) -> Walked {
        Walk {
            header: match self.header {
                Some(sh) => Some(sh@),
                None => None,
            },
            dpb: self.dpb@,
            coded: self.coded,
            tus: model::views(self.tus@),
            key_tus: self.key_tus@,
            golden_tus: self.golden_tus@,
            show_existing_tus: self.show_existing_tus@,
        }
    }
}

pub open spec fn not_walked() -> Walked {
    Walk {
        header: None,
        dpb: uheader::blank_slots(),
        coded: false,
        tus: Seq::empty(),
        key_tus: Seq::empty(),
        golden_tus: Seq::empty(),
        show_existing_tus: Seq::empty(),
    }
}

/// What a temporal unit holds so far.
#[verifier::ext_equal]
pub struct UnitNote {
    pub has_seq: bool,
    pub kind: Option<TuKind<Seq<u8>>>,
}

pub open spec fn no_note() -> UnitNote {
    UnitNote { has_seq: false, kind: None }
}

/// Whether the frame reads reference slots.
pub open spec fn refers(frame_type: u8) -> bool {
    frame_type == INTER_FRAME || frame_type == SWITCH_FRAME
}

/// `tu` behind the list where it belongs there.
pub open spec fn listed(list: Seq<usize>, tu: usize, belongs: bool) -> Seq<usize> {
    if belongs {
        list.push(tu)
    } else {
        list
    }
}

impl Walked {
    /// After a sequence header.
    pub open spec fn with_header(self, payload: Seq<u8>, tu: usize) -> Result<Walked, InspectError> {
        match seq_header::header_of(payload) {
            Err(cause) => Err(InspectError::BadSequenceHeader { tu, cause }),
            Ok(sh) => match self.header {
                None => Ok(Walk { header: Some(sh), ..self }),
                Some(first) => if seq_header::header_bytes(first) == seq_header::header_bytes(sh) {
                    Ok(self)
                } else {
                    Err(InspectError::HeaderChanged(tu))
                },
            },
        }
    }

    /// After a frame that is coded.
    pub open spec fn with_coded(self, s: HeaderScan, refs: Seq<u8>, tu: usize) -> (
        Walked,
        TuKind<Seq<u8>>,
    ) {
        (
            Walk {
                dpb: uheader::slots_after(self.dpb, s),
                coded: true,
                key_tus: listed(self.key_tus, tu, s.frame_type == KEY_FRAME && s.show_frame),
                golden_tus: listed(self.golden_tus, tu, s.frame_type != KEY_FRAME),
                ..self
            },
            TuKind::Coded {
                frame_type: s.frame_type,
                show_frame: s.show_frame,
                showable_frame: s.showable_frame,
                refresh_frame_flags: s.refresh_frame_flags,
                order_hint: s.order_hint,
                ref_slots: refs,
            },
        )
    }

    /// After a frame: what is known, and what the frame is.
    pub open spec fn with_frame(self, payload: Seq<u8>, tu: usize) -> Result<
        (Walked, TuKind<Seq<u8>>),
        InspectError,
    > {
        match self.header {
            None => Err(InspectError::FrameBeforeHeader),
            Some(sh) => match frame_header::info_of(payload, sh) {
                Err(cause) => Err(InspectError::BadFrameHeader { tu, cause }),
                Ok(info) => if info.show_existing_frame {
                    let slot = match info.frame_to_show_map_idx {
                        Some(idx) => idx,
                        None => 0,
                    };
                    if !self.coded {
                        Err(InspectError::ShowBeforeCoded(tu))
                    } else {
                        Ok(
                            (
                                Walk {
                                    show_existing_tus: self.show_existing_tus.push(tu),
                                    ..self
                                },
                                TuKind::ShowExisting {
                                    slot,
                                    slot_was_key: self.dpb[slot as int].is_key_frame,
                                },
                            ),
                        )
                    }
                } else {
                    match uheader::scan_of(payload, sh, self.dpb) {
                        Err(cause) => Err(InspectError::ScanFailed { tu, cause }),
                        Ok(s) => if refers(s.frame_type) {
                            match ref_slots_of(payload, sh) {
                                Err(cause) => Err(InspectError::RefSlots { tu, cause }),
                                Ok(refs) => Ok(self.with_coded(s, refs, tu)),
                            }
                        } else {
                            Ok(self.with_coded(s, no_refs(), tu))
                        },
                    }
                },
            },
        }
    }

    /// After one OBU of temporal unit `tu`.
    pub open spec fn with_obu(self, note: UnitNote, o: Obu<Seq<u8>>, tu: usize) -> Result<
        (Walked, UnitNote),
        InspectError,
    > {
        if o.obu_type == ObuType::SequenceHeader {
            match self.with_header(o.payload, tu) {
                Err(e) => Err(e),
                Ok(w) => Ok((w, UnitNote { has_seq: true, ..note })),
            }
        } else if stream::is_frame(o) {
            match self.with_frame(o.payload, tu) {
                Err(e) => Err(e),
                Ok((w, kind)) => Ok((w, UnitNote { kind: Some(kind), ..note })),
            }
        } else {
            Ok((self, note))
        }
    }

    /// After some OBUs of temporal unit `tu`.
    pub open spec fn with_obus(self, obus: stream::Unit, tu: usize) -> Result<
        (Walked, UnitNote),
        InspectError,
    >
        decreases obus.len(),
    {
        if obus.len() == 0 {
            Ok((self, no_note()))
        } else {
            match self.with_obus(obus.drop_last(), tu) {
                Err(e) => Err(e),
                Ok((w, note)) => w.with_obu(note, obus.last(), tu),
            }
        }
    }

    /// After temporal unit `tu`.
    pub open spec fn with_unit(self, packet: (u64, Seq<u8>), tu: usize) -> Result<
        Walked,
        InspectError,
    > {
        match obu::obus_of(packet.1) {
            Err(cause) => Err(InspectError::BadFraming { tu, cause }),
            Ok(obus) => match self.with_obus(obus, tu) {
                Err(e) => Err(e),
                Ok((w, note)) => match note.kind {
                    None => Err(InspectError::NoFrame(tu)),
                    Some(kind) => Ok(
                        Walk {
                            tus: w.tus.push(
                                TuReport {
                                    index: tu,
                                    timestamp: packet.0,
                                    bytes: packet.1.len() as usize,
                                    has_seq_header: note.has_seq,
                                    kind,
                                },
                            ),
                            ..w
                        },
                    ),
                },
            },
        }
    }
}

/// The reference slots of a frame without any.
pub open spec fn no_refs() -> Seq<u8> {
    Seq::new(REFS_PER_FRAME as nat, |i: int| 0u8)
}

/// What is known after these temporal units.
pub open spec fn walked(packets: Seq<(u64, Seq<u8>)>) -> Result<Walked, InspectError>
    decreases packets.len(),
{
    if packets.len() == 0 {
        Ok(not_walked())
    } else {
        match walked(packets.drop_last()) {
            Err(e) => Err(e),
            Ok(w) => w.with_unit(packets.last(), (packets.len() - 1) as usize),
        }
    }
}

/// The report on a stream.
pub open spec fn report_of(packets: Seq<(u64, Seq<u8>)>) -> Result<ReportView, InspectError> {
    match walked(packets) {
        Err(e) => Err(e),
        Ok(w) => match w.header {
            None => Err(InspectError::NoSequenceHeader),
            Some(sh) => Ok(
                StreamReport {
                    tus: w.tus,
                    seq_header: sh,
                    key_tus: w.key_tus,
                    golden_tus: w.golden_tus,
                    show_existing_tus: w.show_existing_tus,
                },
            ),
        },
    }
}

proof fn lemma_obus_stop(w: Walked, obus: stream::Unit, tu: usize, i: int)
    requires
        0 <= i <= obus.len(),
        w.with_obus(obus.take(i), tu) is Err,
    ensures
        w.with_obus(obus, tu) == w.with_obus(obus.take(i), tu),
    decreases obus.len(),
{
    if i == obus.len() {
        assert(obus.take(i) =~= obus);
    } else {
        assert(obus.drop_last().take(i) =~= obus.take(i));
        lemma_obus_stop(w, obus.drop_last(), tu, i);
    }
}

proof fn lemma_walk_stops(packets: Seq<(u64, Seq<u8>)>, i: int)
    requires
        0 <= i <= packets.len(),
        walked(packets.take(i)) is Err,
    ensures
        walked(packets) == walked(packets.take(i)),
    decreases packets.len(),
{
    if i == packets.len() {
        assert(packets.take(i) =~= packets);
    } else {
        assert(packets.drop_last().take(i) =~= packets.take(i));
        lemma_walk_stops(packets.drop_last(), i);
    }
}

/// Whether the lists name temporal units up to `tu`.
pub open spec fn lists_within(w: Walked, tu: usize) -> bool {
    &&& forall|k: int| 0 <= k < w.key_tus.len() ==> (#[trigger] w.key_tus[k]) <= tu
    &&& forall|k: int| 0 <= k < w.golden_tus.len() ==> (#[trigger] w.golden_tus[k]) <= tu
    &&& forall|k: int|
        0 <= k < w.show_existing_tus.len() ==> (#[trigger] w.show_existing_tus[k]) <= tu
}

proof fn lemma_obus_keep(w: Walked, obus: stream::Unit, tu: usize)
    requires
        lists_within(w, tu),
        w.with_obus(obus, tu) is Ok,
    ensures
        w.with_obus(obus, tu)->Ok_0.0.tus == w.tus,
        lists_within(w.with_obus(obus, tu)->Ok_0.0, tu),
    decreases obus.len(),
{
    if obus.len() > 0 {
        lemma_obus_keep(w, obus.drop_last(), tu);
    }
}

/// A walk reports on each temporal unit in turn and lists only those.
proof fn lemma_walk_in_order(packets: Seq<(u64, Seq<u8>)>)
    requires
        packets.len() <= usize::MAX,
        walked(packets) is Ok,
    ensures
        ({
            let w = walked(packets)->Ok_0;
            &&& w.tus.len() == packets.len()
            &&& forall|i: int| 0 <= i < packets.len() ==> (#[trigger] w.tus[i]).index == i
            &&& packets.len() > 0 ==> lists_within(w, (packets.len() - 1) as usize)
            &&& packets.len() == 0 ==> w == not_walked()
        }),
    decreases packets.len(),
{
    if packets.len() > 0 {
        let tu = (packets.len() - 1) as usize;
        lemma_walk_in_order(packets.drop_last());
        let before = walked(packets.drop_last())->Ok_0;
        assert(lists_within(before, tu));
        lemma_obus_keep(before, obu::obus_of(packets.last().1)->Ok_0, tu);
    }
}

/// A report has an entry for each temporal unit, in order, and lists only
/// temporal units of the stream.
pub proof fn report_covers_the_stream(packets: Seq<(u64, Seq<u8>)>)
    requires
        packets.len() <= usize::MAX,
        report_of(packets) is Ok,
    ensures
        ({
            let rep = report_of(packets)->Ok_0;
            &&& rep.tus.len() == packets.len()
            &&& forall|i: int| 0 <= i < packets.len() ==> (#[trigger] rep.tus[i]).index == i
            &&& report::goldens_within(rep)
        }),
{
    lemma_walk_in_order(packets);
}

/// The view of what a frame is, found or not.
pub open spec fn kind_view(kind: Option<TuKind>) -> Option<TuKind<Seq<u8>>> {
    match kind {
        Some(k) => Some(k@),
        None => None,
    }
}

fn list(l: &mut Vec<usize>, tu: usize, belongs: bool)
    ensures
        final(l)@ == listed(old(l)@, tu, belongs),
{
    if belongs {
        l.push(tu);
    }
}

impl Walk {
    pub open spec fn wf(self) -> bool {
        &&& uheader::slots_wf(self.dpb@)
        &&& self.header matches Some(sh) ==> sh@.canonical()
    }

    fn take_header(&mut self, payload: &Vec<u8>, tu: usize) -> (res: Result<(), InspectError>)
        requires
            old(self).wf(),
        ensures
            final(self).wf(),
            match res {
                Ok(_) => old(self)@.with_header(payload@, tu) == Ok::<Walked, InspectError>(
                    final(self)@,
                ),
                Err(e) => old(self)@.with_header(payload@, tu) == Err::<Walked, InspectError>(e),
            },
    {
        let sh = match parse_sequence_header(payload) {
            Ok(sh) => sh,
            Err(cause) => return Err(InspectError::BadSequenceHeader { tu, cause }),
        };
        proof {
            seq_header::parsed_header_re_emits(payload@);
        }
        match &self.header {
            Some(first) => {
                let a = emit_sequence_header(first);
                let b = emit_sequence_header(&sh);
                if !bytes::same(&a, &b) {
                    return Err(InspectError::HeaderChanged(tu));
                }
            },
            None => {
                self.header = Some(sh);
            },
        }
        Ok(())
    }

    fn take_frame(&mut self, payload: &Vec<u8>, tu: usize) -> (res: Result<TuKind, InspectError>)
        requires
            old(self).wf(),
        ensures
            match res {
                Ok(kind) => final(self).wf() && old(self)@.with_frame(payload@, tu) == Ok::<
                    (Walked, TuKind<Seq<u8>>),
                    InspectError,
                >((final(self)@, kind@)),
                Err(e) => old(self)@.with_frame(payload@, tu) == Err::<
                    (Walked, TuKind<Seq<u8>>),
                    InspectError,
                >(e),
            },
    {
        let sh = match &self.header {
            Some(sh) => sh,
            None => return Err(InspectError::FrameBeforeHeader),
        };
        let info = match parse_frame_header_info(payload, sh) {
            Ok(info) => info,
            Err(cause) => return Err(InspectError::BadFrameHeader { tu, cause }),
        };
        if info.show_existing_frame {
            let slot: u8 = match info.frame_to_show_map_idx {
                Some(idx) => idx,
                None => 0,
            };
            if !self.coded {
                return Err(InspectError::ShowBeforeCoded(tu));
            }
            proof {
                frame_header::lemma_shown_slot(payload@, self@.header->Some_0);
            }
            // A shown KEY_FRAME can't be re-shown; recorded for the checks.
            let slot_was_key = self.dpb.slots[slot as usize].is_key_frame;
            self.show_existing_tus.push(tu);
            return Ok(TuKind::ShowExisting { slot, slot_was_key });
        }
        // Full header scan: validates the whole uncompressed header and
        // updates the slots for later frames.

        let s = match scan_uncompressed_header(payload, sh, &mut self.dpb) {
            Ok(s) => s,
            Err(cause) => return Err(InspectError::ScanFailed { tu, cause }),
        };
        self.coded = true;
        let ref_slots: [u8; 7] = if s.frame_type == INTER_FRAME || s.frame_type == SWITCH_FRAME {
            match inter_ref_slots(payload, sh) {
                Ok(refs) => refs,
                Err(cause) => return Err(InspectError::RefSlots { tu, cause }),
            }
        } else {
            let none: [u8; 7] = [0, 0, 0, 0, 0, 0, 0];
            assert(none@ =~= no_refs());
            none
        };
        list(&mut self.key_tus, tu, s.frame_type == KEY_FRAME && s.show_frame);
        list(&mut self.golden_tus, tu, s.frame_type != KEY_FRAME);
        Ok(
            TuKind::Coded {
                frame_type: s.frame_type,
                show_frame: s.show_frame,
                showable_frame: s.showable_frame,
                refresh_frame_flags: s.refresh_frame_flags,
                order_hint: s.order_hint,
                ref_slots,
            },
        )
    }

    fn take_obus(&mut self, obus: &Vec<Obu>, tu: usize) -> (res: Result<
        (bool, Option<TuKind>),
        InspectError,
    >)
        requires
            old(self).wf(),
        ensures
            match res {
                Ok((has_seq, kind)) => final(self).wf() && old(self)@.with_obus(
                    model::views(obus@),
                    tu,
                ) == Ok::<(Walked, UnitNote), InspectError>(
                    (final(self)@, UnitNote { has_seq, kind: kind_view(kind) }),
                ),
                Err(e) => old(self)@.with_obus(model::views(obus@), tu) == Err::<
                    (Walked, UnitNote),
                    InspectError,
                >(e),
            },
    {
        let ghost all = model::views(obus@);
        let ghost start = self@;
        let mut has_seq = false;
        let mut kind: Option<TuKind> = None;
        let mut j: usize = 0;
        assert(all.take(0) =~= Seq::empty());
        while j < obus.len()
            invariant
                j <= obus@.len(),
                self.wf(),
                all == model::views(obus@),
                start == old(self)@,
                start.with_obus(all.take(j as int), tu) == Ok::<(Walked, UnitNote), InspectError>(
                    (self@, UnitNote { has_seq, kind: kind_view(kind) }),
                ),
            decreases obus@.len() - j,
        {
            let o = &obus[j];
            proof {
                assert(all.take(j + 1).drop_last() =~= all.take(j as int));
                assert(all[j as int] == o@);
            }
            match o.obu_type {
                ObuType::SequenceHeader => {
                    match self.take_header(&o.payload, tu) {
                        Ok(_) => {},
                        Err(e) => {
                            proof {
                                lemma_obus_stop(start, all, tu, j + 1);
                            }
                            return Err(e);
                        },
                    }
                    has_seq = true;
                },
                ObuType::Frame | ObuType::FrameHeader => {
                    match self.take_frame(&o.payload, tu) {
                        Ok(k) => {
                            kind = Some(k);
                        },
                        Err(e) => {
                            proof {
                                lemma_obus_stop(start, all, tu, j + 1);
                            }
                            return Err(e);
                        },
                    }
                },
                _ => {},
            }
            j = j + 1;
        }
        assert(all.take(j as int) =~= all);
        Ok((has_seq, kind))
    }

    fn take_unit(&mut self, timestamp: u64, packet: &Vec<u8>, tu: usize) -> (res: Result<
        (),
        InspectError,
    >)
        requires
            old(self).wf(),
        ensures
            match res {
                Ok(_) => final(self).wf() && old(self)@.with_unit((timestamp, packet@), tu) == Ok::<
                    Walked,
                    InspectError,
                >(final(self)@),
                Err(e) => old(self)@.with_unit((timestamp, packet@), tu) == Err::<
                    Walked,
                    InspectError,
                >(e),
            },
    {
        let obus = match parse_obus(packet) {
            Ok(obus) => obus,
            Err(cause) => return Err(InspectError::BadFraming { tu, cause }),
        };
        let (has_seq, kind) = self.take_obus(&obus, tu)?;
        match kind {
            Some(kind) => {
                let ghost before = model::views(self.tus@);
                let report = TuReport {
                    index: tu,
                    timestamp,
                    bytes: packet.len(),
                    has_seq_header: has_seq,
                    kind,
                };
                self.tus.push(report);
                assert(model::views(self.tus@) =~= before.push(report@));
                Ok(())
            },
            None => Err(InspectError::NoFrame(tu)),
        }
    }
}

/// Walk every TU of an assembled IVF. The sequence header is parsed from the
/// first TU that has one.
pub fn analyze(ivf: &IvfFile) -> (res: Result<StreamReport, InspectError>)
    ensures
        model::view_ok(res) == report_of(ivf@.frames),
        res matches Ok(rep) ==> report::goldens_within(rep@),
{
    let ghost all = ivf::packets(ivf.frames@);
    let mut w = Walk {
        header: None,
        dpb: Dpb::default(),
        coded: false,
        tus: Vec::new(),
        key_tus: Vec::new(),
        golden_tus: Vec::new(),
        show_existing_tus: Vec::new(),
    };
    let mut i: usize = 0;
    proof {
        assert(all.take(0) =~= Seq::empty());
        assert(model::views(w.tus@) =~= Seq::empty());
        assert(w@ == not_walked());
    }
    while i < ivf.frames.len()
        invariant
            i <= ivf.frames@.len(),
            all == ivf::packets(ivf.frames@),
            w.wf(),
            walked(all.take(i as int)) == Ok::<Walked, InspectError>(w@),
        decreases ivf.frames@.len() - i,
    {
        proof {
            assert(all.take(i + 1).drop_last() =~= all.take(i as int));
            assert(all[i as int] == (ivf.frames@[i as int].0, ivf.frames@[i as int].1@));
        }
        match w.take_unit(ivf.frames[i].0, &ivf.frames[i].1, i) {
            Ok(_) => {},
            Err(e) => {
                proof {
                    lemma_walk_stops(all, i + 1);
                }
                return Err(e);
            },
        }
        i = i + 1;
    }
    proof {
        assert(all.take(i as int) =~= all);
        if report_of(all) is Ok {
            report_covers_the_stream(all);
        }
    }
    match w.header {
        Some(sh) => Ok(
            StreamReport {
                tus: w.tus,
                seq_header: sh,
                key_tus: w.key_tus,
                golden_tus: w.golden_tus,
                show_existing_tus: w.show_existing_tus,
            },
        ),
        None => Err(InspectError::NoSequenceHeader),
    }
}

} // verus!
