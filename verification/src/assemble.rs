//! The bitstream assembler: turns a handful of real coded frames into a long
//! static-video AV1 stream via show_existing_frame temporal units.
//!
//! GOP structure of the output:
//!   [ seq hdr + KEY_FRAME TU ] [ golden TU ] [ show_existing TU x (n-2) ]
//! repeated per GOP. The golden is a shown non-key frame (auto showable)
//! stored in a known reference slot; every following TU just re-displays it.

use vstd::prelude::*;
use vstd::arithmetic::power2::*;

use crate::bitio::{self, BitWriter, Cur};
use crate::bytes;
use crate::error::Error;
use crate::frame_header::{self, FrameHeaderInfo, KEY_FRAME};
use crate::ivf::{self, IvfFile};
use crate::model;
use crate::obu::{self, parse_obus, Obu, ObuType};
use crate::seq_header::{self, OperatingPoint, Sections, SequenceHeader};
use crate::uheader::{self, Dpb, RefSlot};
use gop::Slot;
use scan::{Headers, Track, TuNote};

pub mod gop;
pub mod pairs;
pub mod playlist;
pub mod report;
pub mod retiming;
pub mod scan;
pub mod search;
pub mod seek;
pub mod skipping;

verus! {

/// The most output frames: sample numbers and the IVF frame count are 32 bits.
pub const MAX_TOTAL_FRAMES: u64 = 0xffff_ffff;

/// Parameters controlling the assembled stream.
#[derive(Debug, Clone, Copy)]
pub struct AssembleParams {
    /// Output frame rate numerator (also used for IVF timestamps when input
    /// has none).
    pub fps: u32,
    /// Output frame rate denominator.
    pub fps_den: u32,
    /// Total output frames.
    pub total_frames: u64,
    /// Frames per GOP (distance between keyframes). Controls seek granularity.
    pub gop_size: u64,
    /// Emit decoder_model_info() in the sequence header. Requires rewriting
    /// the real frames' headers (buffer_removal_time_present_flag is
    /// unconditional when the model is declared); it is always written as 0.
    pub decoder_model: bool,
}

/// A temporal unit (the OBU payload sequence of one IVF packet).
pub type TemporalUnit = Vec<u8>;

/// Why an input could not be assembled. Segments count from 0.
#[derive(Debug, Clone, Copy, PartialEq, Eq, Structural)]
pub enum AssembleError {
    NoSegments,
    GopTooSmall,
    TooFewFrames,
    TooManyFrames(u64),
    EmptySegment(usize),
    /// The first key temporal unit has no sequence header.
    NoSequenceHeader,
    /// A temporal unit or header that cannot be read.
    Stream(Error),
    /// A sequence header that enables an unsupported feature.
    Unsupported(Error),
    /// A segment whose sequence header differs from the first segment's.
    SequenceHeaderMismatch(usize),
    DecoderModel(Error),
    SpliceKey { segment: usize, cause: Error },
    SpliceGolden { segment: usize, cause: Error },
    NoFrame,
    NotKeyFrame { segment: usize, got: Option<u8> },
    GoldenShowExisting,
    GoldenNotShown(usize),
    GoldenNotShowable { segment: usize, frame_type: u8 },
    GoldenNoSlots,
}

// ---------- rewriting temporal units ----------

/// The first frame or frame header OBU.
pub open spec fn first_frame(obus: Seq<Obu<Seq<u8>>>) -> Option<Obu<Seq<u8>>>
    decreases obus.len(),
{
    if obus.len() == 0 {
        None
    } else if scan::is_frame(obus[0].obu_type) {
        Some(obus[0])
    } else {
        first_frame(obus.skip(1))
    }
}

/// The header of the first frame of a temporal unit.
pub open spec fn frame_info(tu: Seq<u8>, sh: Sections<Seq<OperatingPoint>>) -> Result<
    FrameHeaderInfo,
    AssembleError,
> {
    match obu::obus_of(tu) {
        Err(e) => Err(AssembleError::Stream(e)),
        Ok(obus) => match first_frame(obus) {
            None => Err(AssembleError::NoFrame),
            Some(o) => match frame_header::info_of(o.payload, sh) {
                Err(e) => Err(AssembleError::Stream(e)),
                Ok(info) => Ok(info),
            },
        },
    }
}

/// Locate the shown frame's header inside a TU and return its FrameHeaderInfo.
fn tu_frame_info(tu: &[u8], sh: &SequenceHeader) -> (res: Result<FrameHeaderInfo, AssembleError>)
    ensures
        res == frame_info(tu@, sh@),
{
    let obus = match parse_obus(tu) {
        Ok(o) => o,
        Err(e) => {
            return Err(AssembleError::Stream(e));
        },
    };
    let ghost all = model::views(obus@);
    let mut i: usize = 0;
    assert(all.skip(0) =~= all);
    while i < obus.len()
        invariant
            i <= obus@.len(),
            all == model::views(obus@),
            obu::obus_of(tu@) == Ok::<Seq<Obu<Seq<u8>>>, Error>(all),
            first_frame(all) == first_frame(all.skip(i as int)),
        decreases obus@.len() - i,
    {
        proof {
            assert(all.skip(i as int)[0] == obus@[i as int]@);
            assert(all.skip(i as int).skip(1) =~= all.skip(i + 1));
        }
        if obus[i].obu_type == ObuType::Frame || obus[i].obu_type == ObuType::FrameHeader {
            return match frame_header::parse_frame_header_info(&obus[i].payload, sh) {
                Ok(info) => Ok(info),
                Err(e) => Err(AssembleError::Stream(e)),
            };
        }
        i = i + 1;
    }
    Err(AssembleError::NoFrame)
}

/// The OBUs with the payload of each sequence header replaced.
pub open spec fn with_header(obus: Seq<Obu<Seq<u8>>>, payload: Seq<u8>) -> Seq<Obu<Seq<u8>>> {
    Seq::new(
        obus.len(),
        |i: int|
            if obus[i].obu_type == ObuType::SequenceHeader {
                Obu { payload, ..obus[i] }
            } else {
                obus[i]
            },
    )
}

pub open spec fn has_header(obus: Seq<Obu<Seq<u8>>>) -> bool {
    exists|i: int|
        0 <= i < obus.len() && (#[trigger] obus[i]).obu_type == ObuType::SequenceHeader
}

/// A temporal unit with its sequence headers replaced.
pub open spec fn header_replaced(tu: Seq<u8>, payload: Seq<u8>) -> Result<Seq<u8>, Error> {
    match obu::obus_of(tu) {
        Err(e) => Err(e),
        Ok(obus) => Ok(obu::obus_bytes(with_header(obus, payload))),
    }
}

/// A temporal unit with its sequence headers, if it has any, replaced.
pub open spec fn header_replaced_if_any(tu: Seq<u8>, payload: Seq<u8>) -> Result<Seq<u8>, Error> {
    match obu::obus_of(tu) {
        Err(e) => Err(e),
        Ok(obus) => if has_header(obus) {
            Ok(obu::obus_bytes(with_header(obus, payload)))
        } else {
            Ok(tu)
        },
    }
}

fn tu_has_seq_header(tu: &[u8]) -> (res: Result<bool, Error>)
    ensures
        match res {
            Ok(b) => obu::obus_of(tu@) is Ok && b == has_header(obu::obus_of(tu@)->Ok_0),
            Err(e) => obu::obus_of(tu@) == Err::<Seq<Obu<Seq<u8>>>, Error>(e),
        },
{
    let obus = parse_obus(tu)?;
    let ghost all = model::views(obus@);
    let mut i: usize = 0;
    while i < obus.len()
        invariant
            i <= obus@.len(),
            all == model::views(obus@),
            obu::obus_of(tu@) == Ok::<Seq<Obu<Seq<u8>>>, Error>(all),
            forall|j: int|
                0 <= j < i ==> (#[trigger] all[j]).obu_type != ObuType::SequenceHeader,
        decreases obus@.len() - i,
    {
        assert(all[i as int] == obus@[i as int]@);
        if obus[i].obu_type == ObuType::SequenceHeader {
            return Ok(true);
        }
        i = i + 1;
    }
    Ok(false)
}

/// Rewrite `tu`, replacing the sequence header OBU payload with `new_payload`
/// (all other OBUs verbatim).
fn tu_replace_seq_header(tu: &[u8], new_payload: &Vec<u8>) -> (res: Result<TemporalUnit, Error>)
    ensures
        model::view_ok(res) == header_replaced(tu@, new_payload@),
{
    let obus = parse_obus(tu)?;
    let ghost all = model::views(obus@);
    let ghost owed = with_header(all, new_payload@);
    let ghost parts = Seq::new(owed.len(), |i: int| owed[i].bytes());
    let mut out: Vec<u8> = Vec::new();
    let mut i: usize = 0;
    assert(parts.take(0) =~= Seq::empty());
    assert(out@ =~= Seq::empty());
    while i < obus.len()
        invariant
            i <= obus@.len(),
            all == model::views(obus@),
            owed == with_header(all, new_payload@),
            parts == Seq::new(owed.len(), |i: int| owed[i].bytes()),
            out@ == model::concat(parts.take(i as int)),
        decreases obus@.len() - i,
    {
        assert(all[i as int] == obus@[i as int]@);
        if obus[i].obu_type == ObuType::SequenceHeader {
            let payload = new_payload.clone();
            assert(payload@ =~= new_payload@);
            let o = Obu {
                obu_type: ObuType::SequenceHeader,
                extension: obus[i].extension,
                payload,
            };
            assert(o@ == owed[i as int]);
            o.write(&mut out);
        } else {
            obus[i].write(&mut out);
        }
        proof {
            assert(parts.take(i + 1) =~= parts.take(i as int).push(parts[i as int]));
            model::lemma_concat_push(parts.take(i as int), parts[i as int]);
        }
        i = i + 1;
    }
    assert(parts.take(i as int) =~= parts);
    Ok(out)
}

/// The OBUs with buffer_removal_time_present_flag = 0 put into each frame
/// header, and the reference slots after them.
pub open spec fn flagged(
    obus: Seq<Obu<Seq<u8>>>,
    sh: Sections<Seq<OperatingPoint>>,
    slots: Seq<RefSlot>,
) -> Result<(Seq<Obu<Seq<u8>>>, Seq<RefSlot>), Error>
    decreases obus.len(),
{
    if obus.len() == 0 {
        Ok((Seq::empty(), slots))
    } else {
        match flagged(obus.drop_last(), sh, slots) {
            Err(e) => Err(e),
            Ok((done, slots)) => {
                let o = obus.last();
                if !scan::is_frame(o.obu_type) {
                    Ok((done.push(o), slots))
                } else {
                    match uheader::scan_of(o.payload, sh, slots) {
                        Err(e) => Err(e),
                        Ok(s) => match uheader::splice_of(
                            o.payload,
                            s.removal_insert_pos as int,
                            s.end_pos as int,
                            seq![false],
                        ) {
                            Err(e) => Err(e),
                            Ok(payload) => Ok(
                                (
                                    done.push(Obu { payload, ..o }),
                                    uheader::slots_after(slots, s),
                                ),
                            ),
                        },
                    }
                }
            },
        }
    }
}

/// A temporal unit with the flag put into its frame headers.
pub open spec fn flagged_tu(
    tu: Seq<u8>,
    sh: Sections<Seq<OperatingPoint>>,
    slots: Seq<RefSlot>,
) -> Result<(Seq<u8>, Seq<RefSlot>), Error> {
    match obu::obus_of(tu) {
        Err(e) => Err(e),
        Ok(obus) => match flagged(obus, sh, slots) {
            Err(e) => Err(e),
            Ok((done, slots)) => Ok((obu::obus_bytes(done), slots)),
        },
    }
}

proof fn lemma_flagged_stop(
    obus: Seq<Obu<Seq<u8>>>,
    sh: Sections<Seq<OperatingPoint>>,
    slots: Seq<RefSlot>,
    i: int,
)
    requires
        0 <= i <= obus.len(),
        flagged(obus.take(i), sh, slots) is Err,
    ensures
        flagged(obus, sh, slots) == flagged(obus.take(i), sh, slots),
    decreases obus.len(),
{
    if i == obus.len() {
        assert(obus.take(i) =~= obus);
    } else {
        assert(obus.drop_last().take(i) =~= obus.take(i));
        lemma_flagged_stop(obus.drop_last(), sh, slots, i);
    }
}

/// One frame header with the flag put in.
fn splice_flag(o: &Obu, sh: &SequenceHeader, dpb: &mut Dpb) -> (res: Result<Vec<u8>, Error>)
    requires
        uheader::walkable(sh@),
        uheader::slots_wf(old(dpb)@),
    ensures
        uheader::slots_wf(final(dpb)@),
        match res {
            Ok(payload) => {
                let s = uheader::scan_of(o.payload@, sh@, old(dpb)@);
                &&& s is Ok
                &&& uheader::splice_of(
                    o.payload@,
                    s->Ok_0.removal_insert_pos as int,
                    s->Ok_0.end_pos as int,
                    seq![false],
                ) == Ok::<Seq<u8>, Error>(payload@)
                &&& final(dpb)@ == uheader::slots_after(old(dpb)@, s->Ok_0)
            },
            Err(e) => match uheader::scan_of(o.payload@, sh@, old(dpb)@) {
                Err(e1) => e1 == e,
                Ok(s) => uheader::splice_of(
                    o.payload@,
                    s.removal_insert_pos as int,
                    s.end_pos as int,
                    seq![false],
                ) == Err::<Seq<u8>, Error>(e),
            },
        },
{
    let s = uheader::scan_uncompressed_header(&o.payload, sh, dpb)?;
    let insert: [(usize, u64); 1] = [(1, 0)];
    proof {
        reveal_with_fuel(uheader::field_bits, 2);
        reveal_with_fuel(bitio::be_bits, 2);
        assert(insert@.drop_last() =~= Seq::empty());
        assert(insert@.last() == (1usize, 0u64));
        assert(uheader::field_bits(insert@) =~= seq![false]);
    }
    uheader::splice_header_bits(&o.payload, s.removal_insert_pos, s.end_pos, &insert)
}

/// Rewrite `tu`: splice `buffer_removal_time_present_flag=0` into each
/// Frame/FrameHeader OBU payload. `orig_sh` is the sequence header WITHOUT
/// decoder_model_info (matching the bytes being scanned); `dpb` carries
/// ref-slot state across the TUs in decode order.
fn tu_insert_removal_flag(tu: &[u8], orig_sh: &SequenceHeader, dpb: &mut Dpb) -> (res: Result<
    TemporalUnit,
    Error,
>)
    requires
        uheader::walkable(orig_sh@),
        uheader::slots_wf(old(dpb)@),
    ensures
        uheader::slots_wf(final(dpb)@),
        match res {
            Ok(out) => flagged_tu(tu@, orig_sh@, old(dpb)@) == Ok::<(Seq<u8>, Seq<RefSlot>), Error>(
                (out@, final(dpb)@),
            ),
            Err(e) => flagged_tu(tu@, orig_sh@, old(dpb)@) == Err::<
                (Seq<u8>, Seq<RefSlot>),
                Error,
            >(e),
        },
{
    let obus = parse_obus(tu)?;
    let ghost all = model::views(obus@);
    let ghost slots0 = dpb@;
    let ghost mut done: Seq<Obu<Seq<u8>>> = Seq::empty();
    let mut out: Vec<u8> = Vec::new();
    let mut i: usize = 0;
    proof {
        assert(all.take(0) =~= Seq::empty());
        assert(out@ =~= obu::obus_bytes(done));
    }
    while i < obus.len()
        invariant
            i <= obus@.len(),
            all == model::views(obus@),
            obu::obus_of(tu@) == Ok::<Seq<Obu<Seq<u8>>>, Error>(all),
            uheader::walkable(orig_sh@),
            uheader::slots_wf(dpb@),
            slots0 == old(dpb)@,
            flagged(all.take(i as int), orig_sh@, slots0) == Ok::<
                (Seq<Obu<Seq<u8>>>, Seq<RefSlot>),
                Error,
            >((done, dpb@)),
            out@ == obu::obus_bytes(done),
        decreases obus@.len() - i,
    {
        let ghost before = done;
        proof {
            assert(all.take(i + 1).drop_last() =~= all.take(i as int));
            assert(all.take(i + 1).last() == obus@[i as int]@);
        }
        if obus[i].obu_type == ObuType::Frame || obus[i].obu_type == ObuType::FrameHeader {
            let res = splice_flag(&obus[i], orig_sh, dpb);
            proof {
                if res is Err {
                    lemma_flagged_stop(all, orig_sh@, slots0, i + 1);
                }
            }
            let payload = res?;
            let o = Obu { obu_type: obus[i].obu_type, extension: obus[i].extension, payload };
            o.write(&mut out);
            proof {
                done = done.push(o@);
            }
        } else {
            obus[i].write(&mut out);
            proof {
                done = done.push(obus@[i as int]@);
            }
        }
        proof {
            obu::lemma_obus_bytes_push(before, done.last());
            assert(before.push(done.last()) =~= done);
        }
        i = i + 1;
    }
    assert(all.take(i as int) =~= all);
    Ok(out)
}

// ---------- show_existing_frame ----------

/// The payload of a show_existing_frame header.
pub open spec fn show_existing_payload(slot: u8) -> Seq<u8> {
    bitio::pack(
        bitio::with_trailing_bits(
            Seq::<bool>::empty().push(true) + bitio::be_bits(3, slot as nat),
        ),
    )
}

/// The OBUs of a temporal unit that shows the frame stored in `slot`.
pub open spec fn show_existing_obus(slot: u8) -> Seq<Obu<Seq<u8>>> {
    seq![
        obu::td(),
        Obu {
            obu_type: ObuType::FrameHeader,
            extension: None,
            payload: show_existing_payload(slot),
        },
    ]
}

/// Build a temporal delimiter + show_existing_frame frame-header TU.
pub fn show_existing_tu(frame_to_show_map_idx: u8) -> (r: TemporalUnit)
    ensures
        r@ == obu::obus_bytes(show_existing_obus(frame_to_show_map_idx)),
{
    let mut w = BitWriter::new();
    w.flag(true);  // show_existing_frame
    w.f(3, frame_to_show_map_idx as u64);
    w.trailing_bits();
    let o = Obu { obu_type: ObuType::FrameHeader, extension: None, payload: w.into_bytes() };
    assert(bitio::aligned(
        bitio::aligned(
            (Seq::<bool>::empty().push(true) + bitio::be_bits(3, frame_to_show_map_idx as nat)).push(
                true,
            ),
        ),
    ) =~= bitio::with_trailing_bits(
        Seq::<bool>::empty().push(true) + bitio::be_bits(3, frame_to_show_map_idx as nat),
    ));
    let mut tu: Vec<u8> = Vec::new();
    Obu::temporal_delimiter().write(&mut tu);
    o.write(&mut tu);
    proof {
        let e = Seq::<Obu<Seq<u8>>>::empty();
        obu::lemma_obus_bytes_push(e, obu::td());
        obu::lemma_obus_bytes_push(e.push(obu::td()), o@);
        assert(e.push(obu::td()).push(o@) =~= show_existing_obus(frame_to_show_map_idx));
        assert(tu@ =~= obu::obus_bytes(e) + obu::td().bytes() + o@.bytes());
    }
    tu
}

proof fn lemma_show_existing_bits(slot: u8)
    ensures
        ({
            let bits = Seq::<bool>::empty().push(true) + bitio::be_bits(3, slot as nat);
            &&& bits.len() == 4
            &&& show_existing_payload(slot).len() == 1
            &&& bitio::bits_of(show_existing_payload(slot)).len() == 8
            &&& bitio::starts(bitio::bits_of(show_existing_payload(slot)), bits)
        }),
{
    let bits = Seq::<bool>::empty().push(true) + bitio::be_bits(3, slot as nat);
    bitio::lemma_be_bits_len(3, slot as nat);
    let t = bitio::with_trailing_bits(bits);
    bitio::lemma_bits_of_pack(t);
    assert(t.len() == 8);
    assert(bitio::aligned(t) =~= t);
    assert(t.take(4) =~= bits);
}

/// A temporal unit that shows a stored frame again is five bytes long, and it
/// reads back as just that, with its slot.
pub proof fn show_existing_reads_back(slot: u8, sh: Sections<Seq<OperatingPoint>>)
    requires
        slot < 8,
        !sh.reduced,
        !sh.ids.present,
        !sh.needs_temporal_point_info(),
    ensures
        obu::obus_bytes(show_existing_obus(slot)).len() == 5,
        obu::obus_of(obu::obus_bytes(show_existing_obus(slot))) == Ok::<
            Seq<Obu<Seq<u8>>>,
            Error,
        >(show_existing_obus(slot)),
        frame_header::info_of(show_existing_payload(slot), sh) == Ok::<FrameHeaderInfo, Error>(
            FrameHeaderInfo {
                show_existing_frame: true,
                frame_to_show_map_idx: Some(slot),
                frame_type: None,
                show_frame: false,
                showable_frame: false,
                order_hint: 0,
                refresh_frame_flags: 0,
            },
        ),
{
    let obus = show_existing_obus(slot);
    lemma_show_existing_bits(slot);
    lemma2_to64();
    lemma2_to64_rest();
    obu::obus_round_trip(obus);
    let e = Seq::<Obu<Seq<u8>>>::empty();
    obu::lemma_obus_bytes_push(e, obus[0]);
    obu::lemma_obus_bytes_push(e.push(obus[0]), obus[1]);
    assert(e.push(obus[0]).push(obus[1]) =~= obus);
    assert(bitio::leb128_bytes(0).len() == 1 && bitio::leb128_bytes(1).len() == 1);
    let c = Cur::start(show_existing_payload(slot));
    let bits = Seq::<bool>::empty().push(true);
    assert(c.seen() =~= Seq::empty());
    bitio::lemma_starts_append(c.bits, bits, bitio::be_bits(3, slot as nat));
    bitio::flag_reads_back(c, true);
    let c1 = c.flag().1;
    assert(c1.seen() == bits);
    bitio::f_reads_back(c1, 3, slot as u64);
}

/// The lowest slot that `flags` names.
pub open spec fn lowest_slot(flags: u8, from: int) -> Option<u8>
    decreases 8 - from,
{
    if from >= 8 || from < 0 {
        None
    } else if uheader::refreshed(flags, from) {
        Some(from as u8)
    } else {
        lowest_slot(flags, from + 1)
    }
}

/// Pick the lowest slot index refreshed by `refresh_frame_flags`.
fn lowest_refreshed_slot(flags: u8) -> (r: Option<u8>)
    ensures
        r == lowest_slot(flags, 0),
        r matches Some(s) ==> s < 8 && uheader::refreshed(flags, s as int),
        r is None ==> flags == 0,
{
    let mut i: u8 = 0;
    while i < 8
        invariant
            i <= 8,
            lowest_slot(flags, 0) == lowest_slot(flags, i as int),
            forall|j: u8| j < i ==> (#[trigger] (flags >> j)) & 1u8 != 1u8,
        decreases 8 - i,
    {
        if (flags >> i) & 1 == 1 {
            return Some(i);
        }
        i = i + 1;
    }
    proof {
        assert((flags >> 0u8) & 1u8 != 1u8 && (flags >> 1u8) & 1u8 != 1u8 && (flags >> 2u8) & 1u8
            != 1u8 && (flags >> 3u8) & 1u8 != 1u8 && (flags >> 4u8) & 1u8 != 1u8 && (flags >> 5u8)
            & 1u8 != 1u8 && (flags >> 6u8) & 1u8 != 1u8 && (flags >> 7u8) & 1u8 != 1u8);
        assert(flags == 0) by (bit_vector)
            requires
                (flags >> 0u8) & 1u8 != 1u8,
                (flags >> 1u8) & 1u8 != 1u8,
                (flags >> 2u8) & 1u8 != 1u8,
                (flags >> 3u8) & 1u8 != 1u8,
                (flags >> 4u8) & 1u8 != 1u8,
                (flags >> 5u8) & 1u8 != 1u8,
                (flags >> 6u8) & 1u8 != 1u8,
                (flags >> 7u8) & 1u8 != 1u8,
        ;
    }
    None
}

// ---------- assembling ----------

/// One display segment of a multi-image stream: an image's (key TU, golden
/// TU) pair plus how long it is shown. Every segment must carry a sequence
/// header byte-identical to the first segment's (same encode settings and
/// dimensions); segment boundaries are always shown KEY_FRAMEs, which reset
/// the DPB, so each image gets a fresh reference-slot slate.
#[derive(Debug, Clone, Copy)]
pub struct Segment<'a> {
    pub key_tu: &'a [u8],
    pub golden_tu: &'a [u8],
    pub frames: u64,
}

/// The view of a segment.
pub struct SegmentBytes {
    pub key_tu: Seq<u8>,
    pub golden_tu: Seq<u8>,
    pub frames: u64,
}

impl<'a> View for Segment<'a> {
    type V = SegmentBytes;

    open spec fn view(&self) -> SegmentBytes {
        SegmentBytes { key_tu: self.key_tu@, golden_tu: self.golden_tu@, frames: self.frames }
    }
}

pub struct AssembleOutput {
    pub tus: Vec<TemporalUnit>,
    /// Reference slot the golden frame lives in (for debugging/inspection).
    pub golden_slot: u8,
    /// 1-based TU indices that are keyframes (seek anchors / mp4 stss).
    pub key_samples: Vec<u32>,
    /// The parsed sequence header of the output stream.
    pub seq_header: SequenceHeader,
    /// Full OBU bytes (header+size+payload) of the sequence header,
    /// for embedding into av1C.
    pub seq_header_obu: Vec<u8>,
}

/// The view of an `AssembleOutput`.
pub struct Assembled {
    pub tus: Seq<Seq<u8>>,
    pub golden_slot: u8,
    pub key_samples: Seq<u32>,
    pub seq_header: Sections<Seq<OperatingPoint>>,
    pub seq_header_obu: Seq<u8>,
}

impl View for AssembleOutput {
    type V = Assembled;

    open spec fn view(&self) -> Assembled {
        Assembled {
            tus: model::views(self.tus@),
            golden_slot: self.golden_slot,
            key_samples: self.key_samples@,
            seq_header: self.seq_header@,
            seq_header_obu: self.seq_header_obu@,
        }
    }
}

/// The frame counts of the segments.
pub open spec fn frame_counts(segments: Seq<SegmentBytes>) -> Seq<u64> {
    Seq::new(segments.len(), |i: int| segments[i].frames)
}

/// The first segment from `from` on that shows no frame.
pub open spec fn empty_segment(segments: Seq<SegmentBytes>, from: int) -> Option<usize>
    decreases segments.len() - from,
{
    if from < 0 || from >= segments.len() {
        None
    } else if segments[from].frames == 0 {
        Some(from as usize)
    } else {
        empty_segment(segments, from + 1)
    }
}

/// What is wrong with the counts that were asked for.
pub open spec fn bad_counts(segments: Seq<SegmentBytes>, gop_size: u64) -> Option<AssembleError> {
    let total = gop::total(frame_counts(segments));
    if segments.len() == 0 {
        Some(AssembleError::NoSegments)
    } else if gop_size < 2 {
        Some(AssembleError::GopTooSmall)
    } else if total < 2 {
        Some(AssembleError::TooFewFrames)
    } else if total > MAX_TOTAL_FRAMES {
        Some(
            AssembleError::TooManyFrames(
                if total > u64::MAX {
                    u64::MAX
                } else {
                    total as u64
                },
            ),
        )
    } else {
        match empty_segment(segments, 0) {
            Some(i) => Some(AssembleError::EmptySegment(i)),
            None => None,
        }
    }
}

/// The first sequence header OBU.
pub open spec fn first_header(obus: Seq<Obu<Seq<u8>>>) -> Option<Obu<Seq<u8>>>
    decreases obus.len(),
{
    if obus.len() == 0 {
        None
    } else if obus[0].obu_type == ObuType::SequenceHeader {
        Some(obus[0])
    } else {
        first_header(obus.skip(1))
    }
}

/// The payload of the last sequence header OBU.
pub open spec fn last_header_payload(obus: Seq<Obu<Seq<u8>>>) -> Option<Seq<u8>>
    decreases obus.len(),
{
    if obus.len() == 0 {
        None
    } else if obus.last().obu_type == ObuType::SequenceHeader {
        Some(obus.last().payload)
    } else {
        last_header_payload(obus.drop_last())
    }
}

/// The sequence header OBU that governs the output, and what it says.
pub open spec fn governing_header(key_tu: Seq<u8>) -> Result<
    (Obu<Seq<u8>>, Sections<Seq<OperatingPoint>>),
    AssembleError,
> {
    match obu::obus_of(key_tu) {
        Err(e) => Err(AssembleError::Stream(e)),
        Ok(obus) => match first_header(obus) {
            None => Err(AssembleError::NoSequenceHeader),
            Some(o) => match seq_header::header_of(o.payload) {
                Err(e) => Err(AssembleError::Stream(e)),
                Ok(sh) => match sh.unsupported() {
                    Some(e) => Err(AssembleError::Unsupported(e)),
                    None => Ok((o, sh)),
                },
            },
        },
    }
}

/// What is wrong with the sequence header of segment `i`.
pub open spec fn header_trouble(segment: SegmentBytes, i: int, payload: Seq<u8>) -> Option<
    AssembleError,
> {
    match obu::obus_of(segment.key_tu) {
        Err(e) => Some(AssembleError::Stream(e)),
        Ok(obus) => if last_header_payload(obus) == Some(payload) {
            None
        } else {
            Some(AssembleError::SequenceHeaderMismatch(i as usize))
        },
    }
}

/// The first trouble with the sequence headers of the segments from `from` on.
pub open spec fn headers_trouble(segments: Seq<SegmentBytes>, from: int, payload: Seq<u8>) -> Option<
    AssembleError,
>
    decreases segments.len() - from,
{
    if from < 0 || from >= segments.len() {
        None
    } else {
        match header_trouble(segments[from], from, payload) {
            Some(e) => Some(e),
            None => headers_trouble(segments, from + 1, payload),
        }
    }
}

pub open spec fn at_least_one(v: u32) -> u32 {
    if v == 0 {
        1
    } else {
        v
    }
}

/// The sequence header to declare in place of the input's: one with a decoder
/// model where that is asked for, else one with constant-rate timing where the
/// input declares none.
pub open spec fn rewritten_header(sh: Sections<Seq<OperatingPoint>>, p: AssembleParams) -> Result<
    Option<Sections<Seq<OperatingPoint>>>,
    AssembleError,
> {
    let num = at_least_one(p.fps);
    let den = at_least_one(p.fps_den);
    if p.decoder_model {
        match seq_header::decoder_modeled(sh, num, den) {
            Err(e) => Err(AssembleError::DecoderModel(e)),
            Ok(out) => Ok(Some(out)),
        }
    } else if !sh.timing.present {
        Ok(Some(sh.timed(num, den)))
    } else {
        Ok(None)
    }
}

/// The temporal units that a segment is made of.
pub struct Prepared<T = Vec<u8>> {
    pub key_tu: T,
    pub golden_tu: T,
    pub show_tu: T,
    pub golden_slot: u8,
    pub frames: u64,
}

impl View for Prepared {
    type V = Prepared<Seq<u8>>;

    open spec fn view(&self) -> Prepared<Seq<u8>> {
        Prepared {
            key_tu: self.key_tu@,
            golden_tu: self.golden_tu@,
            show_tu: self.show_tu@,
            golden_slot: self.golden_slot,
            frames: self.frames,
        }
    }
}

/// A segment's two temporal units under the header that the output declares.
pub open spec fn reheaded(
    segment: SegmentBytes,
    rewrite: Option<Sections<Seq<OperatingPoint>>>,
) -> Result<(Seq<u8>, Seq<u8>), Error> {
    match rewrite {
        None => Ok((segment.key_tu, segment.golden_tu)),
        Some(sh2) => {
            let payload = seq_header::header_bytes(sh2);
            match header_replaced(segment.key_tu, payload) {
                Err(e) => Err(e),
                Ok(key) => match header_replaced_if_any(segment.golden_tu, payload) {
                    Err(e) => Err(e),
                    Ok(golden) => Ok((key, golden)),
                },
            }
        },
    }
}

/// The two temporal units with the removal flag put in where the model is new
/// to the stream, and the reference slots after them.
pub open spec fn respliced(
    key: Seq<u8>,
    golden: Seq<u8>,
    i: int,
    sh: Sections<Seq<OperatingPoint>>,
    splice: bool,
    slots: Seq<RefSlot>,
) -> Result<(Seq<u8>, Seq<u8>, Seq<RefSlot>), AssembleError> {
    if !splice {
        Ok((key, golden, slots))
    } else {
        match flagged_tu(key, sh, slots) {
            Err(cause) => Err(AssembleError::SpliceKey { segment: i as usize, cause }),
            Ok((key, slots)) => match flagged_tu(golden, sh, slots) {
                Err(cause) => Err(AssembleError::SpliceGolden { segment: i as usize, cause }),
                Ok((golden, slots)) => Ok((key, golden, slots)),
            },
        }
    }
}

/// Whether the first temporal unit of segment `i` is a shown keyframe and the
/// second a shown frame that can be shown again: the slot it is stored in.
pub open spec fn checked_slot(
    key: Seq<u8>,
    golden: Seq<u8>,
    i: int,
    sh: Sections<Seq<OperatingPoint>>,
) -> Result<u8, AssembleError> {
    let segment = i as usize;
    match frame_info(key, sh) {
        Err(e) => Err(e),
        Ok(k) => if !(k.frame_type == Some(KEY_FRAME) && k.show_frame) {
            Err(AssembleError::NotKeyFrame { segment, got: k.frame_type })
        } else {
            match frame_info(golden, sh) {
                Err(e) => Err(e),
                Ok(g) => match g.frame_type {
                    None => Err(AssembleError::GoldenShowExisting),
                    Some(frame_type) => if !g.show_frame {
                        Err(AssembleError::GoldenNotShown(segment))
                    } else if !g.showable_frame || frame_type == KEY_FRAME {
                        Err(AssembleError::GoldenNotShowable { segment, frame_type })
                    } else {
                        match lowest_slot(g.refresh_frame_flags, 0) {
                            None => Err(AssembleError::GoldenNoSlots),
                            Some(slot) => Ok(slot),
                        }
                    },
                },
            }
        },
    }
}

/// Segment `i` made ready, and the reference slots after its temporal units.
pub open spec fn prepared(
    segment: SegmentBytes,
    i: int,
    sh: Sections<Seq<OperatingPoint>>,
    rewrite: Option<Sections<Seq<OperatingPoint>>>,
    splice: bool,
    slots: Seq<RefSlot>,
) -> Result<(Prepared<Seq<u8>>, Seq<RefSlot>), AssembleError> {
    match reheaded(segment, rewrite) {
        Err(e) => Err(AssembleError::Stream(e)),
        Ok((key, golden)) => match respliced(key, golden, i, sh, splice, slots) {
            Err(e) => Err(e),
            Ok((key, golden, slots)) => {
                let effective = match rewrite {
                    Some(sh2) => sh2,
                    None => sh,
                };
                match checked_slot(key, golden, i, effective) {
                    Err(e) => Err(e),
                    Ok(slot) => Ok(
                        (
                            Prepared {
                                key_tu: key,
                                golden_tu: golden,
                                show_tu: obu::obus_bytes(show_existing_obus(slot)),
                                golden_slot: slot,
                                frames: segment.frames,
                            },
                            slots,
                        ),
                    ),
                }
            },
        },
    }
}

/// The first `n` segments made ready, in decode order.
pub open spec fn all_prepared(
    segments: Seq<SegmentBytes>,
    n: nat,
    sh: Sections<Seq<OperatingPoint>>,
    rewrite: Option<Sections<Seq<OperatingPoint>>>,
    splice: bool,
) -> Result<(Seq<Prepared<Seq<u8>>>, Seq<RefSlot>), AssembleError>
    decreases n,
{
    if n == 0 {
        Ok((Seq::empty(), uheader::blank_slots()))
    } else {
        match all_prepared(segments, (n - 1) as nat, sh, rewrite, splice) {
            Err(e) => Err(e),
            Ok((done, slots)) => match prepared(segments[n - 1], n - 1, sh, rewrite, splice, slots) {
                Err(e) => Err(e),
                Ok((p, slots)) => Ok((done.push(p), slots)),
            },
        }
    }
}

/// The temporal unit that stands for one place in the plan.
pub open spec fn planned_tu(done: Seq<Prepared<Seq<u8>>>, at: (int, Slot)) -> Seq<u8> {
    match at.1 {
        Slot::Key => done[at.0].key_tu,
        Slot::Golden => done[at.0].golden_tu,
        Slot::Show => done[at.0].show_tu,
    }
}

/// The output temporal units.
pub open spec fn planned_tus(done: Seq<Prepared<Seq<u8>>>, plan: Seq<(int, Slot)>) -> Seq<Seq<u8>> {
    Seq::new(plan.len(), |i: int| planned_tu(done, plan[i]))
}

/// The sequence header OBU to embed beside the output.
pub open spec fn header_obu(
    o: Obu<Seq<u8>>,
    rewrite: Option<Sections<Seq<OperatingPoint>>>,
) -> Seq<u8> {
    match rewrite {
        None => o.bytes(),
        Some(sh2) => Obu {
            obu_type: ObuType::SequenceHeader,
            extension: None,
            payload: seq_header::header_bytes(sh2),
        }.bytes(),
    }
}

/// What assembling the segments gives.
pub open spec fn assembled(segments: Seq<SegmentBytes>, p: AssembleParams) -> Result<
    Assembled,
    AssembleError,
> {
    match bad_counts(segments, p.gop_size) {
        Some(e) => Err(e),
        None => match governing_header(segments[0].key_tu) {
            Err(e) => Err(e),
            Ok((o, sh)) => match headers_trouble(segments, 1, o.payload) {
                Some(e) => Err(e),
                None => match rewritten_header(sh, p) {
                    Err(e) => Err(e),
                    Ok(rewrite) => match all_prepared(
                        segments,
                        segments.len(),
                        sh,
                        rewrite,
                        p.decoder_model && !sh.timing.model.present,
                    ) {
                        Err(e) => Err(e),
                        Ok((done, _)) => {
                            let plan = gop::plan(frame_counts(segments), p.gop_size);
                            Ok(
                                Assembled {
                                    tus: planned_tus(done, plan),
                                    golden_slot: done[0].golden_slot,
                                    key_samples: gop::key_numbers(plan),
                                    seq_header: match rewrite {
                                        Some(sh2) => sh2,
                                        None => sh,
                                    },
                                    seq_header_obu: header_obu(o, rewrite),
                                },
                            )
                        },
                    },
                },
            },
        },
    }
}

/// The segments' views.
pub open spec fn segment_views<'a>(segments: Seq<Segment<'a>>) -> Seq<SegmentBytes> {
    Seq::new(segments.len(), |i: int| segments[i]@)
}

fn check_counts(segments: &[Segment], gop_size: u64) -> (res: Result<(), AssembleError>)
    ensures
        match res {
            Ok(_) => bad_counts(segment_views(segments@), gop_size) is None,
            Err(e) => bad_counts(segment_views(segments@), gop_size) == Some(e),
        },
{
    let ghost all = segment_views(segments@);
    let ghost counts = frame_counts(all);
    if segments.len() == 0 {
        return Err(AssembleError::NoSegments);
    }
    if gop_size < 2 {
        return Err(AssembleError::GopTooSmall);
    }
    let mut total: u64 = 0;
    let mut i: usize = 0;
    assert(counts.take(0) =~= Seq::empty());
    while i < segments.len()
        invariant
            i <= segments@.len(),
            all == segment_views(segments@),
            counts == frame_counts(all),
            total == if gop::total(counts.take(i as int)) > u64::MAX {
                u64::MAX as nat
            } else {
                gop::total(counts.take(i as int))
            },
        decreases segments@.len() - i,
    {
        proof {
            assert(counts.take(i + 1).drop_last() =~= counts.take(i as int));
            assert(counts[i as int] == segments@[i as int].frames);
        }
        // saturating: the limit below is far under what saturates
        total = if segments[i].frames > u64::MAX - total {
            u64::MAX
        } else {
            total + segments[i].frames
        };
        i = i + 1;
    }
    assert(counts.take(i as int) =~= counts);
    if total < 2 {
        return Err(AssembleError::TooFewFrames);
    }
    if total > MAX_TOTAL_FRAMES {
        return Err(AssembleError::TooManyFrames(total));
    }
    let mut i: usize = 0;
    while i < segments.len()
        invariant
            i <= segments@.len(),
            all == segment_views(segments@),
            empty_segment(all, 0) == empty_segment(all, i as int),
            bad_counts(all, gop_size) == (match empty_segment(all, 0) {
                Some(i) => Some(AssembleError::EmptySegment(i)),
                None => None,
            }),
        decreases segments@.len() - i,
    {
        assert(all[i as int] == segments@[i as int]@);
        if segments[i].frames == 0 {
            return Err(AssembleError::EmptySegment(i));
        }
        i = i + 1;
    }
    Ok(())
}

fn find_governing_header(key_tu: &[u8]) -> (res: Result<(Obu, SequenceHeader), AssembleError>)
    ensures
        match res {
            Ok((o, sh)) => governing_header(key_tu@) == Ok::<
                (Obu<Seq<u8>>, Sections<Seq<OperatingPoint>>),
                AssembleError,
            >((o@, sh@)) && sh@.canonical() && sh@.unsupported() is None,
            Err(e) => governing_header(key_tu@) == Err::<
                (Obu<Seq<u8>>, Sections<Seq<OperatingPoint>>),
                AssembleError,
            >(e),
        },
{
    let obus = match parse_obus(key_tu) {
        Ok(o) => o,
        Err(e) => {
            return Err(AssembleError::Stream(e));
        },
    };
    let ghost all = model::views(obus@);
    let mut i: usize = 0;
    assert(all.skip(0) =~= all);
    while i < obus.len()
        invariant
            i <= obus@.len(),
            all == model::views(obus@),
            obu::obus_of(key_tu@) == Ok::<Seq<Obu<Seq<u8>>>, Error>(all),
            first_header(all) == first_header(all.skip(i as int)),
        decreases obus@.len() - i,
    {
        proof {
            assert(all.skip(i as int)[0] == obus@[i as int]@);
            assert(all.skip(i as int).skip(1) =~= all.skip(i + 1));
        }
        if obus[i].obu_type == ObuType::SequenceHeader {
            let sh = match seq_header::parse_sequence_header(&obus[i].payload) {
                Ok(sh) => sh,
                Err(e) => {
                    return Err(AssembleError::Stream(e));
                },
            };
            proof {
                seq_header::parsed_header_re_emits(obus@[i as int].payload@);
            }
            if let Err(e) = sh.check_supported() {
                return Err(AssembleError::Unsupported(e));
            }
            return Ok((obus[i].clone(), sh));
        }
        i = i + 1;
    }
    Err(AssembleError::NoSequenceHeader)
}

fn check_segment_header(key_tu: &[u8], i: usize, payload: &Vec<u8>) -> (res: Result<
    (),
    AssembleError,
>)
    ensures
        forall|s: SegmentBytes|
            s.key_tu == key_tu@ ==> (#[trigger] header_trouble(s, i as int, payload@)) == (
            match res {
                Ok(_) => None,
                Err(e) => Some(e),
            }),
{
    let obus = match parse_obus(key_tu) {
        Ok(o) => o,
        Err(e) => {
            return Err(AssembleError::Stream(e));
        },
    };
    let ghost all = model::views(obus@);
    let mut k: usize = obus.len();
    assert(all.take(k as int) =~= all);
    while k > 0
        invariant
            k <= obus@.len(),
            all == model::views(obus@),
            obu::obus_of(key_tu@) == Ok::<Seq<Obu<Seq<u8>>>, Error>(all),
            last_header_payload(all) == last_header_payload(all.take(k as int)),
        decreases k,
    {
        k = k - 1;
        proof {
            assert(all.take(k + 1).last() == obus@[k as int]@);
            assert(all.take(k + 1).drop_last() =~= all.take(k as int));
        }
        if obus[k].obu_type == ObuType::SequenceHeader {
            if bytes::same(&obus[k].payload, payload) {
                return Ok(());
            }
            return Err(AssembleError::SequenceHeaderMismatch(i));
        }
    }
    Err(AssembleError::SequenceHeaderMismatch(i))
}

fn check_segment_headers(segments: &[Segment], payload: &Vec<u8>) -> (res: Result<
    (),
    AssembleError,
>)
    requires
        segments@.len() > 0,
    ensures
        headers_trouble(segment_views(segments@), 1, payload@) == (match res {
            Ok(_) => None,
            Err(e) => Some(e),
        }),
{
    let ghost all = segment_views(segments@);
    let mut i: usize = 1;
    while i < segments.len()
        invariant
            1 <= i <= segments@.len(),
            all == segment_views(segments@),
            headers_trouble(all, 1, payload@) == headers_trouble(all, i as int, payload@),
        decreases segments@.len() - i,
    {
        assert(all[i as int] == segments@[i as int]@);
        let res = check_segment_header(segments[i].key_tu, i, payload);
        assert(header_trouble(all[i as int], i as int, payload@) == (match res {
            Ok(_) => None,
            Err(e) => Some(e),
        }));
        res?;
        i = i + 1;
    }
    Ok(())
}

fn rewrite_header(sh: &SequenceHeader, p: &AssembleParams) -> (res: Result<
    Option<SequenceHeader>,
    AssembleError,
>)
    requires
        sh@.canonical(),
        sh@.unsupported() is None,
    ensures
        match res {
            Ok(None) => rewritten_header(sh@, *p) == Ok::<
                Option<Sections<Seq<OperatingPoint>>>,
                AssembleError,
            >(None),
            Ok(Some(sh2)) => rewritten_header(sh@, *p) == Ok::<
                Option<Sections<Seq<OperatingPoint>>>,
                AssembleError,
            >(Some(sh2@)) && sh2@.canonical(),
            Err(e) => rewritten_header(sh@, *p) == Err::<
                Option<Sections<Seq<OperatingPoint>>>,
                AssembleError,
            >(e),
        },
{
    let num: u32 = if p.fps == 0 {
        1
    } else {
        p.fps
    };
    let den: u32 = if p.fps_den == 0 {
        1
    } else {
        p.fps_den
    };
    if p.decoder_model {
        match seq_header::with_decoder_model_rate(sh, num, den) {
            Ok(sh2) => {
                proof {
                    seq_header::decoder_model_keeps_the_header_exact(sh@, num, den);
                }
                Ok(Some(sh2))
            },
            Err(e) => Err(AssembleError::DecoderModel(e)),
        }
    } else if !sh.timing_info_present {
        proof {
            seq_header::timing_flips_only_the_timing_section(sh@, num, den);
        }
        Ok(Some(seq_header::with_timing_info_rate(sh, num, den)))
    } else {
        Ok(None)
    }
}

fn rehead(segment: &Segment, payload: &Option<Vec<u8>>, Ghost(rewrite): Ghost<
    Option<Sections<Seq<OperatingPoint>>>,
>) -> (res: Result<(Vec<u8>, Vec<u8>), Error>)
    requires
        match rewrite {
            Some(sh2) => payload is Some && payload->0@ == seq_header::header_bytes(sh2),
            None => payload is None,
        },
    ensures
        match res {
            Ok((key, golden)) => reheaded(segment@, rewrite) == Ok::<(Seq<u8>, Seq<u8>), Error>(
                (key@, golden@),
            ),
            Err(e) => reheaded(segment@, rewrite) == Err::<(Seq<u8>, Seq<u8>), Error>(e),
        },
{
    match payload {
        None => {
            let key = vstd::slice::slice_to_vec(segment.key_tu);
            let golden = vstd::slice::slice_to_vec(segment.golden_tu);
            Ok((key, golden))
        },
        Some(payload) => {
            let key = tu_replace_seq_header(segment.key_tu, payload)?;
            let golden = if tu_has_seq_header(segment.golden_tu)? {
                tu_replace_seq_header(segment.golden_tu, payload)?
            } else {
                vstd::slice::slice_to_vec(segment.golden_tu)
            };
            Ok((key, golden))
        },
    }
}

fn resplice(
    key: Vec<u8>,
    golden: Vec<u8>,
    i: usize,
    sh: &SequenceHeader,
    splice: bool,
    dpb: &mut Dpb,
) -> (res: Result<(Vec<u8>, Vec<u8>), AssembleError>)
    requires
        uheader::walkable(sh@),
        uheader::slots_wf(old(dpb)@),
    ensures
        uheader::slots_wf(final(dpb)@),
        match res {
            Ok((k, g)) => respliced(key@, golden@, i as int, sh@, splice, old(dpb)@) == Ok::<
                (Seq<u8>, Seq<u8>, Seq<RefSlot>),
                AssembleError,
            >((k@, g@, final(dpb)@)),
            Err(e) => respliced(key@, golden@, i as int, sh@, splice, old(dpb)@) == Err::<
                (Seq<u8>, Seq<u8>, Seq<RefSlot>),
                AssembleError,
            >(e),
        },
{
    if !splice {
        return Ok((key, golden));
    }
    // Scan with the ORIGINAL seq header: the flag is absent from the
    // encoder's headers and is inserted where the model wants it.
    let key = match tu_insert_removal_flag(&key, sh, dpb) {
        Ok(tu) => tu,
        Err(cause) => {
            return Err(AssembleError::SpliceKey { segment: i, cause });
        },
    };
    let golden = match tu_insert_removal_flag(&golden, sh, dpb) {
        Ok(tu) => tu,
        Err(cause) => {
            return Err(AssembleError::SpliceGolden { segment: i, cause });
        },
    };
    Ok((key, golden))
}

fn check_slot(key: &[u8], golden: &[u8], i: usize, sh: &SequenceHeader) -> (res: Result<
    u8,
    AssembleError,
>)
    ensures
        res == checked_slot(key@, golden@, i as int, sh@),
        res matches Ok(slot) ==> slot < 8,
{
    let k = tu_frame_info(key, sh)?;
    let is_key = match k.frame_type {
        Some(ft) => ft == KEY_FRAME,
        None => false,
    };
    if !(is_key && k.show_frame) {
        return Err(AssembleError::NotKeyFrame { segment: i, got: k.frame_type });
    }
    let g = tu_frame_info(golden, sh)?;
    let frame_type = match g.frame_type {
        Some(ft) => ft,
        None => {
            return Err(AssembleError::GoldenShowExisting);
        },
    };
    if !g.show_frame {
        return Err(AssembleError::GoldenNotShown(i));
    }
    if !g.showable_frame || frame_type == KEY_FRAME {
        return Err(AssembleError::GoldenNotShowable { segment: i, frame_type });
    }
    match lowest_refreshed_slot(g.refresh_frame_flags) {
        Some(slot) => Ok(slot),
        None => Err(AssembleError::GoldenNoSlots),
    }
}

fn effective<'a>(sh: &'a SequenceHeader, rewrite: &'a Option<SequenceHeader>) -> (r:
    &'a SequenceHeader)
    ensures
        r@ == (match rewrite {
            Some(sh2) => sh2@,
            None => sh@,
        }),
{
    match rewrite {
        Some(sh2) => sh2,
        None => sh,
    }
}

/// The view of an optional header.
pub open spec fn opt_view(rewrite: Option<SequenceHeader>) -> Option<Sections<Seq<OperatingPoint>>> {
    match rewrite {
        Some(sh2) => Some(sh2@),
        None => None,
    }
}

fn prepare(
    segment: &Segment,
    i: usize,
    sh: &SequenceHeader,
    rewrite: &Option<SequenceHeader>,
    payload: &Option<Vec<u8>>,
    splice: bool,
    dpb: &mut Dpb,
) -> (res: Result<Prepared, AssembleError>)
    requires
        uheader::walkable(sh@),
        uheader::slots_wf(old(dpb)@),
        match opt_view(*rewrite) {
            Some(sh2) => payload is Some && payload->0@ == seq_header::header_bytes(sh2),
            None => payload is None,
        },
    ensures
        uheader::slots_wf(final(dpb)@),
        match res {
            Ok(p) => prepared(segment@, i as int, sh@, opt_view(*rewrite), splice, old(dpb)@)
                == Ok::<(Prepared<Seq<u8>>, Seq<RefSlot>), AssembleError>((p@, final(dpb)@)),
            Err(e) => prepared(segment@, i as int, sh@, opt_view(*rewrite), splice, old(dpb)@)
                == Err::<(Prepared<Seq<u8>>, Seq<RefSlot>), AssembleError>(e),
        },
{
    let (key, golden) = match rehead(segment, payload, Ghost(opt_view(*rewrite))) {
        Ok(pair) => pair,
        Err(e) => {
            return Err(AssembleError::Stream(e));
        },
    };
    let (key_tu, golden_tu) = resplice(key, golden, i, sh, splice, dpb)?;
    let golden_slot = check_slot(&key_tu, &golden_tu, i, effective(sh, rewrite))?;
    Ok(
        Prepared {
            key_tu,
            golden_tu,
            show_tu: show_existing_tu(golden_slot),
            golden_slot,
            frames: segment.frames,
        },
    )
}

proof fn lemma_all_prepared_stop(
    segments: Seq<SegmentBytes>,
    i: nat,
    n: nat,
    sh: Sections<Seq<OperatingPoint>>,
    rewrite: Option<Sections<Seq<OperatingPoint>>>,
    splice: bool,
)
    requires
        i <= n,
        all_prepared(segments, i, sh, rewrite, splice) is Err,
    ensures
        all_prepared(segments, n, sh, rewrite, splice) == all_prepared(
            segments,
            i,
            sh,
            rewrite,
            splice,
        ),
    decreases n,
{
    if i < n {
        lemma_all_prepared_stop(segments, i, (n - 1) as nat, sh, rewrite, splice);
    }
}

fn prepare_all(
    segments: &[Segment],
    sh: &SequenceHeader,
    rewrite: &Option<SequenceHeader>,
    payload: &Option<Vec<u8>>,
    splice: bool,
) -> (res: Result<Vec<Prepared>, AssembleError>)
    requires
        uheader::walkable(sh@),
        match opt_view(*rewrite) {
            Some(sh2) => payload is Some && payload->0@ == seq_header::header_bytes(sh2),
            None => payload is None,
        },
    ensures
        match res {
            Ok(v) => {
                let all = all_prepared(
                    segment_views(segments@),
                    segments@.len(),
                    sh@,
                    opt_view(*rewrite),
                    splice,
                );
                &&& all is Ok
                &&& all->Ok_0.0 == model::views(v@)
                &&& v@.len() == segments@.len()
                &&& forall|i: int|
                    0 <= i < v@.len() ==> (#[trigger] v@[i]).frames == segments@[i].frames
            },
            Err(e) => all_prepared(
                segment_views(segments@),
                segments@.len(),
                sh@,
                opt_view(*rewrite),
                splice,
            ) == Err::<(Seq<Prepared<Seq<u8>>>, Seq<RefSlot>), AssembleError>(e),
        },
{
    let ghost all = segment_views(segments@);
    let ghost rw = opt_view(*rewrite);
    let mut out: Vec<Prepared> = Vec::new();
    let mut dpb = Dpb::default();  // shared across segments, decode order
    assert(model::views(out@) =~= Seq::empty());
    while out.len() < segments.len()
        invariant
            out@.len() <= segments@.len(),
            all == segment_views(segments@),
            rw == opt_view(*rewrite),
            uheader::walkable(sh@),
            uheader::slots_wf(dpb@),
            match opt_view(*rewrite) {
                Some(sh2) => payload is Some && payload->0@ == seq_header::header_bytes(sh2),
                None => payload is None,
            },
            all_prepared(all, out@.len(), sh@, rw, splice) == Ok::<
                (Seq<Prepared<Seq<u8>>>, Seq<RefSlot>),
                AssembleError,
            >((model::views(out@), dpb@)),
            forall|i: int|
                0 <= i < out@.len() ==> (#[trigger] out@[i]).frames == segments@[i].frames,
        decreases segments@.len() - out@.len(),
    {
        let i: usize = out.len();
        let ghost done = model::views(out@);
        assert(all[i as int] == segments@[i as int]@);
        let res = prepare(&segments[i], i, sh, rewrite, payload, splice, &mut dpb);
        proof {
            if res is Err {
                lemma_all_prepared_stop(all, (i + 1) as nat, segments@.len(), sh@, rw, splice);
            }
        }
        let p = res?;
        out.push(p);
        assert(model::views(out@) =~= done.push(p@));
    }
    Ok(out)
}

/// Append the temporal units of segment `s`.
fn emit_segment(
    tus: &mut Vec<TemporalUnit>,
    keys: &mut Vec<u32>,
    p: &Prepared,
    gop_size: u64,
    Ghost(s): Ghost<int>,
    Ghost(done): Ghost<Seq<Prepared<Seq<u8>>>>,
    Ghost(before): Ghost<Seq<(int, Slot)>>,
)
    requires
        gop_size >= 2,
        0 <= s < done.len(),
        done[s] == p@,
        model::views(old(tus)@) == planned_tus(done, before),
        old(keys)@ == gop::key_numbers(before),
        before.len() + p.frames <= MAX_TOTAL_FRAMES,
    ensures
        ({
            let after = before + gop::segment_plan(s, p.frames, gop_size);
            &&& model::views(final(tus)@) == planned_tus(done, after)
            &&& final(keys)@ == gop::key_numbers(after)
        }),
{
    let ghost seg = gop::segment_plan(s, p.frames, gop_size);
    let mut j: u64 = 0;
    assert(before + seg.take(0) =~= before);
    while j < p.frames
        invariant
            gop_size >= 2,
            j <= p.frames,
            0 <= s < done.len(),
            done[s] == p@,
            seg == gop::segment_plan(s, p.frames, gop_size),
            model::views(tus@) == planned_tus(done, before + seg.take(j as int)),
            keys@ == gop::key_numbers(before + seg.take(j as int)),
            before.len() + p.frames <= MAX_TOTAL_FRAMES,
        decreases p.frames - j,
    {
        let ghost plan = before + seg.take(j as int);
        let ghost next = before + seg.take(j + 1);
        let ghost had = model::views(tus@);
        let r: u64 = j % gop_size;
        let tu = if r == 0 {
            assert(tus@.len() == plan.len()) by {
                assert(model::views(tus@).len() == tus@.len());
            }
            keys.push(tus.len() as u32 + 1);
            p.key_tu.clone()
        } else if r == 1 {
            p.golden_tu.clone()
        } else {
            p.show_tu.clone()
        };
        tus.push(tu);
        proof {
            let at = (s, gop::slot_at(j as int, gop_size as int));
            assert(seg[j as int] == at);
            assert(next =~= plan.push(at));
            assert(next.drop_last() =~= plan);
            assert(tu@ =~= planned_tu(done, at));
            assert(model::views(tus@) =~= had.push(tu@));
            assert(planned_tus(done, next) =~= planned_tus(done, plan).push(planned_tu(done, at)));
        }
        j = j + 1;
    }
    assert(before + seg.take(j as int) =~= before + seg);
}

/// Assemble the output temporal units.
///
/// `key_tu`: TU containing (optionally seq header) + shown KEY_FRAME.
/// `golden_tu`: TU containing a shown non-key frame of identical content
///   (must be decodable right after the key TU — i.e. produced by the real
///   encoder as the frame following the keyframe).
pub fn assemble(key_tu: &[u8], golden_tu: &[u8], params: &AssembleParams) -> (res: Result<
    AssembleOutput,
    AssembleError,
>)
    ensures
        model::view_ok(res) == assembled(
            seq![
                SegmentBytes {
                    key_tu: key_tu@,
                    golden_tu: golden_tu@,
                    frames: params.total_frames,
                },
            ],
            *params,
        ),
{
    let segments: [Segment; 1] = [Segment { key_tu, golden_tu, frames: params.total_frames }];
    assert(segment_views(segments@) =~= seq![
        SegmentBytes { key_tu: key_tu@, golden_tu: golden_tu@, frames: params.total_frames },
    ]);
    assemble_multi(&segments, params)
}

/// Multi-image variant: `segments` plays in order; each segment is carved
/// into <= `gop_size` chunks of `key + golden + show_existing` so seek
/// granularity (== max keyframe distance) is preserved across image switches.
pub fn assemble_multi(segments: &[Segment], params: &AssembleParams) -> (res: Result<
    AssembleOutput,
    AssembleError,
>)
    ensures
        model::view_ok(res) == assembled(segment_views(segments@), *params),
{
    let ghost all = segment_views(segments@);
    let ghost counts = frame_counts(all);
    check_counts(segments, params.gop_size)?;
    // --- canonical sequence header from segment 0; all segments must match ---
    let (seq_obu, sh) = find_governing_header(segments[0].key_tu)?;
    assert(all[0] == segments@[0]@);
    check_segment_headers(segments, &seq_obu.payload)?;
    // Streams that don't declare timing get it injected: a constant-rate
    // timing_info matching the output fps. With a decoder model it goes further:
    // decoder_model_info() is declared AND the passthrough frames' headers
    // are spliced to carry buffer_removal_time_present_flag=0 (the flag is
    // unconditional once the model is declared; equal_picture_interval keeps
    // temporal_point_info out of every header). A stream that declares a model
    // already has the flag in its headers.
    let rewrite = rewrite_header(&sh, params)?;
    let mut seq_header_obu: Vec<u8> = Vec::new();
    let payload = match &rewrite {
        Some(sh2) => {
            let payload = seq_header::emit_sequence_header(sh2);
            let copy = payload.clone();
            assert(copy@ =~= payload@);
            let o = Obu { obu_type: ObuType::SequenceHeader, extension: None, payload: copy };
            o.write(&mut seq_header_obu);
            Some(payload)
        },
        None => {
            seq_obu.write(&mut seq_header_obu);
            None
        },
    };
    assert(seq_header_obu@ =~= header_obu(seq_obu@, opt_view(rewrite)));
    // --- per-segment rewrite + validation ---
    let splice = params.decoder_model && !sh.decoder_model_info_present;
    let prepped = prepare_all(segments, &sh, &rewrite, &payload, splice)?;
    // --- emit ---
    let mut tus: Vec<TemporalUnit> = Vec::new();
    let mut key_samples: Vec<u32> = Vec::new();
    let ghost done = model::views(prepped@);
    let mut i: usize = 0;
    proof {
        assert(counts.take(0) =~= Seq::empty());
        gop::plan_has_every_frame(counts.take(0), params.gop_size);
        assert(gop::plan(counts.take(0), params.gop_size) =~= Seq::empty());
        assert(model::views(tus@) =~= planned_tus(done, gop::plan(counts.take(0), params.gop_size)));
        assert(counts.take(counts.len() as int) =~= counts);
    }
    while i < prepped.len()
        invariant
            i <= prepped@.len(),
            prepped@.len() == counts.len(),
            counts.len() == segments@.len(),
            counts == frame_counts(all),
            all == segment_views(segments@),
            done == model::views(prepped@),
            params.gop_size >= 2,
            gop::total(counts) <= MAX_TOTAL_FRAMES,
            counts.take(counts.len() as int) == counts,
            forall|k: int|
                0 <= k < prepped@.len() ==> (#[trigger] prepped@[k]).frames == segments@[k].frames,
            model::views(tus@) == planned_tus(
                done,
                gop::plan(counts.take(i as int), params.gop_size),
            ),
            key_samples@ == gop::key_numbers(gop::plan(counts.take(i as int), params.gop_size)),
        decreases prepped@.len() - i,
    {
        let ghost before = gop::plan(counts.take(i as int), params.gop_size);
        proof {
            gop::lemma_plan_step(counts, params.gop_size, i as int);
            gop::plan_has_every_frame(counts.take(i as int), params.gop_size);
            gop::lemma_total_monotone(counts, i + 1, counts.len() as int);
            assert(counts[i as int] == segments@[i as int].frames);
            assert(prepped@[i as int].frames == counts[i as int]);
        }
        emit_segment(
            &mut tus,
            &mut key_samples,
            &prepped[i],
            params.gop_size,
            Ghost(i as int),
            Ghost(done),
            Ghost(before),
        );
        i = i + 1;
    }
    let golden_slot = prepped[0].golden_slot;
    assert(done[0] == prepped@[0]@);
    let seq_header = match rewrite {
        Some(sh2) => sh2,
        None => sh,
    };
    Ok(AssembleOutput { tus, golden_slot, key_samples, seq_header, seq_header_obu })
}

/// Build an IVF from assembled TUs, preserving geometry and timebase. An unset
/// timebase becomes 30/1: the output never carries a zero rate.
pub fn to_ivf(src: &IvfFile, tus: Vec<TemporalUnit>, fps: Option<u32>) -> (r: IvfFile)
    ensures
        r@ == ivf_with(src@, model::views(tus@), fps),
{
    let (den, num): (u32, u32) = match fps {
        Some(f) if f > 0 => (f, 1),
        _ => if src.timebase_den == 0 || src.timebase_num == 0 {
            (30, 1)
        } else {
            (src.timebase_den, src.timebase_num)
        },
    };
    let mut frames: Vec<(u64, Vec<u8>)> = Vec::new();
    let ghost owed = ivf::numbered(model::views(tus@));
    while frames.len() < tus.len()
        invariant
            frames@.len() <= tus@.len(),
            owed == ivf::numbered(model::views(tus@)),
            forall|i: int|
                0 <= i < frames@.len() ==> (#[trigger] frames@[i]).0 == owed[i].0 && frames@[i].1@
                    == owed[i].1,
        decreases tus@.len() - frames@.len(),
    {
        let i: usize = frames.len();
        let tu = tus[i].clone();
        assert(tu@ =~= tus@[i as int]@);
        frames.push((i as u64, tu));
    }
    assert(ivf::packets(frames@) =~= owed);
    IvfFile {
        width: src.width,
        height: src.height,
        timebase_den: den,
        timebase_num: num,
        frames,
    }
}

/// The timebase of the output: the rate asked for, else the source's.
pub open spec fn output_timebase(src: IvfFile<Seq<(u64, Seq<u8>)>>, fps: Option<u32>) -> (u32, u32) {
    match fps {
        Some(f) if f > 0 => (f, 1),
        _ => ivf::timebase_of(src.timebase_den, src.timebase_num),
    }
}

/// An IVF file with the geometry of `src` and these temporal units.
pub open spec fn ivf_with(
    src: IvfFile<Seq<(u64, Seq<u8>)>>,
    tus: Seq<Seq<u8>>,
    fps: Option<u32>,
) -> IvfFile<Seq<(u64, Seq<u8>)>> {
    IvfFile {
        width: src.width,
        height: src.height,
        timebase_den: output_timebase(src, fps).0,
        timebase_num: output_timebase(src, fps).1,
        frames: ivf::numbered(tus),
    }
}

// ---------- picking the pair ----------

/// How many leading temporal units `split_input` scans for the
/// (anchor keyframe, golden) pair. Encoders are asked for ~1 s of frames so
/// dropped or leading invisible frames are survivable; the bound keeps
/// acceptance from depending on the input's tail.
pub const INPUT_SCAN_TUS: usize = 8;

/// Why no pair was found: what the scan made of each temporal unit and how far
/// it came. `SplitError<Seq<TuNote>>` is the view of a `SplitError`.
#[derive(Debug)]
pub enum SplitError<N = Vec<TuNote>> {
    /// The input carries no temporal units.
    Empty,
    NoPair {
        /// How many temporal units were scanned at most.
        window: usize,
        /// How many there are.
        total: usize,
        notes: N,
        track: Track,
    },
}

impl View for SplitError {
    type V = SplitError<Seq<TuNote>>;

    open spec fn view(&self) -> SplitError<Seq<TuNote>> {
        match *self {
            SplitError::Empty => SplitError::Empty,
            SplitError::NoPair { window, total, notes, track } => SplitError::NoPair {
                window,
                total,
                notes: notes@,
                track,
            },
        }
    }
}

/// Extract (key TU, golden TU) from a coded stream produced by a real
/// encoder. Instead of requiring packets 0 and 1 positionally, this scans a
/// bounded window ([`INPUT_SCAN_TUS`]) and tests each TU against the actual
/// contract conditions:
///
/// - **anchor**: contains the sequence header OBU and a shown KEY_FRAME.
/// - **golden**: first TU after the anchor with a shown non-key frame that
///   is showable, refreshes at least one reference slot, and — when the
///   stream carries order hints — has `order_hint == anchor.order_hint + 1`
///   (i.e. it was coded directly after the keyframe, so all its references
///   resolve to keyframe slots and splicing it in cannot change its decode).
///
/// TD-only, seq-header-only, metadata/padding, invisible-frame and
/// show_existing TUs in the window are skipped, not fatal. A later
/// seq+KEY_FRAME TU re-anchors the search (multi-keyframe encodes); a changed
/// sequence header ends it until then.
/// When nothing qualifies, the error lists per-TU why each candidate missed.
pub fn split_input(ivf: &IvfFile) -> (res: Result<(TemporalUnit, TemporalUnit), SplitError>)
    ensures
        match res {
            Ok((key, golden)) => search::split_of(ivf@.frames) == Ok::<
                (Seq<u8>, Seq<u8>),
                SplitError<Seq<TuNote>>,
            >((key@, golden@)),
            Err(e) => search::split_of(ivf@.frames) == Err::<(Seq<u8>, Seq<u8>), SplitError<Seq<TuNote>>>(
                e@,
            ),
        },
{
    if ivf.frames.len() == 0 {
        return Err(SplitError::Empty);
    }
    let window: usize = if ivf.frames.len() < INPUT_SCAN_TUS {
        ivf.frames.len()
    } else {
        INPUT_SCAN_TUS
    };
    let ghost tus = search::scanned_tus(ivf@.frames);
    let mut headers: Headers<SequenceHeader, Vec<u8>> = Headers::none();
    let mut track = Track { anchor: None, golden: None, coded: 0, anchors: 0, key_only: true };
    let mut notes: Vec<TuNote> = Vec::new();
    let mut i: usize = 0;
    assert(tus.take(0) =~= Seq::empty());
    assert(notes@ =~= Seq::empty());
    while i < window && track.golden.is_none()
        invariant
            i <= window <= INPUT_SCAN_TUS,
            window <= ivf.frames@.len(),
            tus == search::scanned_tus(ivf@.frames),
            tus.len() == window,
            headers.wf(),
            track.coded <= i,
            track.anchors <= i,
            track.anchor matches Some(a) ==> a.bits <= 63,
            search::searched(tus.take(i as int)) == (search::Search {
                headers: headers@,
                track,
                notes: notes@,
            }),
        decreases window - i,
    {
        let ghost done = notes@;
        proof {
            assert(tus.take(i + 1).drop_last() =~= tus.take(i as int));
            assert(tus.take(i + 1).last() == ivf.frames@[i as int].1@);
        }
        let found = scan::classify_tu(&ivf.frames[i].1, &mut headers);
        let bits: usize = match &headers.header {
            Some(sh) => sh.order_hint_bits,
            None => 0,
        };
        proof {
            scan::lemma_judged_bounds(track, i, found, headers@.changed, bits);
        }
        let (t, note) = scan::judge(track, i, found, headers.changed, bits);
        track = t;
        notes.push(note);
        i = i + 1;
    }
    proof {
        if track.golden is Some {
            search::lemma_search_stops(tus, i as int);
        } else {
            assert(tus.take(i as int) =~= tus);
        }
        search::search_keeps_its_promises(tus);
    }
    if let (Some(a), Some(g)) = (track.anchor, track.golden) {
        let key = ivf.frames[a.tu].1.clone();
        let golden = ivf.frames[g].1.clone();
        assert(key@ =~= tus[a.tu as int]);
        assert(golden@ =~= tus[g as int]);
        return Ok((key, golden));
    }
    Err(SplitError::NoPair { window, total: ivf.frames.len(), notes, track })
}

} // verus!
