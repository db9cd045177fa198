//! Input container detection and demuxing.
//!
//! The assembler core works on temporal-unit byte strings; this module is the
//! thin layer that turns the containers encoders actually emit into that
//! shape. Supported natively:
//!
//! - **IVF** (`DKIF` magic) — the canonical input, carries geometry + timebase.
//! - **Low-overhead OBU stream** (`.obu`, AV1 spec section 5) — what aomenc
//!   `--obu`, SVT-AV1, and WebCodecs-style chunk APIs emit.
//! - **Annex-B** (`.av1b`, AV1 spec annex B) — length-delimited temporal units,
//!   emitted by broadcast/hardware-oriented pipelines.
//!
//! MP4/ISOBMFF and WebM/MKV are *rejected* with a remux hint.
//!
//! Non-IVF inputs carry no reliable container timebase: the frame rate is
//! derived from the sequence header's `timing_info` when present, as an exact
//! rational, else defaults to 30/1.

use vstd::prelude::*;
use vstd::arithmetic::power2::*;

use crate::bytes;
use crate::error::Error;
use crate::ivf::{self, IvfFile};
use crate::model;
use crate::obu::{self, parse_obus, Obu, ObuType};
use crate::seq_header::timing::Timing;
use crate::seq_header::{self, parse_sequence_header, OperatingPoint, Sections, SequenceHeader};
use geometry::Complaint;
pub use stream::split_obu_stream;

pub mod annexb;
pub mod geometry;
pub mod origin;
pub mod report;
pub mod stream;

verus! {

/// Detected input container.
#[derive(Debug, Clone, Copy, PartialEq, Eq, Structural)]
pub enum Format {
    Ivf,
    /// Low-overhead OBU stream (section 5): OBUs back to back, temporal
    /// units delimited by TemporalDelimiter OBUs.
    Obu,
    /// Annex-B: leb128-delimited temporal units of frame units of OBUs.
    AnnexB,
}

pub struct Input<I = IvfFile> {
    /// Normalized view: `frames` are TU byte strings (OBUs re-serialized
    /// with size fields), geometry/timebase filled from the container or
    /// the sequence header.
    pub ivf: I,
    pub format: Format,
}

/// The model of an input.
pub type InputView = Input<IvfFile<Seq<(u64, Seq<u8>)>>>;

impl View for Input {
    type V = InputView;

    open spec fn view(&self) -> InputView {
        Input { ivf: self.ivf@, format: self.format }
    }
}

/// Why an input cannot be read.
#[derive(Debug, Clone, Copy, PartialEq, Eq, Structural)]
pub enum ContainerError {
    /// A damaged IVF file.
    Ivf(Error),
    Mp4,
    WebM,
    /// Neither a usable OBU stream nor Annex-B.
    Unrecognized(Error),
    TooFewUnits,
    BadFraming { tu: usize, cause: Error },
    BadSequenceHeader { tu: usize, cause: Error },
    NoSequenceHeader,
    /// The frame rate does not fit the IVF timebase.
    FramePeriod,
    /// No coded frame can be decoded, with the last one that was tried.
    NoCodedFrame(Option<Complaint>),
    WidthLimit,
    HeightLimit,
}

// ---------- canonical temporal units ----------

/// The OBUs without the TemporalDelimiters that are not first.
pub open spec fn cleaned(obus: stream::Unit) -> stream::Unit {
    if obus.len() == 0 {
        obus
    } else {
        seq![obus[0]] + stream::without_tds(obus.skip(1))
    }
}

/// A temporal unit without stray TemporalDelimiters. One that holds none, or
/// whose OBU framing fails, stays as it is.
pub open spec fn canonicalized(tu: Seq<u8>) -> Seq<u8> {
    match obu::obus_of(tu) {
        Err(_) => tu,
        Ok(obus) => if stream::only_leading_td(obus) {
            tu
        } else {
            obu::obus_bytes(cleaned(obus))
        },
    }
}

proof fn lemma_nothing_to_clean(obus: stream::Unit)
    requires
        forall|i: int| 0 <= i < obus.len() ==> !stream::is_td(#[trigger] obus[i]),
    ensures
        stream::without_tds(obus) == obus,
    decreases obus.len(),
{
    if obus.len() > 0 {
        let front = obus.drop_last();
        assert forall|i: int| 0 <= i < front.len() implies !stream::is_td(#[trigger] front[i]) by {
            assert(!stream::is_td(obus[i]));
        }
        lemma_nothing_to_clean(front);
        assert(!stream::is_td(obus[obus.len() - 1]));
        assert(front.push(obus.last()) =~= obus);
    }
}

/// OBUs among which a TemporalDelimiter stands only first need no cleaning.
pub proof fn lemma_clean_stays(obus: stream::Unit)
    requires
        stream::only_leading_td(obus),
    ensures
        cleaned(obus) == obus,
{
    if obus.len() > 0 {
        let body = obus.skip(1);
        assert forall|i: int| 0 <= i < body.len() implies !stream::is_td(#[trigger] body[i]) by {
            assert(!stream::is_td(obus[i + 1]));
        }
        lemma_nothing_to_clean(body);
        assert(seq![obus[0]] + body =~= obus);
    }
}

/// A temporal unit whose framing parses holds, once canonicalized, its OBUs
/// without the stray TemporalDelimiters, and canonicalizing it again changes
/// nothing.
pub proof fn canonical_unit_has_only_a_leading_td(tu: Seq<u8>)
    requires
        obu::obus_of(tu) is Ok,
        tu.len() < pow2(56),
    ensures
        obu::obus_of(canonicalized(tu)) == Ok::<stream::Unit, Error>(
            cleaned(obu::obus_of(tu)->Ok_0),
        ),
        stream::only_leading_td(cleaned(obu::obus_of(tu)->Ok_0)),
        canonicalized(canonicalized(tu)) == canonicalized(tu),
{
    let obus = obu::obus_of(tu)->Ok_0;
    obu::lemma_payloads_within(tu);
    if obus.len() > 0 {
        let body = obus.skip(1);
        stream::lemma_no_td_left(body);
        stream::lemma_without_tds_within(body);
        assert forall|i: int| 0 < i < cleaned(obus).len() implies !stream::is_td(
            #[trigger] cleaned(obus)[i],
        ) by {
            assert(cleaned(obus)[i] == stream::without_tds(body)[i - 1]);
        }
        assert forall|i: int| 0 <= i < cleaned(obus).len() implies (
        #[trigger] cleaned(obus)[i]).payload.len() < pow2(56) by {
            if i > 0 {
                let o = stream::without_tds(body)[i - 1];
                let k = choose|k: int| 0 <= k < body.len() && body[k] == o;
                assert(obus[k + 1] == o);
            }
        }
    }
    if stream::only_leading_td(obus) {
        lemma_clean_stays(obus);
    } else {
        obu::obus_round_trip(cleaned(obus));
    }
}

/// A TemporalDelimiter marks a temporal-unit boundary and is meaningful
/// solely as a TU's first OBU — a TD at any deeper position is a stray.
fn is_stray_td(position: usize, o: &Obu) -> (r: bool)
    ensures
        r == (stream::is_td(o@) && position > 0),
{
    stream::delimits(o) && position > 0
}

/// Append the OBUs but for stray TemporalDelimiters.
fn put_cleaned(out: &mut Vec<u8>, obus: &Vec<Obu>)
    ensures
        final(out)@ == old(out)@ + obu::obus_bytes(cleaned(model::views(obus@))),
{
    let ghost all = model::views(obus@);
    let ghost had = out@;
    let mut j: usize = 0;
    assert(all.take(0) =~= Seq::empty());
    assert(had + obu::obus_bytes(cleaned(all.take(0))) =~= had);
    while j < obus.len()
        invariant
            j <= obus@.len(),
            all == model::views(obus@),
            had == old(out)@,
            out@ == had + obu::obus_bytes(cleaned(all.take(j as int))),
        decreases obus@.len() - j,
    {
        let ghost before = all.take(j as int);
        let ghost next = all.take(j + 1);
        proof {
            assert(all[j as int] == obus@[j as int]@);
            if j == 0 {
                assert(next.skip(1) =~= Seq::empty());
                assert(cleaned(next) =~= cleaned(before).push(next[0]));
            } else {
                assert(next.skip(1).drop_last() =~= before.skip(1));
                assert(next.skip(1).last() == all[j as int]);
                if stream::is_td(all[j as int]) {
                    assert(cleaned(next) =~= cleaned(before));
                } else {
                    assert(cleaned(next) =~= cleaned(before).push(all[j as int]));
                }
            }
        }
        if !is_stray_td(j, &obus[j]) {
            obus[j].write(out);
            proof {
                obu::lemma_obus_bytes_push(cleaned(before), all[j as int]);
                assert(had + obu::obus_bytes(cleaned(before)) + all[j as int].bytes() =~= had + (
                obu::obus_bytes(cleaned(before)) + all[j as int].bytes()));
            }
        }
        j = j + 1;
    }
    assert(all.take(j as int) =~= all);
}

fn has_stray_td(obus: &Vec<Obu>) -> (r: bool)
    ensures
        r == !stream::only_leading_td(model::views(obus@)),
{
    let ghost all = model::views(obus@);
    let mut j: usize = 0;
    while j < obus.len()
        invariant
            j <= obus@.len(),
            all == model::views(obus@),
            forall|i: int| 0 < i < j ==> !stream::is_td(#[trigger] all[i]),
        decreases obus@.len() - j,
    {
        assert(all[j as int] == obus@[j as int]@);
        if is_stray_td(j, &obus[j]) {
            return true;
        }
        j = j + 1;
    }
    false
}

/// Canonicalize one temporal unit's OBU byte string by dropping stray
/// TemporalDelimiters. Re-serializes only when a stray TD is present;
/// input that fails OBU framing is returned unchanged — the downstream
/// scan reports the real error.
fn canonicalize_tu(tu: &Vec<u8>) -> (r: Vec<u8>)
    ensures
        r@ == canonicalized(tu@),
{
    if let Ok(obus) = parse_obus(tu) {
        if has_stray_td(&obus) {
            let mut out: Vec<u8> = Vec::new();
            put_cleaned(&mut out, &obus);
            assert(out@ =~= canonicalized(tu@));
            return out;
        }
    }
    vstd::slice::slice_to_vec(tu)
}

// ---------- demuxed temporal units ----------

/// The payload of the first sequence header.
pub open spec fn first_header(obus: stream::Unit) -> Option<Seq<u8>>
    decreases obus.len(),
{
    if obus.len() == 0 {
        None
    } else if obus[0].obu_type == ObuType::SequenceHeader {
        Some(obus[0].payload)
    } else {
        first_header(obus.skip(1))
    }
}

/// The temporal units with every OBU's size explicit, and the first sequence
/// header among them.
#[verifier::ext_equal]
pub struct Demuxed {
    pub frames: Seq<Seq<u8>>,
    pub header: Option<Sections<Seq<OperatingPoint>>>,
}

pub open spec fn demuxed(tus: Seq<Seq<u8>>) -> Result<Demuxed, ContainerError>
    decreases tus.len(),
{
    if tus.len() == 0 {
        Ok(Demuxed { frames: Seq::empty(), header: None })
    } else {
        let tu = (tus.len() - 1) as usize;
        match demuxed(tus.drop_last()) {
            Err(e) => Err(e),
            Ok(d) => match obu::obus_of(tus.last()) {
                Err(cause) => Err(ContainerError::BadFraming { tu, cause }),
                Ok(obus) => {
                    let frames = d.frames.push(obu::obus_bytes(cleaned(obus)));
                    match (d.header, first_header(obus)) {
                        (None, Some(payload)) => match seq_header::header_of(payload) {
                            Err(cause) => Err(ContainerError::BadSequenceHeader { tu, cause }),
                            Ok(sh) => Ok(Demuxed { frames, header: Some(sh) }),
                        },
                        _ => Ok(Demuxed { frames, ..d }),
                    }
                },
            },
        }
    }
}

/// The frame rate that the timing info gives, in lowest terms, where it fits
/// an IVF timebase; 30/1 where it gives none.
pub open spec fn rate_of(t: Timing) -> Option<(u32, u32)> {
    if t.present && t.equal_picture_interval && t.num_units_in_display_tick > 0 && t.time_scale > 0 {
        let period = (t.num_units_in_display_tick * (t.num_ticks_per_picture_minus_1 + 1)) as nat;
        let (num, den) = ivf::reduced(t.time_scale as nat, period);
        if num <= u32::MAX && den <= u32::MAX {
            Some((num as u32, den as u32))
        } else {
            None
        }
    } else {
        Some((30, 1))
    }
}

/// The input that these temporal units make.
pub open spec fn finished(tus: Seq<Seq<u8>>, format: Format) -> Result<InputView, ContainerError> {
    if tus.len() < 2 {
        Err(ContainerError::TooFewUnits)
    } else {
        match demuxed(tus) {
            Err(e) => Err(e),
            Ok(d) => match d.header {
                None => Err(ContainerError::NoSequenceHeader),
                Some(sh) => match rate_of(sh.timing) {
                    None => Err(ContainerError::FramePeriod),
                    Some((num, den)) => {
                        let seen = geometry::seen_of(d.frames);
                        match seen.found {
                            None => Err(ContainerError::NoCodedFrame(seen.complaint)),
                            Some(s) => if s.upscaled_width > u16::MAX {
                                Err(ContainerError::WidthLimit)
                            } else if s.frame_height > u16::MAX {
                                Err(ContainerError::HeightLimit)
                            } else {
                                Ok(
                                    Input {
                                        ivf: IvfFile {
                                            width: s.upscaled_width as u16,
                                            height: s.frame_height as u16,
                                            timebase_den: num,
                                            timebase_num: den,
                                            frames: ivf::numbered(d.frames),
                                        },
                                        format,
                                    },
                                )
                            },
                        }
                    },
                },
            },
        }
    }
}

/// The payload of the first sequence header, found or not.
fn find_header(obus: &Vec<Obu>) -> (r: Option<&Vec<u8>>)
    ensures
        match r {
            Some(p) => first_header(model::views(obus@)) == Some(p@),
            None => first_header(model::views(obus@)) is None,
        },
{
    let ghost all = model::views(obus@);
    let mut j: usize = 0;
    assert(all.skip(0) =~= all);
    while j < obus.len()
        invariant
            j <= obus@.len(),
            all == model::views(obus@),
            first_header(all) == first_header(all.skip(j as int)),
        decreases obus@.len() - j,
    {
        proof {
            assert(all.skip(j as int)[0] == obus@[j as int]@);
            assert(all.skip(j as int).skip(1) =~= all.skip(j + 1));
        }
        match obus[j].obu_type {
            ObuType::SequenceHeader => return Some(&obus[j].payload),
            _ => {},
        }
        j = j + 1;
    }
    assert(all.skip(j as int).len() == 0);
    None
}

/// Whether these are the temporal units and the header of `d`.
pub open spec fn are_demuxed(
    frames: Seq<(u64, Vec<u8>)>,
    header: Option<SequenceHeader>,
    d: Demuxed,
) -> bool {
    &&& ivf::packets(frames) == ivf::numbered(d.frames)
    &&& match header {
        Some(sh) => d.header == Some(sh@),
        None => d.header is None,
    }
}

proof fn lemma_demux_stops(tus: Seq<Seq<u8>>, i: int)
    requires
        0 <= i <= tus.len(),
        demuxed(tus.take(i)) is Err,
    ensures
        demuxed(tus) == demuxed(tus.take(i)),
    decreases tus.len(),
{
    if i == tus.len() {
        assert(tus.take(i) =~= tus);
    } else {
        assert(tus.drop_last().take(i) =~= tus.take(i));
        lemma_demux_stops(tus.drop_last(), i);
    }
}

proof fn lemma_demuxed_header(tus: Seq<Seq<u8>>)
    requires
        demuxed(tus) is Ok,
    ensures
        demuxed(tus)->Ok_0.header matches Some(sh) ==> sh.canonical(),
        demuxed(tus)->Ok_0.frames.len() == tus.len(),
    decreases tus.len(),
{
    if tus.len() > 0 {
        lemma_demuxed_header(tus.drop_last());
        let obus = obu::obus_of(tus.last())->Ok_0;
        if first_header(obus) is Some && seq_header::header_of(first_header(obus)->Some_0) is Ok {
            seq_header::parsed_header_re_emits(first_header(obus)->Some_0);
        }
    }
}

/// Re-serialize every OBU with an explicit size field and find the sequence
/// header.
fn demux(tus: &Vec<Vec<u8>>) -> (res: Result<
    (Vec<(u64, Vec<u8>)>, Option<SequenceHeader>),
    ContainerError,
>)
    ensures
        match res {
            Ok((frames, header)) => demuxed(model::views(tus@)) is Ok && are_demuxed(
                frames@,
                header,
                demuxed(model::views(tus@))->Ok_0,
            ),
            Err(e) => demuxed(model::views(tus@)) == Err::<Demuxed, ContainerError>(e),
        },
{
    let ghost all = model::views(tus@);
    let mut header: Option<SequenceHeader> = None;
    let mut frames: Vec<(u64, Vec<u8>)> = Vec::new();
    let mut i: usize = 0;
    assert(all.take(0) =~= Seq::empty());
    assert(ivf::packets(frames@) =~= ivf::numbered(Seq::empty()));
    while i < tus.len()
        invariant
            i <= tus@.len(),
            all == model::views(tus@),
            demuxed(all.take(i as int)) is Ok,
            are_demuxed(frames@, header, demuxed(all.take(i as int))->Ok_0),
        decreases tus@.len() - i,
    {
        let ghost d = demuxed(all.take(i as int))->Ok_0;
        let ghost had = frames@;
        proof {
            assert(all.take(i + 1).drop_last() =~= all.take(i as int));
            assert(all[i as int] == tus@[i as int]@);
            lemma_demuxed_header(all.take(i as int));
        }
        let obus = match parse_obus(&tus[i]) {
            Ok(obus) => obus,
            Err(cause) => {
                proof {
                    lemma_demux_stops(all, i + 1);
                }
                return Err(ContainerError::BadFraming { tu: i, cause });
            },
        };
        let mut out: Vec<u8> = Vec::new();
        put_cleaned(&mut out, &obus);
        let ghost bytes = obu::obus_bytes(cleaned(model::views(obus@)));
        assert(out@ =~= bytes);
        if header.is_none() {
            if let Some(payload) = find_header(&obus) {
                match parse_sequence_header(payload) {
                    Ok(sh) => {
                        header = Some(sh);
                    },
                    Err(cause) => {
                        proof {
                            lemma_demux_stops(all, i + 1);
                        }
                        return Err(ContainerError::BadSequenceHeader { tu: i, cause });
                    },
                }
            }
        }
        frames.push((i as u64, out));
        proof {
            assert(ivf::packets(frames@) =~= ivf::packets(had).push((i as u64, bytes)));
            assert(ivf::numbered(d.frames.push(bytes)) =~= ivf::numbered(d.frames).push((i as u64, bytes)));
        }
        i = i + 1;
    }
    assert(all.take(i as int) =~= all);
    Ok((frames, header))
}

/// The frame rate that the timing info gives.
fn rate_from(sh: &SequenceHeader) -> (r: Option<(u32, u32)>)
    requires
        sh@.canonical(),
    ensures
        r == rate_of(sh@.timing),
{
    if !(sh.timing_info_present && sh.equal_picture_interval && sh.num_units_in_display_tick > 0
        && sh.time_scale > 0) {
        return Some((30, 1));
    }
    let ticks_per_picture: u64 = sh.num_ticks_per_picture_minus_1 + 1;
    let units: u64 = sh.num_units_in_display_tick as u64;
    assert(0 < units * ticks_per_picture <= 0xffff_ffff * 0xffff_ffff) by (nonlinear_arith)
        requires
            0 < units <= 0xffff_ffff,
            0 < ticks_per_picture <= 0xffff_ffff,
    ;
    let frame_period: u64 = units * ticks_per_picture;
    let g = ivf::gcd(sh.time_scale as u64, frame_period);
    let num: u64 = sh.time_scale as u64 / g;
    let den: u64 = frame_period / g;
    if num <= u32::MAX as u64 && den <= u32::MAX as u64 {
        Some((num as u32, den as u32))
    } else {
        None
    }
}

/// Assemble demuxed TUs into the normalized `Input`: re-serialize every OBU
/// with an explicit size field (canonicalizes Annex-B and streams whose last
/// OBU omits it) and pull geometry and frame rate from the sequence header.
fn finish(tus: Vec<Vec<u8>>, format: Format) -> (res: Result<Input, ContainerError>)
    ensures
        model::view_ok(res) == finished(model::views(tus@), format),
{
    let ghost all = model::views(tus@);
    if tus.len() < 2 {
        return Err(ContainerError::TooFewUnits);
    }
    let (frames, header) = demux(&tus)?;
    let sh = match header {
        Some(sh) => sh,
        None => return Err(ContainerError::NoSequenceHeader),
    };
    proof {
        lemma_demuxed_header(all);
    }
    let (num, den) = match rate_from(&sh) {
        Some(rate) => rate,
        None => return Err(ContainerError::FramePeriod),
    };
    let ghost d = demuxed(all)->Ok_0;
    let seen = geometry::look(&frames);
    proof {
        let tu_bytes = Seq::new(frames@.len(), |i: int| frames@[i].1@);
        assert(ivf::packets(frames@).len() == ivf::numbered(d.frames).len());
        assert forall|i: int| 0 <= i < frames@.len() implies tu_bytes[i] == d.frames[i] by {
            assert(ivf::packets(frames@)[i] == ivf::numbered(d.frames)[i]);
            assert(ivf::packets(frames@)[i].1 == tu_bytes[i]);
        }
        assert(tu_bytes =~= d.frames);
    }
    let s = match seen.found {
        Some(s) => s,
        None => return Err(ContainerError::NoCodedFrame(seen.complaint)),
    };
    if s.upscaled_width > u16::MAX as u64 {
        return Err(ContainerError::WidthLimit);
    }
    if s.frame_height > u16::MAX as u64 {
        return Err(ContainerError::HeightLimit);
    }
    Ok(
        Input {
            ivf: IvfFile {
                width: s.upscaled_width as u16,
                height: s.frame_height as u16,
                timebase_den: num,
                timebase_num: den,
                frames,
            },
            format,
        },
    )
}

// ---------- detection ----------

/// `ftyp`, which MP4 files carry behind the first box size.
pub open spec fn ftyp() -> Seq<u8> {
    seq![0x66, 0x74, 0x79, 0x70]
}

/// What WebM and MKV files start with.
pub open spec fn ebml() -> Seq<u8> {
    seq![0x1a, 0x45, 0xdf, 0xa3]
}

/// Whether `tag` stands in the data at `at`.
pub open spec fn tagged(data: Seq<u8>, at: int, tag: Seq<u8>) -> bool {
    data.len() >= at + tag.len() && data.subrange(at, at + tag.len()) == tag
}

/// The packets with their temporal units canonicalized.
pub open spec fn canonical_packets(frames: Seq<(u64, Seq<u8>)>) -> Seq<(u64, Seq<u8>)> {
    Seq::new(frames.len(), |i: int| (frames[i].0, canonicalized(frames[i].1)))
}

/// The input that an OBU stream makes, where it makes one.
pub open spec fn stream_input(data: Seq<u8>) -> Option<InputView> {
    match stream::stream_of(data) {
        Ok(tus) => match finished(tus, Format::Obu) {
            Ok(input) => Some(input),
            Err(_) => None,
        },
        Err(_) => None,
    }
}

/// The input that `data` holds. An OBU stream is tried first, and Annex-B
/// where that yields no usable input.
pub open spec fn input_of(data: Seq<u8>) -> Result<InputView, ContainerError> {
    if tagged(data, 0, ivf::dkif()) {
        match ivf::ivf_of(data) {
            Ok(f) => Ok(
                Input {
                    ivf: IvfFile { frames: canonical_packets(f.frames), ..f },
                    format: Format::Ivf,
                },
            ),
            Err(e) => Err(ContainerError::Ivf(e)),
        }
    } else if tagged(data, 4, ftyp()) {
        Err(ContainerError::Mp4)
    } else if tagged(data, 0, ebml()) {
        Err(ContainerError::WebM)
    } else {
        match stream_input(data) {
            Some(input) => Ok(input),
            None => match annexb::annexb_of(data) {
                Err(e) => Err(ContainerError::Unrecognized(e)),
                Ok(tus) => finished(tus, Format::AnnexB),
            },
        }
    }
}

fn starts_with_tag(data: &[u8], at: usize, tag: [u8; 4]) -> (r: bool)
    requires
        at <= 4,
    ensures
        r == tagged(data@, at as int, tag@),
{
    data.len() >= at + 4 && bytes::has_tag(data, at, tag)
}

/// Canonicalize the packets of an IVF file, which bypass `finish`: a
/// mid-packet TemporalDelimiter would otherwise reach the assembler as a
/// non-compliant temporal unit.
fn canonicalize_packets(frames: &Vec<(u64, Vec<u8>)>) -> (r: Vec<(u64, Vec<u8>)>)
    ensures
        ivf::packets(r@) == canonical_packets(ivf::packets(frames@)),
{
    let mut out: Vec<(u64, Vec<u8>)> = Vec::new();
    let mut i: usize = 0;
    while i < frames.len()
        invariant
            i <= frames@.len(),
            out@.len() == i,
            forall|k: int|
                0 <= k < i ==> (#[trigger] out@[k]).0 == frames@[k].0 && out@[k].1@
                    == canonicalized(frames@[k].1@),
        decreases frames@.len() - i,
    {
        let tu = canonicalize_tu(&frames[i].1);
        out.push((frames[i].0, tu));
        i = i + 1;
    }
    assert(ivf::packets(out@) =~= canonical_packets(ivf::packets(frames@)));
    out
}

/// Detect the container and demux to an IVF-shaped input.
/// Errors carry a remux hint for unsupported or unrecognizable inputs.
pub fn read(data: &[u8]) -> (res: Result<Input, ContainerError>)
    ensures
        model::view_ok(res) == input_of(data@),
{
    let dkif_tag: [u8; 4] = [0x44, 0x4b, 0x49, 0x46];
    let ftyp_tag: [u8; 4] = [0x66, 0x74, 0x79, 0x70];
    let ebml_tag: [u8; 4] = [0x1a, 0x45, 0xdf, 0xa3];
    proof {
        assert(dkif_tag@ =~= ivf::dkif());
        assert(ftyp_tag@ =~= ftyp());
        assert(ebml_tag@ =~= ebml());
    }
    if starts_with_tag(data, 0, dkif_tag) {
        return match ivf::read(data) {
            Ok(f) => {
                let frames = canonicalize_packets(&f.frames);
                Ok(
                    Input {
                        ivf: IvfFile {
                            width: f.width,
                            height: f.height,
                            timebase_den: f.timebase_den,
                            timebase_num: f.timebase_num,
                            frames,
                        },
                        format: Format::Ivf,
                    },
                )
            },
            Err(e) => Err(ContainerError::Ivf(e)),
        };
    }
    if starts_with_tag(data, 4, ftyp_tag) {
        return Err(ContainerError::Mp4);
    }
    if starts_with_tag(data, 0, ebml_tag) {
        return Err(ContainerError::WebM);
    }
    // OBU stream first: its structure (frame OBUs with valid headers) is far
    // easier to satisfy by accident than Annex-B's nested leb128 units, so we
    // only fall through when it can't yield a usable input.
    if let Ok(tus) = stream::split_obu_stream(data) {
        if let Ok(input) = finish(tus, Format::Obu) {
            return Ok(input);
        }
    }
    match annexb::split_annexb(data) {
        Ok(tus) => finish(tus, Format::AnnexB),
        Err(e) => Err(ContainerError::Unrecognized(e)),
    }
}

/// Serialize a TU list as a low-overhead OBU stream.
pub fn write_obu_stream(tus: &[Vec<u8>]) -> (r: Vec<u8>)
    ensures
        r@ == model::concat(model::views(tus@)),
{
    let ghost all = model::views(tus@);
    let mut out: Vec<u8> = Vec::new();
    let mut i: usize = 0;
    assert(all.take(0) =~= Seq::empty());
    assert(out@ =~= Seq::empty());
    while i < tus.len()
        invariant
            i <= tus@.len(),
            all == model::views(tus@),
            out@ == model::concat(all.take(i as int)),
        decreases tus@.len() - i,
    {
        out.extend_from_slice(&tus[i]);
        proof {
            assert(all[i as int] == tus@[i as int]@);
            assert(all.take(i + 1) =~= all.take(i as int).push(all[i as int]));
            model::lemma_concat_push(all.take(i as int), all[i as int]);
            assert(out@ =~= model::concat(all.take(i + 1)));
        }
        i = i + 1;
    }
    assert(all.take(i as int) =~= all);
    out
}

/// Serialize a TU list (as raw OBU byte strings) in Annex-B format.
pub fn write_annexb(tus: &[Vec<u8>]) -> (r: Vec<u8>)
    requires
        forall|i: int| 0 <= i < tus@.len() ==> (#[trigger] obu::obus_of(tus@[i]@)) is Ok,
    ensures
        r@ == annexb::annexb_bytes(annexb::obus_of_each(model::views(tus@))),
{
    annexb::write_stream(tus)
}

// ---------- what reading keeps ----------

/// Every input that is read has a frame rate: neither half is zero.
pub proof fn read_input_has_a_rate(data: Seq<u8>)
    requires
        input_of(data) is Ok,
    ensures
        input_of(data)->Ok_0.ivf.timebase_den > 0,
        input_of(data)->Ok_0.ivf.timebase_num > 0,
{
    if tagged(data, 0, ivf::dkif()) {
        ivf::read_timebase_is_set(data);
    } else if stream_input(data) is Some {
        lemma_finished_rate(stream::stream_of(data)->Ok_0, Format::Obu);
    } else {
        lemma_finished_rate(annexb::annexb_of(data)->Ok_0, Format::AnnexB);
    }
}

proof fn lemma_finished_rate(tus: Seq<Seq<u8>>, format: Format)
    requires
        finished(tus, format) is Ok,
    ensures
        finished(tus, format)->Ok_0.ivf.timebase_den > 0,
        finished(tus, format)->Ok_0.ivf.timebase_num > 0,
{
    lemma_demuxed_header(tus);
    let t = demuxed(tus)->Ok_0.header->Some_0.timing;
    if t.present && t.equal_picture_interval && t.num_units_in_display_tick > 0 && t.time_scale > 0 {
        let units = t.num_units_in_display_tick as int;
        let ticks = t.num_ticks_per_picture_minus_1 + 1;
        assert(units * ticks > 0) by (nonlinear_arith)
            requires
                units > 0,
                ticks > 0,
        ;
        ivf::reduced_is_lowest_terms(t.time_scale as nat, (units * ticks) as nat);
    }
}

/// Temporal units whose OBUs all have their sizes written and stray no
/// delimiter pass unchanged.
pub proof fn demux_keeps_clean_units(units: Seq<stream::Unit>)
    requires
        forall|i: int| 0 <= i < units.len() ==> stream::only_leading_td(#[trigger] units[i]),
        forall|i: int, k: int|
            0 <= i < units.len() && 0 <= k < units[i].len() ==> (
            #[trigger] units[i][k]).payload.len() < pow2(56),
        demuxed(obu::written(units)) is Ok,
    ensures
        demuxed(obu::written(units))->Ok_0.frames == obu::written(units),
    decreases units.len(),
{
    let tus = obu::written(units);
    if units.len() > 0 {
        let front = units.drop_last();
        let u = units.last();
        assert(tus.drop_last() =~= obu::written(front));
        assert forall|i: int, k: int|
            0 <= i < front.len() && 0 <= k < front[i].len() implies (
        #[trigger] front[i][k]).payload.len() < pow2(56) by {
            assert(units[i][k].payload.len() < pow2(56));
        }
        assert forall|k: int| 0 <= k < u.len() implies (#[trigger] u[k]).payload.len() < pow2(
            56,
        ) by {
            assert(units[units.len() - 1][k].payload.len() < pow2(56));
        }
        demux_keeps_clean_units(front);
        assert(stream::only_leading_td(units[units.len() - 1]));
        lemma_clean_stays(u);
        obu::obus_round_trip(u);
        assert(obu::written(front).push(obu::obus_bytes(u)) =~= tus);
    } else {
        assert(tus =~= Seq::empty());
    }
}

proof fn lemma_first_byte(units: Seq<stream::Unit>)
    requires
        units.len() > 0,
        units[0].len() > 0,
    ensures
        model::concat(obu::written(units)).len() > 0,
        model::concat(obu::written(units))[0] == units[0][0].header_byte(),
{
    let tus = obu::written(units);
    let u = units[0];
    let parts = Seq::new(u.len(), |i: int| u[i].bytes());
    model::lemma_concat_front(tus);
    model::lemma_concat_front(parts);
    assert(tus[0] == obu::obus_bytes(u));
    assert(tus[0][0] == u[0].bytes()[0]);
}

/// An OBU with its size written starts no IVF file, and a TemporalDelimiter no
/// WebM file.
proof fn lemma_stream_start(units: Seq<stream::Unit>)
    requires
        units.len() > 0,
        units[0].len() > 0,
    ensures
        !tagged(model::concat(obu::written(units)), 0, ivf::dkif()),
        stream::is_td(units[0][0]) ==> !tagged(model::concat(obu::written(units)), 0, ebml()),
{
    let data = model::concat(obu::written(units));
    lemma_first_byte(units);
    let h = units[0][0].header_byte();
    assert(h % 4 == 2);
    if tagged(data, 0, ivf::dkif()) {
        assert(data.subrange(0, 4)[0] == data[0]);
    }
    if tagged(data, 0, ebml()) {
        assert(data.subrange(0, 4)[0] == data[0]);
    }
}

/// Whether a stream of these temporal units passes for no other container; one
/// that starts with a TemporalDelimiter passes for no WebM file.
pub open spec fn only_a_stream(units: Seq<stream::Unit>) -> bool {
    let data = model::concat(obu::written(units));
    &&& !tagged(data, 4, ftyp())
    &&& stream::is_td(units[0][0]) || !tagged(data, 0, ebml())
}

/// A stream of temporal units that it tells apart, with TemporalDelimiters or
/// without, comes back unit for unit when it is written and read again,
/// wherever the units make an input at all.
pub proof fn obu_stream_reads_back(units: Seq<stream::Unit>)
    requires
        stream::told_apart(units),
        forall|i: int, k: int|
            0 <= i < units.len() && 0 <= k < units[i].len() ==> (
            #[trigger] units[i][k]).payload.len() < pow2(56),
        only_a_stream(units),
        finished(obu::written(units), Format::Obu) is Ok,
    ensures
        input_of(model::concat(obu::written(units))) == finished(obu::written(units), Format::Obu),
        finished(obu::written(units), Format::Obu)->Ok_0.ivf.frames == ivf::numbered(
            obu::written(units),
        ),
{
    stream::stream_round_trip(units);
    demux_keeps_clean_units(units);
    assert(stream::regular(units[0]));
    lemma_stream_start(units);
}

/// Temporal units that are written as Annex-B and read again come back unit
/// for unit, wherever they make an input at all and the bytes pass for no
/// other container.
pub proof fn annexb_reads_back(units: Seq<stream::Unit>)
    requires
        forall|i: int| 0 <= i < units.len() ==> stream::only_leading_td(#[trigger] units[i]),
        forall|i: int| 0 <= i < units.len() ==> annexb::sizes_fit(#[trigger] units[i]),
        forall|i: int, k: int|
            0 <= i < units.len() && 0 <= k < units[i].len() ==> (
            #[trigger] units[i][k]).payload.len() < pow2(56),
        !tagged(annexb::annexb_bytes(units), 0, ivf::dkif()),
        !tagged(annexb::annexb_bytes(units), 4, ftyp()),
        !tagged(annexb::annexb_bytes(units), 0, ebml()),
        stream_input(annexb::annexb_bytes(units)) is None,
        finished(obu::written(units), Format::AnnexB) is Ok,
    ensures
        input_of(annexb::annexb_bytes(units)) == finished(obu::written(units), Format::AnnexB),
        finished(obu::written(units), Format::AnnexB)->Ok_0.ivf.frames == ivf::numbered(
            obu::written(units),
        ),
{
    annexb::annexb_round_trip(units);
    demux_keeps_clean_units(units);
}

} // verus!
