//! The library's error type.

use vstd::prelude::*;

use crate::text;

verus! {

/// Why a bitstream was rejected.
#[derive(Debug, Clone, Copy, PartialEq, Eq, Structural)]
pub enum Error {
    /// A fixed-length field wider than 64 bits was asked for.
    FieldTooWide,
    /// The payload ended inside a field.
    UnexpectedEnd,
    /// A variable-length code with 32 or more leading zeros.
    UvlcTooLarge,
    /// A leb128 integer longer than eight bytes.
    Leb128TooLong,
    /// The data ended inside a leb128 integer.
    Leb128Unterminated,
    /// An obu_type value that names no OBU type.
    UnknownObuType(u8),
    ObuForbiddenBit,
    /// The packet ends before the announced extension byte.
    TruncatedObuExtension,
    /// An OBU size field longer than eight bytes.
    ObuSizeTooLong,
    /// The packet ends inside an OBU size field.
    ObuSizeUnterminated,
    /// An OBU runs past the end of its packet.
    ObuOverrun,
    /// A seq_profile value above 2.
    SeqProfile,
    /// A decoder model was asked for on a stream with variable picture intervals.
    DecoderModelVariableInterval,
    /// show_existing_frame against a reduced still picture header.
    ReducedStillPicture,
    /// Streams with frame_id_numbers_present.
    FrameIdNumbers,
    /// A decoder model without equal picture intervals.
    UnequalIntervals,
    /// Streams with film_grain_params_present.
    FilmGrain,
    /// A frame header under a reduced still picture header.
    FrameReducedStillPicture,
    /// A frame header with frame ids.
    FrameWithIds,
    /// A frame header that would hold temporal_point_info.
    FrameUnequalIntervals,
    /// A full header walk under a reduced still picture header.
    ScanReducedStillPicture,
    /// A full header walk of a stream with film grain.
    ScanFilmGrain,
    /// A full header walk of a stream with frame ids.
    ScanFrameIds,
    /// A full header walk of a show_existing_frame header.
    ScanShowExisting,
    /// Reference slots of a header that shows a stored frame.
    NotCodedFrame,
    /// Reference slots of an intra frame.
    IntraRefSlots,
    /// frame_refs_short_signaling, which would need set_frame_refs.
    ShortSignaling,
    /// A near-uniform code over no values.
    NsZero,
    /// Explicit tile sizes for a frame of no width.
    EmptyFrame,
    /// A splice position behind the end of the header.
    SplicePastHeader,
    /// A header end behind the end of the payload.
    HeaderPastPayload,
    IvfHeaderTruncated,
    NotIvf,
    IvfVersion(u16),
    /// A declared header length below the fixed 32 bytes.
    IvfHeaderLenTooSmall(usize),
    /// A declared header length beyond the file.
    IvfHeaderLenTooLarge { header_len: usize, file_len: usize },
    IvfFourcc,
    IvfFrameHeaderTruncated,
    IvfFramePayloadTruncated,
    /// A coded frame with no sequence header in front of it.
    FrameBeforeSequenceHeader,
    /// An OBU runs past the end of its stream.
    ObuOverrunsStream,
    /// An unreadable temporal_unit_size, which runs on for more than eight
    /// bytes or is cut off.
    AnnexBTemporalUnitSize { too_long: bool },
    AnnexBTemporalUnitTruncated,
    AnnexBFrameUnitSize { too_long: bool },
    AnnexBFrameUnitOverrun,
    AnnexBObuSize { too_long: bool },
    AnnexBObuOverrun,
    AnnexBEmptyObu,
    AnnexBObuHeaderTruncated,
    AnnexBEmpty,
}

/// Why a leb128 integer cannot be read.
pub open spec fn leb128_error(too_long: bool) -> Error {
    if too_long {
        Error::Leb128TooLong
    } else {
        Error::Leb128Unterminated
    }
}

/// A message in front of its cause.
pub open spec fn caused(what: Seq<char>, cause: Seq<char>) -> Seq<char> {
    what + ": "@ + cause
}

/// A message in front of its cause.
pub(crate) fn caused_text(what: String, cause: &String) -> (r: String)
    ensures
        r@ == caused(what@, cause@),
{
    let mut s = what;
    s.append(": ");
    s.append(cause.as_str());
    s
}

impl Error {
    /// What went wrong, without its cause.
    pub open spec fn text(self) -> Seq<char> {
        match self {
            Error::FieldTooWide => "f(n) with n > 64"@,
            Error::UnexpectedEnd => "unexpected end of OBU payload"@,
            Error::UvlcTooLarge => "uvlc value too large"@,
            Error::Leb128TooLong => "leb128 too long"@,
            Error::Leb128Unterminated => "unterminated leb128"@,
            Error::UnknownObuType(v) => "unknown OBU type "@ + text::number(v as nat),
            Error::ObuForbiddenBit => "obu_forbidden_bit set"@,
            Error::TruncatedObuExtension => "truncated OBU extension"@,
            Error::ObuSizeTooLong => "bad leb128 OBU size"@,
            Error::ObuSizeUnterminated => "bad leb128 OBU size"@,
            Error::ObuOverrun => "OBU payload overruns packet"@,
            Error::SeqProfile => "seq_profile > 2"@,
            Error::DecoderModelVariableInterval => "decoder model on variable-interval streams would need temporal_point_info"@,
            Error::ReducedStillPicture => "reduced_still_picture_header streams cannot use show_existing_frame"@,
            Error::FrameIdNumbers => "frame_id_numbers_present streams are not yet supported"@,
            Error::UnequalIntervals => "decoder model with unequal picture intervals is not yet supported"@,
            Error::FilmGrain => "film_grain_params_present streams are not supported: grain params would need to be loaded per shown frame"@,
            Error::FrameReducedStillPicture => "reduced still picture header is unsupported"@,
            Error::FrameWithIds => "frame_id_numbers_present streams are not supported"@,
            Error::FrameUnequalIntervals => "decoder model with unequal picture intervals is unsupported"@,
            Error::ScanReducedStillPicture => "reduced still picture header unsupported"@,
            Error::ScanFilmGrain => "film grain streams unsupported"@,
            Error::ScanFrameIds => "frame_id_numbers_present unsupported"@,
            Error::ScanShowExisting => "show_existing_frame inputs are synthesized by us"@,
            Error::NotCodedFrame => "not a coded frame"@,
            Error::IntraRefSlots => "intra frame has no ref_frame_idx"@,
            Error::ShortSignaling => "frame_refs_short_signaling needs set_frame_refs — unsupported input"@,
            Error::NsZero => "ns(0)"@,
            Error::EmptyFrame => "explicit tile sizes in a frame of no width"@,
            Error::SplicePastHeader => "insert position past header end"@,
            Error::HeaderPastPayload => "header end past payload"@,
            Error::IvfHeaderTruncated => "IVF header truncated"@,
            Error::NotIvf => "not an IVF file"@,
            Error::IvfVersion(v) => "unsupported IVF version "@ + text::number(v as nat),
            Error::IvfHeaderLenTooSmall(n) => "IVF header length "@ + text::number(n as nat) + " is smaller than the fixed 32-byte header"@,
            Error::IvfHeaderLenTooLarge { header_len, file_len } => "IVF header length "@ + text::number(header_len as nat) + " exceeds file length "@ + text::number(file_len as nat),
            Error::IvfFourcc => "IVF fourcc is not AV01"@,
            Error::IvfFrameHeaderTruncated => "truncated IVF frame header"@,
            Error::IvfFramePayloadTruncated => "truncated IVF frame payload"@,
            Error::FrameBeforeSequenceHeader => "coded frame before any sequence header"@,
            Error::ObuOverrunsStream => "OBU payload overruns stream"@,
            Error::AnnexBTemporalUnitSize { .. } => "bad Annex-B temporal_unit_size"@,
            Error::AnnexBTemporalUnitTruncated => "truncated Annex-B temporal unit"@,
            Error::AnnexBFrameUnitSize { .. } => "bad Annex-B frame_unit_size"@,
            Error::AnnexBFrameUnitOverrun => "Annex-B frame unit overruns temporal unit"@,
            Error::AnnexBObuSize { .. } => "bad Annex-B OBU size"@,
            Error::AnnexBObuOverrun => "Annex-B OBU overruns frame unit"@,
            Error::AnnexBEmptyObu => "empty Annex-B OBU"@,
            Error::AnnexBObuHeaderTruncated => "truncated Annex-B OBU header"@,
            Error::AnnexBEmpty => "empty Annex-B stream"@,
        }
    }

    /// What went wrong, without its cause.
    pub fn message(&self) -> (r: String)
        ensures
            r@ == self.text(),
    {
        match *self {
            Error::FieldTooWide => String::from_str("f(n) with n > 64"),
            Error::UnexpectedEnd => String::from_str("unexpected end of OBU payload"),
            Error::UvlcTooLarge => String::from_str("uvlc value too large"),
            Error::Leb128TooLong => String::from_str("leb128 too long"),
            Error::Leb128Unterminated => String::from_str("unterminated leb128"),
            Error::UnknownObuType(v) => {
                let mut s = String::from_str("unknown OBU type ");
                text::put_number(&mut s, v as u64);
                s
            },
            Error::ObuForbiddenBit => String::from_str("obu_forbidden_bit set"),
            Error::TruncatedObuExtension => String::from_str("truncated OBU extension"),
            Error::ObuSizeTooLong => String::from_str("bad leb128 OBU size"),
            Error::ObuSizeUnterminated => String::from_str("bad leb128 OBU size"),
            Error::ObuOverrun => String::from_str("OBU payload overruns packet"),
            Error::SeqProfile => String::from_str("seq_profile > 2"),
            Error::DecoderModelVariableInterval => String::from_str("decoder model on variable-interval streams would need temporal_point_info"),
            Error::ReducedStillPicture => String::from_str("reduced_still_picture_header streams cannot use show_existing_frame"),
            Error::FrameIdNumbers => String::from_str("frame_id_numbers_present streams are not yet supported"),
            Error::UnequalIntervals => String::from_str("decoder model with unequal picture intervals is not yet supported"),
            Error::FilmGrain => String::from_str("film_grain_params_present streams are not supported: grain params would need to be loaded per shown frame"),
            Error::FrameReducedStillPicture => String::from_str("reduced still picture header is unsupported"),
            Error::FrameWithIds => String::from_str("frame_id_numbers_present streams are not supported"),
            Error::FrameUnequalIntervals => String::from_str("decoder model with unequal picture intervals is unsupported"),
            Error::ScanReducedStillPicture => String::from_str("reduced still picture header unsupported"),
            Error::ScanFilmGrain => String::from_str("film grain streams unsupported"),
            Error::ScanFrameIds => String::from_str("frame_id_numbers_present unsupported"),
            Error::ScanShowExisting => String::from_str("show_existing_frame inputs are synthesized by us"),
            Error::NotCodedFrame => String::from_str("not a coded frame"),
            Error::IntraRefSlots => String::from_str("intra frame has no ref_frame_idx"),
            Error::ShortSignaling => String::from_str("frame_refs_short_signaling needs set_frame_refs — unsupported input"),
            Error::NsZero => String::from_str("ns(0)"),
            Error::EmptyFrame => String::from_str("explicit tile sizes in a frame of no width"),
            Error::SplicePastHeader => String::from_str("insert position past header end"),
            Error::HeaderPastPayload => String::from_str("header end past payload"),
            Error::IvfHeaderTruncated => String::from_str("IVF header truncated"),
            Error::NotIvf => String::from_str("not an IVF file"),
            Error::IvfVersion(v) => {
                let mut s = String::from_str("unsupported IVF version ");
                text::put_number(&mut s, v as u64);
                s
            },
            Error::IvfHeaderLenTooSmall(n) => {
                let mut s = String::from_str("IVF header length ");
                text::put_number(&mut s, n as u64);
                s.append(" is smaller than the fixed 32-byte header");
                s
            },
            Error::IvfHeaderLenTooLarge { header_len, file_len } => {
                let mut s = String::from_str("IVF header length ");
                text::put_number(&mut s, header_len as u64);
                s.append(" exceeds file length ");
                text::put_number(&mut s, file_len as u64);
                s
            },
            Error::IvfFourcc => String::from_str("IVF fourcc is not AV01"),
            Error::IvfFrameHeaderTruncated => String::from_str("truncated IVF frame header"),
            Error::IvfFramePayloadTruncated => String::from_str("truncated IVF frame payload"),
            Error::FrameBeforeSequenceHeader => String::from_str("coded frame before any sequence header"),
            Error::ObuOverrunsStream => String::from_str("OBU payload overruns stream"),
            Error::AnnexBTemporalUnitSize { .. } => String::from_str("bad Annex-B temporal_unit_size"),
            Error::AnnexBTemporalUnitTruncated => String::from_str("truncated Annex-B temporal unit"),
            Error::AnnexBFrameUnitSize { .. } => String::from_str("bad Annex-B frame_unit_size"),
            Error::AnnexBFrameUnitOverrun => String::from_str("Annex-B frame unit overruns temporal unit"),
            Error::AnnexBObuSize { .. } => String::from_str("bad Annex-B OBU size"),
            Error::AnnexBObuOverrun => String::from_str("Annex-B OBU overruns frame unit"),
            Error::AnnexBEmptyObu => String::from_str("empty Annex-B OBU"),
            Error::AnnexBObuHeaderTruncated => String::from_str("truncated Annex-B OBU header"),
            Error::AnnexBEmpty => String::from_str("empty Annex-B stream"),
        }
    }

    /// The error underneath.
    pub open spec fn cause(self) -> Option<Error> {
        match self {
            Error::ObuSizeTooLong => Some(Error::Leb128TooLong),
            Error::ObuSizeUnterminated => Some(Error::Leb128Unterminated),
            Error::AnnexBTemporalUnitSize { too_long } => Some(leb128_error(too_long)),
            Error::AnnexBFrameUnitSize { too_long } => Some(leb128_error(too_long)),
            Error::AnnexBObuSize { too_long } => Some(leb128_error(too_long)),
            _ => None,
        }
    }

    /// What went wrong, with its cause.
    pub open spec fn full(self) -> Seq<char> {
        match self.cause() {
            Some(cause) => caused(self.text(), cause.text()),
            None => self.text(),
        }
    }

    fn source(&self) -> (r: Option<Error>)
        ensures
            r == self.cause(),
    {
        let too_long = match *self {
            Error::ObuSizeTooLong => true,
            Error::ObuSizeUnterminated => false,
            Error::AnnexBTemporalUnitSize { too_long } => too_long,
            Error::AnnexBFrameUnitSize { too_long } => too_long,
            Error::AnnexBObuSize { too_long } => too_long,
            _ => return None,
        };
        if too_long {
            Some(Error::Leb128TooLong)
        } else {
            Some(Error::Leb128Unterminated)
        }
    }

    /// What went wrong, with its cause.
    pub fn chain(&self) -> (r: String)
        ensures
            r@ == self.full(),
    {
        match self.source() {
            Some(cause) => {
                let c = cause.message();
                caused_text(self.message(), &c)
            },
            None => self.message(),
        }
    }
}

} // verus!
