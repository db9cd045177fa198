//! Open Bitstream Unit (OBU) parsing and writing (AV1 spec section 5.3).

use vstd::prelude::*;
use vstd::arithmetic::power2::*;

use crate::bitio::{self, leb128_encode, BitReader};
use crate::error::Error;
use crate::model;

pub mod layout;

verus! {

#[derive(Debug, Clone, Copy, PartialEq, Eq, Structural)]
pub enum ObuType {
    Reserved0,
    SequenceHeader,
    TemporalDelimiter,
    FrameHeader,
    TileGroup,
    Metadata,
    Frame,
    RedundantFrameHeader,
    TileList,
    Padding,
}

impl ObuType {
    /// The value of obu_type.
    pub open spec fn code(self) -> u8 {
        match self {
            ObuType::Reserved0 => 0,
            ObuType::SequenceHeader => 1,
            ObuType::TemporalDelimiter => 2,
            ObuType::FrameHeader => 3,
            ObuType::TileGroup => 4,
            ObuType::Metadata => 5,
            ObuType::Frame => 6,
            ObuType::RedundantFrameHeader => 7,
            ObuType::TileList => 8,
            ObuType::Padding => 15,
        }
    }

    /// The type with this obu_type value; 9 to 14 and those above 15 have none.
    pub open spec fn from_code(v: u8) -> Result<ObuType, Error> {
        if v == 0 {
            Ok(ObuType::Reserved0)
        } else if v == 1 {
            Ok(ObuType::SequenceHeader)
        } else if v == 2 {
            Ok(ObuType::TemporalDelimiter)
        } else if v == 3 {
            Ok(ObuType::FrameHeader)
        } else if v == 4 {
            Ok(ObuType::TileGroup)
        } else if v == 5 {
            Ok(ObuType::Metadata)
        } else if v == 6 {
            Ok(ObuType::Frame)
        } else if v == 7 {
            Ok(ObuType::RedundantFrameHeader)
        } else if v == 8 {
            Ok(ObuType::TileList)
        } else if v == 15 {
            Ok(ObuType::Padding)
        } else {
            Err(Error::UnknownObuType(v))
        }
    }

    pub fn from_u8(v: u8) -> (r: Result<Self, Error>)
        ensures
            r == ObuType::from_code(v),
            r matches Ok(t) ==> t.code() == v,
    {
        match v {
            0 => Ok(ObuType::Reserved0),
            1 => Ok(ObuType::SequenceHeader),
            2 => Ok(ObuType::TemporalDelimiter),
            3 => Ok(ObuType::FrameHeader),
            4 => Ok(ObuType::TileGroup),
            5 => Ok(ObuType::Metadata),
            6 => Ok(ObuType::Frame),
            7 => Ok(ObuType::RedundantFrameHeader),
            8 => Ok(ObuType::TileList),
            15 => Ok(ObuType::Padding),
            other => Err(Error::UnknownObuType(other)),
        }
    }

    /// The value of obu_type.
    pub fn to_u8(self) -> (r: u8)
        ensures
            r == self.code(),
    {
        match self {
            ObuType::Reserved0 => 0,
            ObuType::SequenceHeader => 1,
            ObuType::TemporalDelimiter => 2,
            ObuType::FrameHeader => 3,
            ObuType::TileGroup => 4,
            ObuType::Metadata => 5,
            ObuType::Frame => 6,
            ObuType::RedundantFrameHeader => 7,
            ObuType::TileList => 8,
            ObuType::Padding => 15,
        }
    }
}

/// A single OBU: header fields + payload bytes (size prefix excluded).
/// `Obu<Seq<u8>>` is the view of an `Obu`.
#[derive(Debug)]
pub struct Obu<P = Vec<u8>> {
    pub obu_type: ObuType,
    /// temporal_id (3 bits) | spatial_id (2 bits) | 3 reserved bits, when present.
    pub extension: Option<u8>,
    pub payload: P,
}

impl View for Obu {
    type V = Obu<Seq<u8>>;

    open spec fn view(&self) -> Obu<Seq<u8>> {
        Obu { obu_type: self.obu_type, extension: self.extension, payload: self.payload@ }
    }
}

impl Clone for Obu {
    fn clone(&self) -> (r: Self)
        ensures
            r@ == self@,
    {
        let r = Obu {
            obu_type: self.obu_type,
            extension: self.extension,
            payload: self.payload.clone(),
        };
        assert(r.payload@ =~= self.payload@);
        r
    }
}

impl Obu<Seq<u8>> {
    /// The extension byte, if there is one.
    pub open spec fn extension_bytes(self) -> Seq<u8> {
        match self.extension {
            Some(e) => seq![e],
            None => Seq::empty(),
        }
    }

    /// The header byte with obu_has_size_field set.
    pub open spec fn header_byte(self) -> u8 {
        (self.obu_type.code() * 8 + 2 + if self.extension is Some {
            4int
        } else {
            0
        }) as u8
    }

    /// The OBU with its header, extension byte and size field.
    pub open spec fn bytes(self) -> Seq<u8> {
        seq![self.header_byte()] + self.extension_bytes() + bitio::leb128_bytes(self.payload.len())
            + self.payload
    }
}

/// The temporal delimiter OBU: no extension, no payload.
pub open spec fn td() -> Obu<Seq<u8>> {
    Obu { obu_type: ObuType::TemporalDelimiter, extension: None, payload: Seq::empty() }
}

/// The OBUs written one after another.
pub open spec fn obus_bytes(obus: Seq<Obu<Seq<u8>>>) -> Seq<u8> {
    model::concat(Seq::new(obus.len(), |i: int| obus[i].bytes()))
}

pub proof fn lemma_obus_bytes_push(obus: Seq<Obu<Seq<u8>>>, o: Obu<Seq<u8>>)
    ensures
        obus_bytes(obus.push(o)) == obus_bytes(obus) + o.bytes(),
{
    let parts = Seq::new(obus.len(), |i: int| obus[i].bytes());
    let all = obus.push(o);
    assert(Seq::new(all.len(), |i: int| all[i].bytes()) =~= parts.push(o.bytes()));
    model::lemma_concat_push(parts, o.bytes());
}

impl Obu {
    /// Serialize including the 1-byte header, optional extension byte and leb128 size.
    /// obu_has_size_field is always set.
    pub fn write(&self, out: &mut Vec<u8>)
        ensures
            final(out)@ == old(out)@ + self@.bytes(),
    {
        let code = self.obu_type.to_u8();
        let mut header = code * 8 + 2;  // obu_has_size_field
        if self.extension.is_some() {
            header = header + 4;
        }
        out.push(header);
        if let Some(ext) = self.extension {
            out.push(ext);
        }
        let size = leb128_encode(self.payload.len() as u64);
        out.extend_from_slice(&size);
        out.extend_from_slice(&self.payload);
        assert(out@ =~= old(out)@ + self@.bytes());
    }

    pub fn temporal_delimiter() -> (r: Self)
        ensures
            r@ == td(),
    {
        let r = Obu {
            obu_type: ObuType::TemporalDelimiter,
            extension: None,
            payload: Vec::new(),
        };
        assert(r.payload@ =~= Seq::empty());
        r
    }
}

/// What follows the header byte of an OBU: the extension byte where the header
/// announces one, and how many bytes of `data` precede the size field.
pub open spec fn front_extension(data: Seq<u8>) -> Result<(Option<u8>, nat), Error> {
    if (data[0] / 4) % 2 == 0 {
        Ok((None, 1))
    } else if data.len() < 2 {
        Err(Error::TruncatedObuExtension)
    } else {
        Ok((Some(data[1]), 2))
    }
}

/// The payload's first byte and length, for an OBU whose size field, if its
/// header announces one, stands at `at`. Without one it runs to the end.
pub open spec fn front_payload(data: Seq<u8>, at: nat) -> Result<(nat, nat), Error> {
    if (data[0] / 2) % 2 == 0 {
        Ok((at, (data.len() - at) as nat))
    } else {
        match bitio::leb128(data.skip(at as int)) {
            Err(Error::Leb128TooLong) => Err(Error::ObuSizeTooLong),
            Err(_) => Err(Error::ObuSizeUnterminated),
            Ok((size, n)) => if size > data.len() - at - n {
                Err(Error::ObuOverrun)
            } else {
                Ok((at + n as nat, size as nat))
            },
        }
    }
}

/// The OBU at the front of `data`, which is not empty, and its length.
pub open spec fn front_obu(data: Seq<u8>) -> Result<(Obu<Seq<u8>>, nat), Error> {
    if data[0] >= 128 {
        Err(Error::ObuForbiddenBit)
    } else {
        match ObuType::from_code((data[0] / 8) % 16) {
            Err(e) => Err(e),
            Ok(obu_type) => match front_extension(data) {
                Err(e) => Err(e),
                Ok((extension, at)) => match front_payload(data, at) {
                    Err(e) => Err(e),
                    Ok((start, size)) => Ok(
                        (
                            Obu {
                                obu_type,
                                extension,
                                payload: data.subrange(start as int, (start + size) as int),
                            },
                            start + size,
                        ),
                    ),
                },
            },
        }
    }
}

/// All OBUs of `data`, or the first error in it.
pub open spec fn obus_of(data: Seq<u8>) -> Result<Seq<Obu<Seq<u8>>>, Error>
    decreases data.len(),
{
    if data.len() == 0 {
        Ok(Seq::empty())
    } else {
        match front_obu(data) {
            Err(e) => Err(e),
            Ok((obu, n)) => {
                proof {
                    lemma_front_obu_len(data);
                }
                match obus_of(data.skip(n as int)) {
                    Err(e) => Err(e),
                    Ok(rest) => Ok(seq![obu] + rest),
                }
            },
        }
    }
}

/// How a list of OBUs that came back relates to the list owed.
pub open spec fn gives_obus(r: Result<Vec<Obu>, Error>, owed: Result<Seq<Obu<Seq<u8>>>, Error>) -> bool {
    match r {
        Ok(v) => owed == Ok::<Seq<Obu<Seq<u8>>>, Error>(model::views(v@)),
        Err(e) => owed == Err::<Seq<Obu<Seq<u8>>>, Error>(e),
    }
}

/// `r` after the OBUs of `done`.
pub open spec fn after(
    done: Seq<Obu<Seq<u8>>>,
    r: Result<Seq<Obu<Seq<u8>>>, Error>,
) -> Result<Seq<Obu<Seq<u8>>>, Error> {
    match r {
        Ok(rest) => Ok(done + rest),
        Err(e) => Err(e),
    }
}

/// Every OBU takes at least its header byte and stays within the data.
pub proof fn lemma_front_obu_len(data: Seq<u8>)
    requires
        data.len() > 0,
    ensures
        front_obu(data) matches Ok((_, n)) ==> 0 < n <= data.len(),
{
    if front_extension(data) is Ok {
        let at = front_extension(data)->Ok_0.1;
        let d = data.skip(at as int);
        lemma_leb128_end_bound(d, 0);
    }
}

pub proof fn lemma_leb128_end_bound(data: Seq<u8>, i: nat)
    ensures
        bitio::leb128_end(data, i) matches Ok(n) ==> i < n <= data.len() && n <= 8,
    decreases data.len() - i,
{
    if i < data.len() && i < 8 && data[i as int] >= 128 {
        lemma_leb128_end_bound(data, i + 1);
    }
}

/// Parse the OBU that starts at `data[i]`; also gives where it ends.
fn parse_obu(data: &[u8], i: usize) -> (r: Result<(Obu, usize), Error>)
    requires
        i < data@.len(),
    ensures
        match r {
            Ok((obu, end)) => i < end <= data@.len() && front_obu(data@.skip(i as int)) == Ok::<
                (Obu<Seq<u8>>, nat),
                Error,
            >((obu@, (end - i) as nat)),
            Err(e) => front_obu(data@.skip(i as int)) == Err::<(Obu<Seq<u8>>, nat), Error>(e),
        },
{
    let ghost d = data@.skip(i as int);
    let header = data[i];
    proof {
        assert(d[0] == header);
        lemma_front_obu_len(d);
        assert(header & 0x80 == 0 <==> header < 128) by (bit_vector);
        assert((header >> 3) & 0x0f == (header / 8) % 16) by (bit_vector);
        assert(header & 0x04 != 0 <==> (header / 4) % 2 != 0) by (bit_vector);
        assert(header & 0x02 != 0 <==> (header / 2) % 2 != 0) by (bit_vector);
    }
    let mut at: usize = i + 1;
    if header & 0x80 != 0 {
        return Err(Error::ObuForbiddenBit);
    }
    let obu_type = ObuType::from_u8((header >> 3) & 0x0f)?;
    let has_ext = header & 0x04 != 0;
    let has_size = header & 0x02 != 0;
    let extension = if has_ext {
        if at >= data.len() {
            return Err(Error::TruncatedObuExtension);
        }
        let e = data[at];
        at = at + 1;
        Some(e)
    } else {
        None
    };
    let size: usize = if has_size {
        let rest = vstd::slice::slice_subrange(data, at, data.len());
        assert(rest@ =~= d.skip(at - i));
        match BitReader::leb128(rest) {
            Ok((v, n)) => {
                at = at + n;
                if v > (data.len() - at) as u64 {
                    return Err(Error::ObuOverrun);
                }
                v as usize
            },
            Err(Error::Leb128TooLong) => {
                return Err(Error::ObuSizeTooLong);
            },
            Err(_) => {
                return Err(Error::ObuSizeUnterminated);
            },
        }
    } else {
        data.len() - at
    };
    let payload = vstd::slice::slice_to_vec(vstd::slice::slice_subrange(data, at, at + size));
    let obu = Obu { obu_type, extension, payload };
    assert(obu.payload@ =~= d.subrange(at - i, at + size - i));
    Ok((obu, at + size))
}

/// Split a byte stream (a temporal unit / IVF packet) into OBUs.
/// OBUs must carry a size field; if the last OBU lacks it, it runs to the end.
pub fn parse_obus(data: &[u8]) -> (r: Result<Vec<Obu>, Error>)
    ensures
        gives_obus(r, obus_of(data@)),
{
    let mut out: Vec<Obu> = Vec::new();
    let mut i: usize = 0;
    proof {
        assert(data@.skip(0) =~= data@);
        assert(after(model::views(out@), obus_of(data@)) =~= obus_of(data@)) by {
            if obus_of(data@) is Ok {
                assert(model::views(out@) + obus_of(data@)->Ok_0 =~= obus_of(data@)->Ok_0);
            }
        }
    }
    while i < data.len()
        invariant
            i <= data@.len(),
            obus_of(data@) == after(model::views(out@), obus_of(data@.skip(i as int))),
        decreases data@.len() - i,
    {
        let ghost d = data@.skip(i as int);
        let ghost done = model::views(out@);
        let (obu, end) = parse_obu(data, i)?;
        out.push(obu);
        proof {
            assert(d.skip(end - i) =~= data@.skip(end as int));
            assert(model::views(out@) =~= done.push(obu@));
            if obus_of(data@.skip(end as int)) is Ok {
                let rest = obus_of(data@.skip(end as int))->Ok_0;
                assert(done + (seq![obu@] + rest) =~= done.push(obu@) + rest);
            }
        }
        i = end;
    }
    assert(data@.skip(i as int).len() == 0);
    assert(model::views(out@) + Seq::<Obu<Seq<u8>>>::empty() =~= model::views(out@));
    Ok(out)
}

/// Each list of OBUs written with size fields.
pub open spec fn written(tus: Seq<Seq<Obu<Seq<u8>>>>) -> Seq<Seq<u8>> {
    Seq::new(tus.len(), |i: int| obus_bytes(tus[i]))
}

/// The OBUs written one after another, each with its size field.
pub(crate) fn write_obus(obus: &Vec<Obu>) -> (r: Vec<u8>)
    ensures
        r@ == obus_bytes(model::views(obus@)),
{
    let ghost all = model::views(obus@);
    let mut out: Vec<u8> = Vec::new();
    let mut i: usize = 0;
    assert(all.take(0) =~= Seq::empty());
    assert(out@ =~= obus_bytes(all.take(0)));
    while i < obus.len()
        invariant
            i <= obus@.len(),
            all == model::views(obus@),
            out@ == obus_bytes(all.take(i as int)),
        decreases obus@.len() - i,
    {
        obus[i].write(&mut out);
        proof {
            assert(all[i as int] == obus@[i as int]@);
            lemma_obus_bytes_push(all.take(i as int), all[i as int]);
            assert(all.take(i + 1) =~= all.take(i as int).push(all[i as int]));
        }
        i = i + 1;
    }
    assert(all.take(i as int) =~= all);
    out
}

/// No payload is longer than the data it was read from.
pub proof fn lemma_payloads_within(data: Seq<u8>)
    requires
        obus_of(data) is Ok,
    ensures
        forall|i: int|
            0 <= i < obus_of(data)->Ok_0.len() ==> (
            #[trigger] obus_of(data)->Ok_0[i]).payload.len() <= data.len(),
    decreases data.len(),
{
    if data.len() > 0 {
        lemma_front_obu_len(data);
        let (o, n) = front_obu(data)->Ok_0;
        let rest = obus_of(data.skip(n as int))->Ok_0;
        lemma_payloads_within(data.skip(n as int));
        assert forall|i: int| 0 <= i < obus_of(data)->Ok_0.len() implies (
        #[trigger] obus_of(data)->Ok_0[i]).payload.len() <= data.len() by {
            if i > 0 {
                assert(obus_of(data)->Ok_0[i] == rest[i - 1]);
            }
        }
    }
}

/// An OBU that was written is read back, whatever follows it.
pub proof fn obu_round_trip(obu: Obu<Seq<u8>>, tail: Seq<u8>)
    requires
        obu.payload.len() < pow2(56),
    ensures
        front_obu(obu.bytes() + tail) == Ok::<(Obu<Seq<u8>>, nat), Error>((obu, obu.bytes().len())),
{
    let data = obu.bytes() + tail;
    let h = obu.header_byte();
    let size = bitio::leb128_bytes(obu.payload.len());
    let at = 1 + obu.extension_bytes().len();
    lemma2_to64_rest();
    bitio::leb128_round_trip(obu.payload.len() as u64, obu.payload + tail);
    assert(data[0] == h);
    assert(data.skip(at as int) =~= size + (obu.payload + tail));
    assert(front_extension(data) == Ok::<(Option<u8>, nat), Error>((obu.extension, at)));
    assert(data.subrange((at + size.len()) as int, (at + size.len() + obu.payload.len()) as int)
        =~= obu.payload);
}

/// Splitting what was written gives the same OBUs back.
pub proof fn obus_round_trip(obus: Seq<Obu<Seq<u8>>>)
    requires
        forall|i: int| 0 <= i < obus.len() ==> (#[trigger] obus[i]).payload.len() < pow2(56),
    ensures
        obus_of(obus_bytes(obus)) == Ok::<Seq<Obu<Seq<u8>>>, Error>(obus),
    decreases obus.len(),
{
    let parts = Seq::new(obus.len(), |i: int| obus[i].bytes());
    if obus.len() == 0 {
        assert(obus =~= Seq::empty());
    } else {
        let rest = obus.skip(1);
        let rest_parts = Seq::new(rest.len(), |i: int| rest[i].bytes());
        model::lemma_concat_front(parts);
        assert(parts.skip(1) =~= rest_parts);
        obus_round_trip(rest);
        obu_round_trip(obus[0], obus_bytes(rest));
        let data = obus_bytes(obus);
        let n = obus[0].bytes().len();
        assert(data =~= obus[0].bytes() + obus_bytes(rest));
        assert(data.skip(n as int) =~= obus_bytes(rest));
        assert(seq![obus[0]] + rest =~= obus);
    }
}

/// An OBU whose size takes more than eight bytes cannot be read back.
proof fn lemma_oversized(obu: Obu<Seq<u8>>, tail: Seq<u8>)
    requires
        obu.payload.len() >= pow2(56),
    ensures
        front_obu(obu.bytes() + tail) is Err,
{
    let data = obu.bytes() + tail;
    let size = bitio::leb128_bytes(obu.payload.len());
    let at = 1 + obu.extension_bytes().len();
    bitio::oversized_leb128_is_too_long(obu.payload.len(), obu.payload + tail);
    assert(data[0] == obu.header_byte());
    assert(data.skip(at as int) =~= size + (obu.payload + tail));
    assert(front_extension(data) == Ok::<(Option<u8>, nat), Error>((obu.extension, at)));
}

proof fn lemma_sizes_read_back(obus: Seq<Obu<Seq<u8>>>)
    requires
        obus_of(obus_bytes(obus)) is Ok,
    ensures
        forall|i: int| 0 <= i < obus.len() ==> (#[trigger] obus[i]).payload.len() < pow2(56),
    decreases obus.len(),
{
    if obus.len() > 0 {
        let parts = Seq::new(obus.len(), |i: int| obus[i].bytes());
        let rest = obus.skip(1);
        let rest_parts = Seq::new(rest.len(), |i: int| rest[i].bytes());
        model::lemma_concat_front(parts);
        assert(parts.skip(1) =~= rest_parts);
        let data = obus_bytes(obus);
        assert(data =~= obus[0].bytes() + obus_bytes(rest));
        if obus[0].payload.len() >= pow2(56) {
            lemma_oversized(obus[0], obus_bytes(rest));
        }
        obu_round_trip(obus[0], obus_bytes(rest));
        let n = obus[0].bytes().len();
        assert(data.skip(n as int) =~= obus_bytes(rest));
        lemma_sizes_read_back(rest);
        assert forall|i: int| 0 <= i < obus.len() implies (#[trigger] obus[i]).payload.len() < pow2(
            56,
        ) by {
            if i > 0 {
                assert(rest[i - 1] == obus[i]);
            }
        }
    }
}

/// What was written either cannot be split, or is split into the same OBUs.
pub proof fn what_is_split_is_what_was_written(obus: Seq<Obu<Seq<u8>>>)
    requires
        obus_of(obus_bytes(obus)) is Ok,
    ensures
        obus_of(obus_bytes(obus)) == Ok::<Seq<Obu<Seq<u8>>>, Error>(obus),
{
    lemma_sizes_read_back(obus);
    obus_round_trip(obus);
}

} // verus!
