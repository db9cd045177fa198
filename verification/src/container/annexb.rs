//! Annex-B framing: `[leb128 temporal_unit_size] [frame_unit ...]` where each
//! frame_unit is `[leb128 frame_unit_size] [leb128 obu_size + obu ...]`.

use vstd::prelude::*;
use vstd::arithmetic::power2::*;

use crate::bitio::{self, leb128_encode, BitReader};
use crate::error::Error;
use crate::model;
use crate::obu::{self, parse_obus, Obu, ObuType};

verus! {

// ---------- reading ----------

/// Which of the three nested lengths is read.
#[derive(Debug, Clone, Copy, PartialEq, Eq, Structural)]
pub enum Level {
    TemporalUnit,
    FrameUnit,
    Obu,
}

/// The error of a length that cannot be read.
pub open spec fn size_error(level: Level, too_long: bool) -> Error {
    match level {
        Level::TemporalUnit => Error::AnnexBTemporalUnitSize { too_long },
        Level::FrameUnit => Error::AnnexBFrameUnitSize { too_long },
        Level::Obu => Error::AnnexBObuSize { too_long },
    }
}

/// The error of a unit that runs past what encloses it.
pub open spec fn overrun_error(level: Level) -> Error {
    match level {
        Level::TemporalUnit => Error::AnnexBTemporalUnitTruncated,
        Level::FrameUnit => Error::AnnexBFrameUnitOverrun,
        Level::Obu => Error::AnnexBObuOverrun,
    }
}

/// The unit at the front of `data`: where it starts and ends.
pub open spec fn unit_at(data: Seq<u8>, level: Level) -> Result<(nat, nat), Error> {
    match bitio::leb128(data) {
        Err(e) => Err(size_error(level, e == Error::Leb128TooLong)),
        Ok((size, n)) => if size > data.len() - n {
            Err(overrun_error(level))
        } else {
            Ok((n as nat, (n + size) as nat))
        },
    }
}

/// The OBU that `raw` is: a header without a size field, then the payload.
pub open spec fn raw_obu(raw: Seq<u8>) -> Result<Obu<Seq<u8>>, Error> {
    if raw.len() == 0 {
        Err(Error::AnnexBEmptyObu)
    } else if raw[0] >= 128 {
        Err(Error::ObuForbiddenBit)
    } else {
        let has_ext = (raw[0] / 4) % 2 != 0;
        if has_ext && raw.len() < 2 {
            Err(Error::AnnexBObuHeaderTruncated)
        } else {
            match ObuType::from_code((raw[0] / 8) % 16) {
                Err(e) => Err(e),
                Ok(obu_type) => Ok(
                    Obu {
                        obu_type,
                        extension: if has_ext {
                            Some(raw[1])
                        } else {
                            None
                        },
                        payload: raw.skip(
                            if has_ext {
                                2
                            } else {
                                1
                            },
                        ),
                    },
                ),
            }
        }
    }
}

pub proof fn lemma_unit_progress(data: Seq<u8>, level: Level)
    requires
        data.len() > 0,
    ensures
        unit_at(data, level) matches Ok((start, end)) ==> 0 < start <= end <= data.len(),
{
    obu::lemma_leb128_end_bound(data, 0);
}

/// The OBUs of a frame unit.
pub open spec fn obus_in(data: Seq<u8>) -> Result<Seq<Obu<Seq<u8>>>, Error>
    decreases data.len(),
{
    if data.len() == 0 {
        Ok(Seq::empty())
    } else {
        match unit_at(data, Level::Obu) {
            Err(e) => Err(e),
            Ok((start, end)) => match raw_obu(data.subrange(start as int, end as int)) {
                Err(e) => Err(e),
                Ok(o) => {
                    proof {
                        lemma_unit_progress(data, Level::Obu);
                    }
                    match obus_in(data.skip(end as int)) {
                        Err(e) => Err(e),
                        Ok(rest) => Ok(seq![o] + rest),
                    }
                },
            },
        }
    }
}

/// The OBUs of a temporal unit's frame units.
pub open spec fn frame_units_in(data: Seq<u8>) -> Result<Seq<Obu<Seq<u8>>>, Error>
    decreases data.len(),
{
    if data.len() == 0 {
        Ok(Seq::empty())
    } else {
        match unit_at(data, Level::FrameUnit) {
            Err(e) => Err(e),
            Ok((start, end)) => match obus_in(data.subrange(start as int, end as int)) {
                Err(e) => Err(e),
                Ok(obus) => {
                    proof {
                        lemma_unit_progress(data, Level::FrameUnit);
                    }
                    match frame_units_in(data.skip(end as int)) {
                        Err(e) => Err(e),
                        Ok(rest) => Ok(obus + rest),
                    }
                },
            },
        }
    }
}

/// The OBUs of each temporal unit.
pub open spec fn temporal_units_in(data: Seq<u8>) -> Result<Seq<Seq<Obu<Seq<u8>>>>, Error>
    decreases data.len(),
{
    if data.len() == 0 {
        Ok(Seq::empty())
    } else {
        match unit_at(data, Level::TemporalUnit) {
            Err(e) => Err(e),
            Ok((start, end)) => match frame_units_in(data.subrange(start as int, end as int)) {
                Err(e) => Err(e),
                Ok(obus) => {
                    proof {
                        lemma_unit_progress(data, Level::TemporalUnit);
                    }
                    match temporal_units_in(data.skip(end as int)) {
                        Err(e) => Err(e),
                        Ok(rest) => Ok(seq![obus] + rest),
                    }
                },
            },
        }
    }
}

/// The temporal units of an Annex-B stream.
pub open spec fn annexb_of(data: Seq<u8>) -> Result<Seq<Seq<u8>>, Error> {
    match temporal_units_in(data) {
        Err(e) => Err(e),
        Ok(tus) => if tus.len() == 0 {
            Err(Error::AnnexBEmpty)
        } else {
            Ok(obu::written(tus))
        },
    }
}

fn unit(data: &[u8], level: Level) -> (res: Result<(usize, usize), Error>)
    requires
        data@.len() > 0,
    ensures
        match res {
            Ok((start, end)) => unit_at(data@, level) == Ok::<(nat, nat), Error>(
                (start as nat, end as nat),
            ) && 0 < start <= end <= data@.len(),
            Err(e) => unit_at(data@, level) == Err::<(nat, nat), Error>(e),
        },
{
    match BitReader::leb128(data) {
        Ok((size, n)) => {
            if size > (data.len() - n) as u64 {
                match level {
                    Level::TemporalUnit => Err(Error::AnnexBTemporalUnitTruncated),
                    Level::FrameUnit => Err(Error::AnnexBFrameUnitOverrun),
                    Level::Obu => Err(Error::AnnexBObuOverrun),
                }
            } else {
                Ok((n, n + size as usize))
            }
        },
        Err(e) => {
            let too_long = match e {
                Error::Leb128TooLong => true,
                _ => false,
            };
            match level {
                Level::TemporalUnit => Err(Error::AnnexBTemporalUnitSize { too_long }),
                Level::FrameUnit => Err(Error::AnnexBFrameUnitSize { too_long }),
                Level::Obu => Err(Error::AnnexBObuSize { too_long }),
            }
        },
    }
}

fn read_raw_obu(raw: &[u8]) -> (res: Result<Obu, Error>)
    ensures
        model::view_ok(res) == raw_obu(raw@),
{
    if raw.len() == 0 {
        return Err(Error::AnnexBEmptyObu);
    }
    let header = raw[0];
    proof {
        assert(header & 0x80 == 0 <==> header < 128) by (bit_vector);
        assert((header >> 3) & 0x0f == (header / 8) % 16) by (bit_vector);
        assert(header & 0x04 != 0 <==> (header / 4) % 2 != 0) by (bit_vector);
    }
    if header & 0x80 != 0 {
        return Err(Error::ObuForbiddenBit);
    }
    let has_ext = header & 0x04 != 0;
    let skip: usize = if has_ext {
        2
    } else {
        1
    };
    if raw.len() < skip {
        return Err(Error::AnnexBObuHeaderTruncated);
    }
    let obu_type = ObuType::from_u8((header >> 3) & 0x0f)?;
    let extension = if has_ext {
        Some(raw[1])
    } else {
        None
    };
    let payload = vstd::slice::slice_to_vec(vstd::slice::slice_subrange(raw, skip, raw.len()));
    let o = Obu { obu_type, extension, payload };
    assert(o.payload@ =~= raw@.skip(skip as int));
    Ok(o)
}

/// `r` behind the OBUs of `done`.
pub open spec fn after<T>(done: Seq<T>, r: Result<Seq<T>, Error>) -> Result<Seq<T>, Error> {
    match r {
        Ok(rest) => Ok(done + rest),
        Err(e) => Err(e),
    }
}

proof fn lemma_after_none<T>(r: Result<Seq<T>, Error>)
    ensures
        after(Seq::empty(), r) == r,
{
    if r is Ok {
        assert(Seq::<T>::empty() + r->Ok_0 =~= r->Ok_0);
    }
}

proof fn lemma_after_append<T>(done: Seq<T>, more: Seq<T>, r: Result<Seq<T>, Error>)
    ensures
        after(done, after(more, r)) == after(done + more, r),
{
    if r is Ok {
        assert(done + (more + r->Ok_0) =~= done + more + r->Ok_0);
    }
}

/// Read the OBUs of a frame unit.
fn read_obus(data: &[u8], out: &mut Vec<Obu>) -> (res: Result<(), Error>)
    ensures
        match res {
            Ok(_) => obus_in(data@) is Ok && model::views(final(out)@) == model::views(old(out)@)
                + obus_in(data@)->Ok_0,
            Err(e) => obus_in(data@) == Err::<Seq<Obu<Seq<u8>>>, Error>(e),
        },
{
    let ghost had = model::views(out@);
    let ghost mut done: Seq<Obu<Seq<u8>>> = Seq::empty();
    let mut i: usize = 0;
    proof {
        assert(data@.skip(0) =~= data@);
        lemma_after_none(obus_in(data@));
        assert(had + done =~= had);
    }
    while i < data.len()
        invariant
            i <= data@.len(),
            had == model::views(old(out)@),
            model::views(out@) == had + done,
            obus_in(data@) == after(done, obus_in(data@.skip(i as int))),
        decreases data@.len() - i,
    {
        let ghost d = data@.skip(i as int);
        let rest = vstd::slice::slice_subrange(data, i, data.len());
        assert(rest@ =~= d);
        let (start, end) = unit(rest, Level::Obu)?;
        let raw = vstd::slice::slice_subrange(rest, start, end);
        assert(raw@ =~= d.subrange(start as int, end as int));
        let o = read_raw_obu(raw)?;
        out.push(o);
        proof {
            assert(d.skip(end as int) =~= data@.skip(i + end));
            lemma_after_append(done, seq![o@], obus_in(data@.skip(i + end)));
            assert(had + (done + seq![o@]) =~= (had + done).push(o@));
            assert(model::views(out@) =~= (had + done).push(o@));
            done = done + seq![o@];
        }
        i = i + end;
    }
    proof {
        assert(data@.skip(i as int).len() == 0);
        assert(done + Seq::<Obu<Seq<u8>>>::empty() =~= done);
    }
    Ok(())
}

/// Read the OBUs of a temporal unit's frame units.
fn read_frame_units(data: &[u8]) -> (res: Result<Vec<Obu>, Error>)
    ensures
        obu::gives_obus(res, frame_units_in(data@)),
{
    let mut out: Vec<Obu> = Vec::new();
    let mut i: usize = 0;
    proof {
        assert(data@.skip(0) =~= data@);
        assert(model::views(out@) =~= Seq::empty());
        lemma_after_none(frame_units_in(data@));
    }
    while i < data.len()
        invariant
            i <= data@.len(),
            frame_units_in(data@) == after(
                model::views(out@),
                frame_units_in(data@.skip(i as int)),
            ),
        decreases data@.len() - i,
    {
        let ghost d = data@.skip(i as int);
        let ghost done = model::views(out@);
        let rest = vstd::slice::slice_subrange(data, i, data.len());
        assert(rest@ =~= d);
        let (start, end) = unit(rest, Level::FrameUnit)?;
        let inner = vstd::slice::slice_subrange(rest, start, end);
        assert(inner@ =~= d.subrange(start as int, end as int));
        read_obus(inner, &mut out)?;
        proof {
            assert(d.skip(end as int) =~= data@.skip(i + end));
            lemma_after_append(
                done,
                obus_in(inner@)->Ok_0,
                frame_units_in(data@.skip(i + end)),
            );
        }
        i = i + end;
    }
    proof {
        assert(data@.skip(i as int).len() == 0);
        assert(model::views(out@) + Seq::<Obu<Seq<u8>>>::empty() =~= model::views(out@));
    }
    Ok(out)
}

/// Split an Annex-B byte stream into temporal units.
pub(crate) fn split_annexb(data: &[u8]) -> (res: Result<Vec<Vec<u8>>, Error>)
    ensures
        match res {
            Ok(v) => annexb_of(data@) == Ok::<Seq<Seq<u8>>, Error>(model::views(v@)),
            Err(e) => annexb_of(data@) == Err::<Seq<Seq<u8>>, Error>(e),
        },
{
    let mut tus: Vec<Vec<u8>> = Vec::new();
    let ghost mut done: Seq<Seq<Obu<Seq<u8>>>> = Seq::empty();
    let mut i: usize = 0;
    proof {
        assert(data@.skip(0) =~= data@);
        lemma_after_none(temporal_units_in(data@));
        assert(model::views(tus@) =~= obu::written(done));
    }
    while i < data.len()
        invariant
            i <= data@.len(),
            model::views(tus@) == obu::written(done),
            temporal_units_in(data@) == after(done, temporal_units_in(data@.skip(i as int))),
        decreases data@.len() - i,
    {
        let ghost d = data@.skip(i as int);
        let ghost had = model::views(tus@);
        let rest = vstd::slice::slice_subrange(data, i, data.len());
        assert(rest@ =~= d);
        let (start, end) = unit(rest, Level::TemporalUnit)?;
        let inner = vstd::slice::slice_subrange(rest, start, end);
        assert(inner@ =~= d.subrange(start as int, end as int));
        let obus = read_frame_units(inner)?;
        // Annex-B drops the size field from the OBU, so re-frame it.
        let tu = obu::write_obus(&obus);
        tus.push(tu);
        proof {
            let o = model::views(obus@);
            assert(d.skip(end as int) =~= data@.skip(i + end));
            lemma_after_append(done, seq![o], temporal_units_in(data@.skip(i + end)));
            assert(obu::written(done + seq![o]) =~= obu::written(done).push(tu@));
            assert(model::views(tus@) =~= had.push(tu@));
            done = done + seq![o];
        }
        i = i + end;
    }
    proof {
        assert(data@.skip(i as int).len() == 0);
        assert(done + Seq::<Seq<Obu<Seq<u8>>>>::empty() =~= done);
        assert(model::views(tus@).len() == obu::written(done).len());
    }
    if tus.len() == 0 {
        return Err(Error::AnnexBEmpty);
    }
    Ok(tus)
}

// ---------- writing ----------

/// `data` behind its leb128 length.
pub open spec fn prefixed(data: Seq<u8>) -> Seq<u8> {
    bitio::leb128_bytes(data.len()) + data
}

/// An OBU without its size field.
pub open spec fn raw_bytes(o: Obu<Seq<u8>>) -> Seq<u8> {
    seq![
        (o.obu_type.code() * 8 + if o.extension is Some {
            4int
        } else {
            0
        }) as u8,
    ] + o.extension_bytes() + o.payload
}

/// The OBUs of a frame unit.
pub open spec fn frame_unit_bytes(obus: Seq<Obu<Seq<u8>>>) -> Seq<u8> {
    model::concat(Seq::new(obus.len(), |i: int| prefixed(raw_bytes(obus[i]))))
}

/// A temporal unit of one frame unit.
pub open spec fn temporal_unit_bytes(obus: Seq<Obu<Seq<u8>>>) -> Seq<u8> {
    prefixed(prefixed(frame_unit_bytes(obus)))
}

/// An Annex-B stream of these temporal units.
pub open spec fn annexb_bytes(tus: Seq<Seq<Obu<Seq<u8>>>>) -> Seq<u8> {
    model::concat(Seq::new(tus.len(), |i: int| temporal_unit_bytes(tus[i])))
}

/// The OBUs of each temporal unit, all of which parse.
pub open spec fn obus_of_each(tus: Seq<Seq<u8>>) -> Seq<Seq<Obu<Seq<u8>>>> {
    Seq::new(tus.len(), |i: int| obu::obus_of(tus[i])->Ok_0)
}

fn put_prefixed(out: &mut Vec<u8>, data: &Vec<u8>)
    ensures
        final(out)@ == old(out)@ + prefixed(data@),
{
    let size = leb128_encode(data.len() as u64);
    out.extend_from_slice(&size);
    out.extend_from_slice(data);
    assert(out@ =~= old(out)@ + prefixed(data@));
}

fn put_raw(out: &mut Vec<u8>, o: &Obu)
    ensures
        final(out)@ == old(out)@ + prefixed(raw_bytes(o@)),
{
    // OBU header without the size field, followed by its payload —
    // the leb128 length prefix lives in the annexb framing instead.
    let mut h = o.obu_type.to_u8() * 8;
    if o.extension.is_some() {
        h = h + 4;
    }
    let mut raw: Vec<u8> = Vec::new();
    raw.push(h);
    if let Some(e) = o.extension {
        raw.push(e);
    }
    raw.extend_from_slice(&o.payload);
    assert(raw@ =~= raw_bytes(o@));
    put_prefixed(out, &raw);
}

fn frame_unit(obus: &Vec<Obu>) -> (fu: Vec<u8>)
    ensures
        fu@ == frame_unit_bytes(model::views(obus@)),
{
    let ghost all = model::views(obus@);
    let ghost parts = Seq::new(all.len(), |i: int| prefixed(raw_bytes(all[i])));
    let mut fu: Vec<u8> = Vec::new();
    let mut i: usize = 0;
    assert(parts.take(0) =~= Seq::empty());
    assert(fu@ =~= Seq::empty());
    while i < obus.len()
        invariant
            i <= obus@.len(),
            all == model::views(obus@),
            parts == Seq::new(all.len(), |i: int| prefixed(raw_bytes(all[i]))),
            fu@ == model::concat(parts.take(i as int)),
        decreases obus@.len() - i,
    {
        put_raw(&mut fu, &obus[i]);
        proof {
            assert(all[i as int] == obus@[i as int]@);
            assert(parts.take(i + 1) =~= parts.take(i as int).push(parts[i as int]));
            model::lemma_concat_push(parts.take(i as int), parts[i as int]);
        }
        i = i + 1;
    }
    assert(parts.take(i as int) =~= parts);
    fu
}

/// Append one temporal unit, whose OBU framing must parse.
fn put_temporal_unit(out: &mut Vec<u8>, tu: &Vec<u8>)
    requires
        obu::obus_of(tu@) is Ok,
    ensures
        final(out)@ == old(out)@ + temporal_unit_bytes(obu::obus_of(tu@)->Ok_0),
{
    match parse_obus(tu) {
        Ok(obus) => {
            // One frame unit per TU.
            let fu = frame_unit(&obus);
            let mut unit: Vec<u8> = Vec::new();
            put_prefixed(&mut unit, &fu);
            assert(unit@ =~= prefixed(fu@));
            put_prefixed(out, &unit);
        },
        Err(_) => {},
    }
}

pub(crate) fn write_stream(tus: &[Vec<u8>]) -> (r: Vec<u8>)
    requires
        forall|i: int| 0 <= i < tus@.len() ==> (#[trigger] obu::obus_of(tus@[i]@)) is Ok,
    ensures
        r@ == annexb_bytes(obus_of_each(model::views(tus@))),
{
    let ghost all = obus_of_each(model::views(tus@));
    let ghost parts = Seq::new(all.len(), |i: int| temporal_unit_bytes(all[i]));
    let mut out: Vec<u8> = Vec::new();
    let mut i: usize = 0;
    assert(parts.take(0) =~= Seq::empty());
    assert(out@ =~= Seq::empty());
    while i < tus.len()
        invariant
            i <= tus@.len(),
            forall|i: int| 0 <= i < tus@.len() ==> (#[trigger] obu::obus_of(tus@[i]@)) is Ok,
            all == obus_of_each(model::views(tus@)),
            parts == Seq::new(all.len(), |i: int| temporal_unit_bytes(all[i])),
            out@ == model::concat(parts.take(i as int)),
        decreases tus@.len() - i,
    {
        assert(obu::obus_of(tus@[i as int]@) is Ok);
        put_temporal_unit(&mut out, &tus[i]);
        proof {
            assert(all[i as int] == obu::obus_of(tus@[i as int]@)->Ok_0);
            assert(parts.take(i + 1) =~= parts.take(i as int).push(parts[i as int]));
            model::lemma_concat_push(parts.take(i as int), parts[i as int]);
        }
        i = i + 1;
    }
    assert(parts.take(i as int) =~= parts);
    out
}

// ---------- reading back what was written ----------

proof fn lemma_prefixed_reads_back(data: Seq<u8>, tail: Seq<u8>, level: Level)
    requires
        data.len() < pow2(56),
    ensures
        ({
            let n = bitio::leb128_bytes(data.len()).len();
            &&& n > 0
            &&& unit_at(prefixed(data) + tail, level) == Ok::<(nat, nat), Error>(
                (n, n + data.len()),
            )
            &&& (prefixed(data) + tail).subrange(n as int, (n + data.len()) as int) == data
            &&& (prefixed(data) + tail).skip((n + data.len()) as int) == tail
        }),
{
    let size = bitio::leb128_bytes(data.len());
    let all = prefixed(data) + tail;
    lemma2_to64_rest();
    bitio::leb128_round_trip(data.len() as u64, data + tail);
    assert(all =~= size + (data + tail));
    assert(all.subrange(size.len() as int, (size.len() + data.len()) as int) =~= data);
    assert(all.skip((size.len() + data.len()) as int) =~= tail);
}

proof fn lemma_raw_reads_back(o: Obu<Seq<u8>>)
    ensures
        raw_obu(raw_bytes(o)) == Ok::<Obu<Seq<u8>>, Error>(o),
{
    let raw = raw_bytes(o);
    let h = raw[0];
    let n = 1 + o.extension_bytes().len();
    assert(raw.skip(n as int) =~= o.payload);
}

proof fn lemma_obus_read_back(obus: Seq<Obu<Seq<u8>>>)
    requires
        forall|i: int| 0 <= i < obus.len() ==> raw_bytes(#[trigger] obus[i]).len() < pow2(56),
    ensures
        obus_in(frame_unit_bytes(obus)) == Ok::<Seq<Obu<Seq<u8>>>, Error>(obus),
    decreases obus.len(),
{
    let parts = Seq::new(obus.len(), |i: int| prefixed(raw_bytes(obus[i])));
    if obus.len() == 0 {
        assert(obus =~= Seq::empty());
    } else {
        let rest = obus.skip(1);
        model::lemma_concat_front(parts);
        assert(parts.skip(1) =~= Seq::new(rest.len(), |i: int| prefixed(raw_bytes(rest[i]))));
        lemma_obus_read_back(rest);
        lemma_prefixed_reads_back(raw_bytes(obus[0]), frame_unit_bytes(rest), Level::Obu);
        lemma_raw_reads_back(obus[0]);
        assert(seq![obus[0]] + rest =~= obus);
    }
}

/// Whether the sizes of a temporal unit fit their fields.
pub open spec fn sizes_fit(obus: Seq<Obu<Seq<u8>>>) -> bool {
    &&& forall|i: int| 0 <= i < obus.len() ==> raw_bytes(#[trigger] obus[i]).len() < pow2(56)
    &&& prefixed(frame_unit_bytes(obus)).len() < pow2(56)
}

proof fn lemma_unit_reads_back(obus: Seq<Obu<Seq<u8>>>)
    requires
        sizes_fit(obus),
    ensures
        frame_units_in(prefixed(frame_unit_bytes(obus))) == Ok::<Seq<Obu<Seq<u8>>>, Error>(obus),
{
    let fu = frame_unit_bytes(obus);
    let none = Seq::<u8>::empty();
    lemma_obus_read_back(obus);
    lemma_prefixed_reads_back(fu, none, Level::FrameUnit);
    assert(prefixed(fu) + none =~= prefixed(fu));
    assert(frame_units_in(none) == Ok::<Seq<Obu<Seq<u8>>>, Error>(Seq::empty()));
    assert(obus + Seq::<Obu<Seq<u8>>>::empty() =~= obus);
}

/// Splitting an Annex-B stream that was written gives the same OBUs in the
/// same temporal units.
pub proof fn annexb_round_trip(tus: Seq<Seq<Obu<Seq<u8>>>>)
    requires
        forall|i: int| 0 <= i < tus.len() ==> sizes_fit(#[trigger] tus[i]),
    ensures
        temporal_units_in(annexb_bytes(tus)) == Ok::<Seq<Seq<Obu<Seq<u8>>>>, Error>(tus),
        tus.len() > 0 ==> annexb_of(annexb_bytes(tus)) == Ok::<Seq<Seq<u8>>, Error>(obu::written(tus)),
    decreases tus.len(),
{
    let parts = Seq::new(tus.len(), |i: int| temporal_unit_bytes(tus[i]));
    if tus.len() == 0 {
        assert(tus =~= Seq::empty());
    } else {
        let rest = tus.skip(1);
        model::lemma_concat_front(parts);
        assert(parts.skip(1) =~= Seq::new(rest.len(), |i: int| temporal_unit_bytes(rest[i])));
        annexb_round_trip(rest);
        lemma_unit_reads_back(tus[0]);
        lemma_prefixed_reads_back(
            prefixed(frame_unit_bytes(tus[0])),
            annexb_bytes(rest),
            Level::TemporalUnit,
        );
        assert(seq![tus[0]] + rest =~= tus);
    }
}

} // verus!
