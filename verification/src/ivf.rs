//! Minimal IVF demuxer/muxer. IVF packets correspond to temporal units.

use vstd::prelude::*;

use crate::bytes;
use crate::error::Error;
use crate::model;

pub mod layout;

verus! {

/// An IVF file. `IvfFile<Seq<(u64, Seq<u8>)>>` is the view of an `IvfFile`.
#[derive(Debug)]
pub struct IvfFile<F = Vec<(u64, Vec<u8>)>> {
    pub width: u16,
    pub height: u16,
    /// timebase denominator (frame rate numerator as stored in IVF).
    pub timebase_den: u32,
    /// timebase numerator (frame rate denominator as stored in IVF).
    pub timebase_num: u32,
    /// (timestamp, temporal unit bytes)
    pub frames: F,
}

/// The view of a list of packets.
pub open spec fn packets(frames: Seq<(u64, Vec<u8>)>) -> Seq<(u64, Seq<u8>)> {
    Seq::new(frames.len(), |i: int| (frames[i].0, frames[i].1@))
}

/// The temporal units numbered from zero.
pub open spec fn numbered(tus: Seq<Seq<u8>>) -> Seq<(u64, Seq<u8>)> {
    Seq::new(tus.len(), |i: int| (i as u64, tus[i]))
}

/// The temporal units of the packets.
pub open spec fn units(frames: Seq<(u64, Seq<u8>)>) -> Seq<Seq<u8>> {
    Seq::new(frames.len(), |i: int| frames[i].1)
}

impl View for IvfFile {
    type V = IvfFile<Seq<(u64, Seq<u8>)>>;

    open spec fn view(&self) -> IvfFile<Seq<(u64, Seq<u8>)>> {
        IvfFile {
            width: self.width,
            height: self.height,
            timebase_den: self.timebase_den,
            timebase_num: self.timebase_num,
            frames: packets(self.frames@),
        }
    }
}

// ---------- frame rate ----------

/// Greatest common divisor; 1 where both are zero.
pub open spec fn gcd_of(a: nat, b: nat) -> nat
    decreases b,
{
    if b == 0 {
        if a == 0 {
            1
        } else {
            a
        }
    } else {
        gcd_of(b, a % b)
    }
}

/// The greatest common divisor divides both numbers.
pub proof fn lemma_gcd_divides(a: nat, b: nat)
    ensures
        gcd_of(a, b) > 0,
        a % gcd_of(a, b) == 0,
        b % gcd_of(a, b) == 0,
    decreases b,
{
    let g = gcd_of(a, b);
    if b == 0 {
        if a != 0 {
            vstd::arithmetic::div_mod::lemma_mod_self_0(a as int);
        }
    } else {
        lemma_gcd_divides(b, a % b);
        let q = a / b;
        vstd::arithmetic::div_mod::lemma_fundamental_div_mod(a as int, b as int);
        vstd::arithmetic::div_mod::lemma_fundamental_div_mod(b as int, g as int);
        vstd::arithmetic::div_mod::lemma_fundamental_div_mod((a % b) as int, g as int);
        let kb = b / g;
        let kr = (a % b) / g;
        assert(a == g * (kb * q + kr) + 0) by (nonlinear_arith)
            requires
                a == b * q + a % b,
                b == g * kb,
                a % b == g * kr,
        ;
        vstd::arithmetic::div_mod::lemma_fundamental_div_mod_converse(
            a as int,
            g as int,
            (kb * q + kr) as int,
            0,
        );
    }
}

/// Multiplying both numbers multiplies the greatest common divisor.
proof fn lemma_gcd_scale(k: nat, a: nat, b: nat)
    requires
        k > 0,
        a > 0 || b > 0,
    ensures
        gcd_of(k * a, k * b) == k * gcd_of(a, b),
    decreases b,
{
    if b == 0 {
        assert(k * 0 == 0);
        assert(k * a > 0) by (nonlinear_arith)
            requires
                k > 0,
                a > 0,
        ;
    } else {
        assert(k * b > 0) by (nonlinear_arith)
            requires
                k > 0,
                b > 0,
        ;
        vstd::arithmetic::div_mod::lemma_fundamental_div_mod(a as int, b as int);
        let q = a / b;
        let m = a % b;
        assert(k * a == (k * b) * q + k * m) by (nonlinear_arith)
            requires
                a == b * q + m,
        ;
        assert(0 <= k * m < k * b) by (nonlinear_arith)
            requires
                0 <= m < b,
                k > 0,
        ;
        vstd::arithmetic::div_mod::lemma_fundamental_div_mod_converse(
            (k * a) as int,
            (k * b) as int,
            q as int,
            (k * m) as int,
        );
        lemma_gcd_scale(k, b, m);
    }
}

/// A rational reduced to lowest terms.
pub open spec fn reduced(num: nat, den: nat) -> (nat, nat) {
    (num / gcd_of(num, den), den / gcd_of(num, den))
}

/// Reducing keeps the ratio and leaves no common divisor.
pub proof fn reduced_is_lowest_terms(num: nat, den: nat)
    requires
        num > 0,
        den > 0,
    ensures
        reduced(num, den).0 * den == num * reduced(num, den).1,
        gcd_of(reduced(num, den).0, reduced(num, den).1) == 1,
        0 < reduced(num, den).0 <= num,
        0 < reduced(num, den).1 <= den,
{
    let g = gcd_of(num, den);
    let (n, d) = reduced(num, den);
    lemma_gcd_divides(num, den);
    vstd::arithmetic::div_mod::lemma_fundamental_div_mod(num as int, g as int);
    vstd::arithmetic::div_mod::lemma_fundamental_div_mod(den as int, g as int);
    assert(num == g * n && den == g * d);
    assert(n * (g * d) == (g * n) * d) by (nonlinear_arith);
    assert(n > 0 && d > 0) by (nonlinear_arith)
        requires
            g * n > 0,
            g * d > 0,
            n >= 0,
            d >= 0,
    ;
    assert(n <= g * n && d <= g * d) by (nonlinear_arith)
        requires
            g >= 1,
            n > 0,
            d > 0,
    ;
    lemma_gcd_scale(g, n, d);
    assert(gcd_of(n, d) == 1) by (nonlinear_arith)
        requires
            g == g * gcd_of(n, d),
            g > 0,
    ;
}

/// Greatest common divisor (Euclid).
pub(crate) fn gcd(a: u64, b: u64) -> (r: u64)
    ensures
        r == gcd_of(a as nat, b as nat),
        r > 0,
{
    let mut a: u64 = a;
    let mut b: u64 = b;
    let ghost g = gcd_of(a as nat, b as nat);
    while b != 0
        invariant
            gcd_of(a as nat, b as nat) == g,
        decreases b,
    {
        let m: u64 = a % b;
        a = b;
        b = m;
    }
    if a == 0 {
        1
    } else {
        a
    }
}

impl<F> IvfFile<F> {
    /// The frame rate that the timebase stands for; 30/1 where it is not set.
    pub open spec fn frame_rate(self) -> (nat, nat) {
        if self.timebase_den == 0 || self.timebase_num == 0 {
            (30, 1)
        } else {
            reduced(self.timebase_den as nat, self.timebase_num as nat)
        }
    }
}

impl IvfFile {
    /// Frame rate as a reduced rational `(num, den)` in frames/second
    /// (e.g. `(30000, 1001)` for NTSC). IVF stores it directly as
    /// `timebase_den`/`timebase_num`; a zero in either field means the
    /// muxer didn't know the rate — treated as unset, defaulting to
    /// 30/1.
    pub fn rate(&self) -> (r: (u32, u32))
        ensures
            (r.0 as nat, r.1 as nat) == self.frame_rate(),
            r.0 > 0,
            r.1 > 0,
    {
        if self.timebase_den == 0 || self.timebase_num == 0 {
            return (30, 1);
        }
        proof {
            reduced_is_lowest_terms(self.timebase_den as nat, self.timebase_num as nat);
        }
        let g = gcd(self.timebase_den as u64, self.timebase_num as u64);
        ((self.timebase_den as u64 / g) as u32, (self.timebase_num as u64 / g) as u32)
    }
}

// ---------- reading ----------

/// The packets of `data`, each behind a 12-byte header.
pub open spec fn packets_of(data: Seq<u8>) -> Result<Seq<(u64, Seq<u8>)>, Error>
    decreases data.len(),
{
    if data.len() == 0 {
        Ok(Seq::empty())
    } else if data.len() < 12 {
        Err(Error::IvfFrameHeaderTruncated)
    } else {
        let size = bytes::le_value(data.subrange(0, 4));
        let ts = bytes::le_value(data.subrange(4, 12)) as u64;
        if 12 + size > data.len() {
            Err(Error::IvfFramePayloadTruncated)
        } else {
            match packets_of(data.skip((12 + size) as int)) {
                Err(e) => Err(e),
                Ok(rest) => Ok(seq![(ts, data.subrange(12, (12 + size) as int))] + rest),
            }
        }
    }
}

/// The timebase as a reader takes it: 30/1 where the file leaves it unset.
pub open spec fn timebase_of(den: u32, num: u32) -> (u32, u32) {
    if den == 0 || num == 0 {
        (30, 1)
    } else {
        (den, num)
    }
}

/// The tag of an IVF file.
pub open spec fn dkif() -> Seq<u8> {
    seq![0x44, 0x4b, 0x49, 0x46]
}

/// The codec tag of AV1.
pub open spec fn av01() -> Seq<u8> {
    seq![0x41, 0x56, 0x30, 0x31]
}

/// What the IVF file `data` holds, or the first thing wrong with it.
pub open spec fn ivf_of(data: Seq<u8>) -> Result<IvfFile<Seq<(u64, Seq<u8>)>>, Error> {
    let version = bytes::le_value(data.subrange(4, 6)) as u16;
    let header_len = bytes::le_value(data.subrange(6, 8)) as usize;
    if data.len() < 32 {
        Err(Error::IvfHeaderTruncated)
    } else if data.subrange(0, 4) != dkif() {
        Err(Error::NotIvf)
    } else if version != 0 {
        Err(Error::IvfVersion(version))
    } else if header_len < 32 {
        Err(Error::IvfHeaderLenTooSmall(header_len))
    } else if header_len > data.len() {
        Err(Error::IvfHeaderLenTooLarge { header_len, file_len: data.len() as usize })
    } else if data.subrange(8, 12) != av01() {
        Err(Error::IvfFourcc)
    } else {
        match packets_of(data.skip(header_len as int)) {
            Err(e) => Err(e),
            Ok(frames) => {
                let (den, num) = timebase_of(
                    bytes::le_value(data.subrange(16, 20)) as u32,
                    bytes::le_value(data.subrange(20, 24)) as u32,
                );
                Ok(
                    IvfFile {
                        width: bytes::le_value(data.subrange(12, 14)) as u16,
                        height: bytes::le_value(data.subrange(14, 16)) as u16,
                        timebase_den: den,
                        timebase_num: num,
                        frames,
                    },
                )
            },
        }
    }
}

/// `r` behind the packets of `done`.
pub open spec fn after(
    done: Seq<(u64, Seq<u8>)>,
    r: Result<Seq<(u64, Seq<u8>)>, Error>,
) -> Result<Seq<(u64, Seq<u8>)>, Error> {
    match r {
        Ok(rest) => Ok(done + rest),
        Err(e) => Err(e),
    }
}

fn read_packets(data: &[u8], start: usize) -> (res: Result<Vec<(u64, Vec<u8>)>, Error>)
    requires
        start <= data@.len(),
    ensures
        match res {
            Ok(v) => packets_of(data@.skip(start as int)) == Ok::<Seq<(u64, Seq<u8>)>, Error>(
                packets(v@),
            ),
            Err(e) => packets_of(data@.skip(start as int)) == Err::<Seq<(u64, Seq<u8>)>, Error>(e),
        },
{
    let mut frames: Vec<(u64, Vec<u8>)> = Vec::new();
    let mut off: usize = start;
    let ghost owed = packets_of(data@.skip(start as int));
    proof {
        bytes::lemma_pow256();
        if owed is Ok {
            assert(packets(frames@) + owed->Ok_0 =~= owed->Ok_0);
        }
    }
    while off < data.len()
        invariant
            off <= data@.len(),
            owed == packets_of(data@.skip(start as int)),
            owed == after(packets(frames@), packets_of(data@.skip(off as int))),
            bytes::pow256(4) == 0x1_0000_0000,
        decreases data@.len() - off,
    {
        let ghost d = data@.skip(off as int);
        let ghost done = packets(frames@);
        if data.len() - off < 12 {
            return Err(Error::IvfFrameHeaderTruncated);
        }
        let size = bytes::get_le(data, off, 4);
        let ts = bytes::get_le(data, off + 4, 8);
        proof {
            assert(d.subrange(0, 4) =~= data@.subrange(off as int, off + 4));
            assert(d.subrange(4, 12) =~= data@.subrange(off + 4, off + 12));
        }
        off = off + 12;
        if size > (data.len() - off) as u64 {
            return Err(Error::IvfFramePayloadTruncated);
        }
        let end: usize = off + size as usize;
        let tu = vstd::slice::slice_to_vec(vstd::slice::slice_subrange(data, off, end));
        frames.push((ts, tu));
        proof {
            assert(tu@ =~= d.subrange(12, (12 + size) as int));
            assert(d.skip((12 + size) as int) =~= data@.skip(end as int));
            assert(packets(frames@) =~= done.push((ts, tu@)));
            if packets_of(data@.skip(end as int)) is Ok {
                let rest = packets_of(data@.skip(end as int))->Ok_0;
                assert(done + (seq![(ts, tu@)] + rest) =~= done.push((ts, tu@)) + rest);
            }
        }
        off = end;
    }
    assert(data@.skip(off as int).len() == 0);
    assert(packets(frames@) + Seq::<(u64, Seq<u8>)>::empty() =~= packets(frames@));
    Ok(frames)
}

pub fn read(data: &[u8]) -> (res: Result<IvfFile, Error>)
    ensures
        model::view_ok(res) == ivf_of(data@),
{
    proof {
        bytes::lemma_pow256();
    }
    if data.len() < 32 {
        return Err(Error::IvfHeaderTruncated);
    }
    let dkif_tag: [u8; 4] = [0x44, 0x4b, 0x49, 0x46];
    let av01_tag: [u8; 4] = [0x41, 0x56, 0x30, 0x31];
    assert(dkif_tag@ =~= dkif());
    assert(av01_tag@ =~= av01());
    if !bytes::has_tag(data, 0, dkif_tag) {
        return Err(Error::NotIvf);
    }
    let version = bytes::get_le(data, 4, 2) as u16;
    if version != 0 {
        return Err(Error::IvfVersion(version));
    }
    // Packets start at the declared header length, not at 32: muxers may
    // pad the header, and skipping the extension is what keeps the first
    // packet's framing intact.
    let header_len = bytes::get_le(data, 6, 2) as usize;
    if header_len < 32 {
        return Err(Error::IvfHeaderLenTooSmall(header_len));
    }
    if header_len > data.len() {
        return Err(Error::IvfHeaderLenTooLarge { header_len, file_len: data.len() });
    }
    if !bytes::has_tag(data, 8, av01_tag) {
        return Err(Error::IvfFourcc);
    }
    let width = bytes::get_le(data, 12, 2) as u16;
    let height = bytes::get_le(data, 14, 2) as u16;
    let den = bytes::get_le(data, 16, 4) as u32;
    let num = bytes::get_le(data, 20, 4) as u32;
    // A zero in either field means the muxer didn't know the rate —
    // normalize to the unset default so downstream never sees a
    // zero-rate timebase.
    let (timebase_den, timebase_num): (u32, u32) = if den == 0 || num == 0 {
        (30, 1)
    } else {
        (den, num)
    };
    let frames = read_packets(data, header_len)?;
    Ok(IvfFile { width, height, timebase_den, timebase_num, frames })
}

// ---------- writing ----------

/// One packet behind its header: the low 32 bits of its size, the timestamp.
pub open spec fn packet_bytes(p: (u64, Seq<u8>)) -> Seq<u8> {
    bytes::le_bytes(4, p.1.len()) + bytes::le_bytes(8, p.0 as nat) + p.1
}

/// The 32-byte header, `count` being the number of packets.
pub open spec fn header_bytes(f: IvfFile<Seq<(u64, Seq<u8>)>>) -> Seq<u8> {
    dkif() + bytes::le_bytes(2, 0) + bytes::le_bytes(2, 32) + av01() + bytes::le_bytes(
        2,
        f.width as nat,
    ) + bytes::le_bytes(2, f.height as nat) + bytes::le_bytes(4, f.timebase_den as nat)
        + bytes::le_bytes(4, f.timebase_num as nat) + bytes::le_bytes(4, f.frames.len())
        + bytes::le_bytes(4, 0)
}

/// The packets one after another.
pub open spec fn all_packet_bytes(frames: Seq<(u64, Seq<u8>)>) -> Seq<u8> {
    model::concat(Seq::new(frames.len(), |i: int| packet_bytes(frames[i])))
}

/// The IVF file with these packets.
pub open spec fn ivf_bytes(f: IvfFile<Seq<(u64, Seq<u8>)>>) -> Seq<u8> {
    header_bytes(f) + all_packet_bytes(f.frames)
}

fn put_tag(out: &mut Vec<u8>, tag: [u8; 4])
    ensures
        final(out)@ == old(out)@ + tag@,
{
    out.push(tag[0]);
    out.push(tag[1]);
    out.push(tag[2]);
    out.push(tag[3]);
    assert(out@ =~= old(out)@ + tag@);
}

pub fn write(f: &IvfFile) -> (r: Vec<u8>)
    ensures
        r@ == ivf_bytes(f@),
{
    let mut out: Vec<u8> = Vec::new();
    let dkif_tag: [u8; 4] = [0x44, 0x4b, 0x49, 0x46];
    let av01_tag: [u8; 4] = [0x41, 0x56, 0x30, 0x31];
    assert(dkif_tag@ =~= dkif());
    assert(av01_tag@ =~= av01());
    put_tag(&mut out, dkif_tag);
    bytes::put_le(&mut out, 2, 0);  // version
    bytes::put_le(&mut out, 2, 32);  // header length
    put_tag(&mut out, av01_tag);
    bytes::put_le(&mut out, 2, f.width as u64);
    bytes::put_le(&mut out, 2, f.height as u64);
    bytes::put_le(&mut out, 4, f.timebase_den as u64);
    bytes::put_le(&mut out, 4, f.timebase_num as u64);
    bytes::put_le(&mut out, 4, f.frames.len() as u64);
    bytes::put_le(&mut out, 4, 0);
    assert(out@ =~= header_bytes(f@));
    let ghost parts = Seq::new(f@.frames.len(), |i: int| packet_bytes(f@.frames[i]));
    let mut i: usize = 0;
    assert(parts.take(0) =~= Seq::empty());
    assert(header_bytes(f@) + model::concat(parts.take(0)) =~= header_bytes(f@));
    while i < f.frames.len()
        invariant
            i <= f.frames@.len(),
            parts == Seq::new(f@.frames.len(), |i: int| packet_bytes(f@.frames[i])),
            out@ == header_bytes(f@) + model::concat(parts.take(i as int)),
        decreases f.frames@.len() - i,
    {
        let ghost before = out@;
        let ts = f.frames[i].0;
        bytes::put_le(&mut out, 4, f.frames[i].1.len() as u64);
        bytes::put_le(&mut out, 8, ts);
        out.extend_from_slice(&f.frames[i].1);
        proof {
            assert(out@ =~= before + packet_bytes(f@.frames[i as int]));
            assert(parts.take(i + 1) =~= parts.take(i as int).push(parts[i as int]));
            model::lemma_concat_push(parts.take(i as int), parts[i as int]);
        }
        i = i + 1;
        assert(out@ =~= header_bytes(f@) + model::concat(parts.take(i as int)));
    }
    assert(parts.take(i as int) =~= parts);
    out
}

// ---------- reading back what was written ----------

proof fn lemma_packets_round_trip(frames: Seq<(u64, Seq<u8>)>)
    requires
        forall|i: int| 0 <= i < frames.len() ==> (#[trigger] frames[i]).1.len() <= u32::MAX,
    ensures
        packets_of(all_packet_bytes(frames)) == Ok::<Seq<(u64, Seq<u8>)>, Error>(frames),
    decreases frames.len(),
{
    let parts = Seq::new(frames.len(), |i: int| packet_bytes(frames[i]));
    let data = all_packet_bytes(frames);
    bytes::lemma_pow256();
    if frames.len() == 0 {
        assert(frames =~= Seq::empty());
    } else {
        let rest = frames.skip(1);
        model::lemma_concat_front(parts);
        assert(parts.skip(1) =~= Seq::new(rest.len(), |i: int| packet_bytes(rest[i])));
        lemma_packets_round_trip(rest);
        let (ts, tu) = frames[0];
        let size = bytes::le_bytes(4, tu.len());
        let stamp = bytes::le_bytes(8, ts as nat);
        bytes::lemma_le_bytes_len(4, tu.len());
        bytes::lemma_le_bytes_len(8, ts as nat);
        bytes::le_round_trip(4, tu.len());
        bytes::le_round_trip(8, ts as nat);
        assert(data =~= size + stamp + tu + all_packet_bytes(rest));
        assert(data.subrange(0, 4) =~= size);
        assert(data.subrange(4, 12) =~= stamp);
        assert(data.subrange(12, (12 + tu.len()) as int) =~= tu);
        assert(data.skip((12 + tu.len()) as int) =~= all_packet_bytes(rest));
        assert(seq![frames[0]] + rest =~= frames);
    }
}

/// Reading a file that was written gives the same geometry, timebase and
/// packets, for packets whose size fits its field; a timebase that was not set
/// is read as 30/1.
pub proof fn ivf_round_trip(f: IvfFile<Seq<(u64, Seq<u8>)>>)
    requires
        forall|i: int| 0 <= i < f.frames.len() ==> (#[trigger] f.frames[i]).1.len() <= u32::MAX,
    ensures
        ivf_of(ivf_bytes(f)) == Ok::<IvfFile<Seq<(u64, Seq<u8>)>>, Error>(
            (IvfFile {
                timebase_den: timebase_of(f.timebase_den, f.timebase_num).0,
                timebase_num: timebase_of(f.timebase_den, f.timebase_num).1,
                ..f
            }),
        ),
{
    broadcast use bytes::lemma_le_bytes_len;

    let data = ivf_bytes(f);
    let head = header_bytes(f);
    lemma_packets_round_trip(f.frames);
    bytes::lemma_pow256();
    bytes::le_round_trip(2, 0);
    bytes::le_round_trip(2, 32);
    bytes::le_round_trip(2, f.width as nat);
    bytes::le_round_trip(2, f.height as nat);
    bytes::le_round_trip(4, f.timebase_den as nat);
    bytes::le_round_trip(4, f.timebase_num as nat);
    assert(data.subrange(0, 4) =~= dkif());
    assert(data.subrange(4, 6) =~= bytes::le_bytes(2, 0));
    assert(data.subrange(6, 8) =~= bytes::le_bytes(2, 32));
    assert(data.subrange(8, 12) =~= av01());
    assert(data.subrange(12, 14) =~= bytes::le_bytes(2, f.width as nat));
    assert(data.subrange(14, 16) =~= bytes::le_bytes(2, f.height as nat));
    assert(data.subrange(16, 20) =~= bytes::le_bytes(4, f.timebase_den as nat));
    assert(data.subrange(20, 24) =~= bytes::le_bytes(4, f.timebase_num as nat));
    assert(data.skip(32) =~= all_packet_bytes(f.frames));
}

/// No file that was read carries a zero in its timebase.
pub proof fn read_timebase_is_set(data: Seq<u8>)
    ensures
        ivf_of(data) matches Ok(f) ==> f.timebase_den != 0 && f.timebase_num != 0,
{
}

} // verus!
