//! The boxes that do not depend on the samples.

use vstd::prelude::*;
use vstd::utf8::*;

use crate::bytes;

verus! {

// ---------- box helpers ----------

/// A four-character code.
pub open spec fn four(a: char, b: char, c: char, d: char) -> Seq<u8> {
    seq![a as u8, b as u8, c as u8, d as u8]
}

pub open spec fn u16be(v: nat) -> Seq<u8> {
    bytes::be_bytes(2, v)
}

pub open spec fn u32be(v: nat) -> Seq<u8> {
    bytes::be_bytes(4, v)
}

pub open spec fn nulls(n: nat) -> Seq<u8> {
    Seq::new(n, |i: int| 0u8)
}

/// A box: its size, its type and what it holds.
pub open spec fn box_bytes(fourcc: Seq<u8>, payload: Seq<u8>) -> Seq<u8> {
    u32be(payload.len() + 8) + fourcc + payload
}

/// A box with a version and flags.
pub open spec fn full_box_bytes(fourcc: Seq<u8>, version: u8, flags: nat, payload: Seq<u8>) -> Seq<
    u8,
> {
    box_bytes(fourcc, seq![version] + bytes::be_bytes(3, flags) + payload)
}

pub(crate) fn code(a: char, b: char, c: char, d: char) -> (r: [u8; 4])
    requires
        a <= '\u{ff}',
        b <= '\u{ff}',
        c <= '\u{ff}',
        d <= '\u{ff}',
    ensures
        r@ == four(a, b, c, d),
{
    let r: [u8; 4] = [a as u8, b as u8, c as u8, d as u8];
    assert(r@ =~= four(a, b, c, d));
    r
}

/// A box of the given type around `payload`.
pub fn bx(fourcc: &[u8; 4], payload: &[u8]) -> (r: Vec<u8>)
    ensures
        r@ == box_bytes(fourcc@, payload@),
{
    let mut v = bytes::be_sum(4, payload.len(), 8, 0);
    v.push(fourcc[0]);
    v.push(fourcc[1]);
    v.push(fourcc[2]);
    v.push(fourcc[3]);
    assert(v@ =~= u32be(payload@.len() + 8) + fourcc@);
    v.extend_from_slice(payload);
    v
}

pub(crate) fn full_box(fourcc: &[u8; 4], version: u8, flags: u32, payload: &[u8]) -> (r: Vec<u8>)
    ensures
        r@ == full_box_bytes(fourcc@, version, flags as nat, payload@),
{
    let mut p: Vec<u8> = Vec::new();
    p.push(version);
    assert(p@ =~= seq![version]);
    bytes::put_be(&mut p, 3, flags as u64);
    p.extend_from_slice(payload);
    bx(fourcc, &p)
}

pub(crate) fn put_nulls(out: &mut Vec<u8>, n: usize)
    ensures
        final(out)@ == old(out)@ + nulls(n as nat),
{
    let mut i: usize = 0;
    assert(out@ + nulls(0) =~= out@);
    while i < n
        invariant
            i <= n,
            out@ == old(out)@ + nulls(i as nat),
        decreases n - i,
    {
        out.push(0);
        i = i + 1;
        assert(out@ =~= old(out)@ + nulls(i as nat));
    }
}

// ---------- movie and track headers ----------

/// The identity matrix.
pub open spec fn matrix_bytes() -> Seq<u8> {
    u32be(0x0001_0000) + nulls(12) + u32be(0x0001_0000) + nulls(12) + u32be(0x4000_0000)
}

#[verifier::opaque]
pub open spec fn mvhd_bytes(duration_ms: u32) -> Seq<u8> {
    full_box_bytes(
        four('m', 'v', 'h', 'd'),
        0,
        0,
        // creation and modification time, timescale, duration
        nulls(8) + u32be(1000) + u32be(duration_ms as nat)
        // rate, volume, reserved
        + u32be(0x0001_0000) + u16be(0x0100) + nulls(10) + matrix_bytes()
        // pre-defined, next track id
        + nulls(24) + u32be(3),
    )
}

#[verifier::opaque]
pub open spec fn tkhd_bytes(
    track_id: u32,
    duration_ms: u32,
    width: u16,
    height: u16,
    volume: u16,
) -> Seq<u8> {
    full_box_bytes(
        four('t', 'k', 'h', 'd'),
        0,
        3,
        // creation and modification time, track id, reserved, duration, reserved
        nulls(8) + u32be(track_id as nat) + nulls(4) + u32be(duration_ms as nat) + nulls(8)
        // layer and alternate group, volume, reserved
        + nulls(4) + u16be(volume as nat) + nulls(2) + matrix_bytes()
        // size as 16.16
        + u32be((width * 0x1_0000) as nat) + u32be((height * 0x1_0000) as nat),
    )
}

fn put_matrix(p: &mut Vec<u8>)
    ensures
        final(p)@ == old(p)@ + matrix_bytes(),
{
    let mut m = bytes::be(4, 0x0001_0000);
    put_nulls(&mut m, 12);
    bytes::put_be(&mut m, 4, 0x0001_0000);
    put_nulls(&mut m, 12);
    bytes::put_be(&mut m, 4, 0x4000_0000);
    p.extend_from_slice(&m);
}

pub(crate) fn start_nulls(n: usize) -> (r: Vec<u8>)
    ensures
        r@ == nulls(n as nat),
{
    let mut p: Vec<u8> = Vec::new();
    put_nulls(&mut p, n);
    assert(p@ =~= nulls(n as nat));
    p
}

pub(crate) fn mvhd(duration_ms: u32) -> (r: Vec<u8>)
    ensures
        r@ == mvhd_bytes(duration_ms),
{
    proof {
        reveal(mvhd_bytes);
    }
    // A fixed creation time keeps the output deterministic.
    let mut p = start_nulls(8);
    bytes::put_be(&mut p, 4, 1000);
    bytes::put_be(&mut p, 4, duration_ms as u64);
    bytes::put_be(&mut p, 4, 0x0001_0000);
    bytes::put_be(&mut p, 2, 0x0100);
    put_nulls(&mut p, 10);
    put_matrix(&mut p);
    put_nulls(&mut p, 24);
    bytes::put_be(&mut p, 4, 3);
    full_box(&code('m', 'v', 'h', 'd'), 0, 0, &p)
}

pub(crate) fn tkhd(track_id: u32, duration_ms: u32, width: u16, height: u16, volume: u16) -> (r: Vec<
    u8,
>)
    ensures
        r@ == tkhd_bytes(track_id, duration_ms, width, height, volume),
{
    proof {
        reveal(tkhd_bytes);
    }
    let mut p = start_nulls(8);
    bytes::put_be(&mut p, 4, track_id as u64);
    put_nulls(&mut p, 4);
    bytes::put_be(&mut p, 4, duration_ms as u64);
    put_nulls(&mut p, 8);
    put_nulls(&mut p, 4);
    bytes::put_be(&mut p, 2, volume as u64);
    put_nulls(&mut p, 2);
    put_matrix(&mut p);
    bytes::put_be(&mut p, 4, width as u64 * 0x1_0000);
    bytes::put_be(&mut p, 4, height as u64 * 0x1_0000);
    full_box(&code('t', 'k', 'h', 'd'), 0, 3, &p)  // enabled | in_movie

}

// ---------- media headers ----------

/// Whether `code` is three lower-case letters.
pub open spec fn is_language(code: Seq<u8>) -> bool {
    code.len() == 3 && forall|i: int| 0 <= i < 3 ==> 0x61 <= #[trigger] code[i] <= 0x7a
}

/// An ISO-639-2 code packed into 15 bits, five for each letter; `und` where
/// it is none.
pub open spec fn language_bits(code: Option<Seq<u8>>) -> nat {
    match code {
        Some(b) => if is_language(b) {
            ((b[0] - 0x60) * 1024 + (b[1] - 0x60) * 32 + (b[2] - 0x60)) as nat
        } else {
            0x55c4
        },
        None => 0x55c4,
    }
}

pub open spec fn mdhd_bytes(timescale: u32, duration: nat, language: Option<Seq<u8>>) -> Seq<u8> {
    full_box_bytes(
        four('m', 'd', 'h', 'd'),
        0,
        0,
        nulls(8) + u32be(timescale as nat) + u32be(duration) + u16be(language_bits(language)) + nulls(
            2,
        ),
    )
}

pub open spec fn hdlr_bytes(handler: Seq<u8>, name: Seq<char>) -> Seq<u8> {
    full_box_bytes(
        four('h', 'd', 'l', 'r'),
        0,
        0,
        nulls(4) + handler + nulls(12) + encode_utf8(name) + nulls(1),
    )
}

/// The bytes of a language code.
pub open spec fn code_bytes(code: Option<Seq<char>>) -> Option<Seq<u8>> {
    match code {
        Some(c) => Some(encode_utf8(c)),
        None => None,
    }
}

/// The characters of an optional text.
pub open spec fn chars_of(text: Option<String>) -> Option<Seq<char>> {
    match text {
        Some(t) => Some(t@),
        None => None,
    }
}

fn letter(b: u8) -> (r: bool)
    ensures
        r == (0x61 <= b <= 0x7a),
{
    0x61 <= b && b <= 0x7a
}

/// Pack a 3-letter ISO-639-2 code into mdhd's 15-bit field.
fn lang_bits(language: &Option<String>) -> (r: u16)
    ensures
        r as nat == language_bits(code_bytes(chars_of(*language))),
{
    match language {
        Some(code) => {
            let b = code.as_str().as_bytes();
            if b.len() == 3 && letter(b[0]) && letter(b[1]) && letter(b[2]) {
                assert(is_language(b@));
                (b[0] - 0x60) as u16 * 1024 + (b[1] - 0x60) as u16 * 32 + (b[2] - 0x60) as u16
            } else {
                proof {
                    if is_language(b@) {
                        assert(0x61 <= b@[0] <= 0x7a && 0x61 <= b@[1] <= 0x7a && 0x61 <= b@[2]
                            <= 0x7a);
                    }
                }
                0x55c4
            }
        },
        None => 0x55c4,
    }
}

pub(crate) fn mdhd(timescale: u32, duration: u64, language: &Option<String>) -> (r: Vec<u8>)
    ensures
        r@ == mdhd_bytes(timescale, duration as nat, code_bytes(chars_of(*language))),
{
    let bits = lang_bits(language);
    let mut p = start_nulls(8);
    bytes::put_be(&mut p, 4, timescale as u64);
    bytes::put_be(&mut p, 4, duration);
    bytes::put_be(&mut p, 2, bits as u64);
    put_nulls(&mut p, 2);
    full_box(&code('m', 'd', 'h', 'd'), 0, 0, &p)
}

pub(crate) fn hdlr(handler: &[u8; 4], name: &str) -> (r: Vec<u8>)
    ensures
        r@ == hdlr_bytes(handler@, name@),
{
    let mut p = start_nulls(4);
    let ghost start = p@;
    p.push(handler[0]);
    p.push(handler[1]);
    p.push(handler[2]);
    p.push(handler[3]);
    assert(p@ =~= start + handler@);
    put_nulls(&mut p, 12);
    p.extend_from_slice(name.as_bytes());
    put_nulls(&mut p, 1);
    full_box(&code('h', 'd', 'l', 'r'), 0, 0, &p)
}

/// dinf with a dref that says the media data is in the same file.
pub open spec fn dinf_bytes() -> Seq<u8> {
    box_bytes(
        four('d', 'i', 'n', 'f'),
        full_box_bytes(
            four('d', 'r', 'e', 'f'),
            0,
            0,
            u32be(1) + full_box_bytes(four('u', 'r', 'l', ' '), 0, 1, nulls(0)),
        ),
    )
}

pub(crate) fn dinf() -> (r: Vec<u8>)
    ensures
        r@ == dinf_bytes(),
{
    let nothing = start_nulls(0);
    let url = full_box(&code('u', 'r', 'l', ' '), 0, 1, &nothing);  // self-contained
    let mut p = bytes::be(4, 1);
    p.extend_from_slice(&url);
    let dref = full_box(&code('d', 'r', 'e', 'f'), 0, 0, &p);
    bx(&code('d', 'i', 'n', 'f'), &dref)
}

/// vmhd: graphicsmode 0, opcolor black.
pub open spec fn vmhd_bytes() -> Seq<u8> {
    full_box_bytes(four('v', 'm', 'h', 'd'), 0, 1, nulls(8))
}

pub open spec fn smhd_bytes() -> Seq<u8> {
    full_box_bytes(four('s', 'm', 'h', 'd'), 0, 0, nulls(2))
}

pub open spec fn minf_bytes(header: Seq<u8>, stbl: Seq<u8>) -> Seq<u8> {
    box_bytes(four('m', 'i', 'n', 'f'), header + dinf_bytes() + stbl)
}

pub(crate) fn minf_video(stbl: &Vec<u8>) -> (r: Vec<u8>)
    ensures
        r@ == minf_bytes(vmhd_bytes(), stbl@),
{
    let p = start_nulls(8);
    let mut m = full_box(&code('v', 'm', 'h', 'd'), 0, 1, &p);
    let d = dinf();
    m.extend_from_slice(&d);
    m.extend_from_slice(stbl);
    bx(&code('m', 'i', 'n', 'f'), &m)
}

pub(crate) fn minf_audio(stbl: &Vec<u8>) -> (r: Vec<u8>)
    ensures
        r@ == minf_bytes(smhd_bytes(), stbl@),
{
    let p = start_nulls(2);
    let mut m = full_box(&code('s', 'm', 'h', 'd'), 0, 0, &p);
    let d = dinf();
    m.extend_from_slice(&d);
    m.extend_from_slice(stbl);
    bx(&code('m', 'i', 'n', 'f'), &m)
}

// ---------- laws ----------

/// The size that a box states is its length.
pub proof fn box_size_is_its_length(fourcc: Seq<u8>, payload: Seq<u8>)
    requires
        fourcc.len() == 4,
    ensures
        box_bytes(fourcc, payload).len() == payload.len() + 8,
        box_bytes(fourcc, payload).take(4) == u32be(box_bytes(fourcc, payload).len()),
{
    bytes::lemma_be_bytes_len(4, payload.len() + 8);
    assert(box_bytes(fourcc, payload).take(4) =~= u32be(payload.len() + 8));
}

} // verus!
