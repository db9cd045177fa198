//! What a reader finds in the written file: tracks, their headers and where the
//! samples are.

use vstd::prelude::*;
use vstd::utf8::*;

use crate::bytes;
use crate::fields::Field;
use crate::mp4::boxes;
use crate::mp4::movie::{self, full, identity, inside, kid, kinds};
use crate::mp4::reader::{self, children, f, holds, number, word};
use crate::mp4::tracks;
use crate::mp4::{AudioTrack, VideoTrack};

verus! {

// ---------- headers ----------

/// The fields of a track header: shown in the movie, `width` and `height` in
/// pixels.
pub open spec fn tkhd_fields(id: nat, ms: u32, width: u16, height: u16, volume: nat) -> Seq<Field> {
    full(0, 3) + (f(8, 0) + f(4, id) + f(4, 0) + f(4, ms as nat) + f(8, 0) + f(4, 0) + f(2, volume)
        + f(2, 0) + identity() + f(4, (width * 0x1_0000) as nat) + f(
        4,
        (height * 0x1_0000) as nat,
    ))
}

/// Three lower-case letters in 15 bits.
pub open spec fn packed(code: Seq<u8>) -> nat {
    ((code[0] - 0x60) * 1024 + (code[1] - 0x60) * 32 + (code[2] - 0x60)) as nat
}

/// The language of a track: undetermined where it is not three lower-case
/// letters.
pub open spec fn language(text: Option<String>) -> nat {
    if text is Some && encode_utf8(text->Some_0@).len() == 3 && (forall|i: int|
        0 <= i < 3 ==> 0x61 <= #[trigger] encode_utf8(text->Some_0@)[i] <= 0x7a) {
        packed(encode_utf8(text->Some_0@))
    } else {
        packed(seq![0x75u8, 0x6eu8, 0x64u8])
    }
}

/// Whether `s` is a media handler box's content.
pub open spec fn is_hdlr(s: Seq<u8>, handler: nat, name: Seq<u8>) -> bool {
    &&& s.len() == 24 + name.len() + 1
    &&& holds(s.take(24), full(0, 0) + (f(4, 0) + f(4, handler) + f(12, 0)))
    &&& s.skip(24) == name.push(0)
}

/// Whether `s` says that the media data is in the same file.
pub open spec fn is_dinf(s: Seq<u8>) -> bool {
    &&& kinds(s, seq![word('d', 'r', 'e', 'f')])
    &&& holds(kid(s, 0).take(8), full(0, 0) + f(4, 1))
    &&& kinds(kid(s, 0).skip(8), seq![word('u', 'r', 'l', ' ')])
    &&& holds(kid(kid(s, 0).skip(8), 0), full(0, 1))
}

pub proof fn lemma_tkhd(id: u32, ms: u32, width: u16, height: u16, volume: u16) -> (p: Seq<u8>)
    ensures
        children(boxes::tkhd_bytes(id, ms, width, height, volume)) == Some(
            seq![(word('t', 'k', 'h', 'd'), p)],
        ),
        holds(p, tkhd_fields(id as nat, ms, width, height, volume as nat)),
        p.len() == 84,
        number(p.subrange(76, 80)) == width * 0x1_0000,
        number(p.subrange(80, 84)) == height * 0x1_0000,
{
    broadcast use {bytes::lemma_be_bytes_len, reader::group_holds};

    reveal(boxes::tkhd_bytes);
    bytes::lemma_pow256();
    let w = boxes::u32be((width * 0x1_0000) as nat);
    let h = boxes::u32be((height * 0x1_0000) as nat);
    let q = boxes::nulls(8) + boxes::u32be(id as nat) + boxes::nulls(4) + boxes::u32be(ms as nat)
        + boxes::nulls(8) + boxes::nulls(4) + boxes::u16be(volume as nat) + boxes::nulls(2)
        + boxes::matrix_bytes() + w + h;
    movie::lemma_full(boxes::four('t', 'k', 'h', 'd'), 0, 3, q);
    reader::lemma_number_four('t', 'k', 'h', 'd');
    assert(holds(boxes::matrix_bytes(), identity()));
    assert(holds(
        q,
        f(8, 0) + f(4, id as nat) + f(4, 0) + f(4, ms as nat) + f(8, 0) + f(4, 0) + f(
            2,
            volume as nat,
        ) + f(2, 0) + identity() + f(4, (width * 0x1_0000) as nat) + f(
            4,
            (height * 0x1_0000) as nat,
        ),
    ));
    let p = inside(0, 3, q);
    assert(p.subrange(76, 80) =~= w);
    assert(p.subrange(80, 84) =~= h);
    reader::lemma_number_be(4, (width * 0x1_0000) as nat);
    reader::lemma_number_be(4, (height * 0x1_0000) as nat);
    p
}

pub proof fn lemma_mdhd(timescale: u32, duration: nat, bits: nat, lang: Option<Seq<u8>>) -> (p: Seq<u8>)
    requires
        bits == boxes::language_bits(lang),
    ensures
        children(boxes::mdhd_bytes(timescale, duration, lang)) == Some(
            seq![(word('m', 'd', 'h', 'd'), p)],
        ),
        holds(
            p,
            full(0, 0) + (f(8, 0) + f(4, timescale as nat) + f(4, duration % 0x1_0000_0000) + f(
                2,
                bits,
            ) + f(2, 0)),
        ),
{
    broadcast use {bytes::lemma_be_bytes_len, reader::group_holds};

    bytes::lemma_pow256();
    reader::lemma_holds_low(4, duration);
    assert(bits < 0x1_0000);
    let q = boxes::nulls(8) + boxes::u32be(timescale as nat) + boxes::u32be(duration)
        + boxes::u16be(bits) + boxes::nulls(2);
    movie::lemma_full(boxes::four('m', 'd', 'h', 'd'), 0, 0, q);
    reader::lemma_number_four('m', 'd', 'h', 'd');
    inside(0, 0, q)
}

pub proof fn lemma_hdlr(a: char, b: char, c: char, d: char, name: Seq<char>) -> (p: Seq<u8>)
    requires
        a <= '\u{ff}',
        b <= '\u{ff}',
        c <= '\u{ff}',
        d <= '\u{ff}',
        encode_utf8(name).len() + 33 <= u32::MAX,
    ensures
        children(boxes::hdlr_bytes(boxes::four(a, b, c, d), name)) == Some(
            seq![(word('h', 'd', 'l', 'r'), p)],
        ),
        is_hdlr(p, word(a, b, c, d), encode_utf8(name)),
{
    broadcast use {bytes::lemma_be_bytes_len, reader::group_holds};

    let head = boxes::nulls(4) + boxes::four(a, b, c, d) + boxes::nulls(12);
    let q = head + encode_utf8(name) + boxes::nulls(1);
    movie::lemma_full(boxes::four('h', 'd', 'l', 'r'), 0, 0, q);
    reader::lemma_number_four('h', 'd', 'l', 'r');
    let p = inside(0, 0, q);
    let front = seq![0u8] + bytes::be_bytes(3, 0) + head;
    assert(p.take(24) =~= front);
    reveal_with_fuel(bytes::pow256, 4);
    assert(holds(front, full(0, 0) + (f(4, 0) + f(4, word(a, b, c, d)) + f(12, 0))));
    assert(p.skip(24) =~= encode_utf8(name).push(0));
    p
}

pub proof fn lemma_dinf() -> (p: Seq<u8>)
    ensures
        children(boxes::dinf_bytes()) == Some(seq![(word('d', 'i', 'n', 'f'), p)]),
        is_dinf(p),
{
    broadcast use {bytes::lemma_be_bytes_len, reader::group_holds, reader::group_children};

    reveal_with_fuel(bytes::pow256, 5);
    let none = boxes::nulls(0);
    let url = boxes::full_box_bytes(boxes::four('u', 'r', 'l', ' '), 0, 1, none);
    movie::lemma_full(boxes::four('u', 'r', 'l', ' '), 0, 1, none);
    let q = boxes::u32be(1) + url;
    let dref = boxes::full_box_bytes(boxes::four('d', 'r', 'e', 'f'), 0, 0, q);
    movie::lemma_full(boxes::four('d', 'r', 'e', 'f'), 0, 0, q);
    let s = inside(0, 0, q);
    let head = seq![0u8] + bytes::be_bytes(3, 0) + bytes::be_bytes(4, 1);
    assert(s.take(8) =~= head);
    assert(holds(head, full(0, 0) + f(4, 1)));
    assert(s.skip(8) =~= url);
    assert(inside(0, 1, none) =~= seq![0u8] + bytes::be_bytes(3, 1));
    dref
}

// ---------- sample entries ----------

/// Whether `s` describes the video: its size in pixels, 72 dpi, and the AV1
/// configuration in a box at the end.
pub open spec fn is_av01(s: Seq<u8>, t: VideoTrack) -> bool {
    &&& s.len() >= 78
    &&& holds(
        s.take(78),
        f(6, 0) + f(2, 1) + f(16, 0) + f(2, t.width as nat) + f(2, t.height as nat) + f(
            4,
            0x48_0000,
        ) + f(4, 0x48_0000) + f(4, 0) + f(2, 1) + f(4, word('a', 'v', '0', '1')) + f(28, 0) + f(
            2,
            0x18,
        ) + f(2, 0xffff),
    )
    &&& number(s.subrange(24, 26)) == t.width
    &&& number(s.subrange(26, 28)) == t.height
    &&& children(s.skip(78)) == Some(seq![(word('a', 'v', '1', 'C'), t.av1c@)])
}

pub proof fn lemma_av01(t: VideoTrack) -> (p: Seq<u8>)
    requires
        tracks::av01_bytes(t).len() <= u32::MAX,
    ensures
        tracks::av01_bytes(t) == boxes::box_bytes(boxes::four('a', 'v', '0', '1'), p),
        is_av01(p, t),
{
    broadcast use {bytes::lemma_be_bytes_len, reader::group_holds};

    bytes::lemma_pow256();
    let w = boxes::u16be(t.width as nat);
    let h = boxes::u16be(t.height as nat);
    let head = boxes::nulls(6) + boxes::u16be(1) + boxes::nulls(16) + w + h + boxes::u32be(
        0x0048_0000,
    ) + boxes::u32be(0x0048_0000) + boxes::nulls(4) + boxes::u16be(1) + boxes::four(
        'a',
        'v',
        '0',
        '1',
    ) + boxes::nulls(28) + boxes::u16be(0x0018) + boxes::u16be(0xffff);
    let b = boxes::box_bytes(boxes::four('a', 'v', '1', 'C'), t.av1c@);
    let p = head + b;
    assert(tracks::av01_bytes(t) == boxes::box_bytes(boxes::four('a', 'v', '0', '1'), p));
    assert(p.take(78) =~= head);
    assert(p.skip(78) =~= b);
    reader::lemma_children_box(boxes::four('a', 'v', '1', 'C'), t.av1c@);
    reader::lemma_number_four('a', 'v', '1', 'C');
    assert(p.subrange(24, 26) =~= w);
    assert(p.subrange(26, 28) =~= h);
    reader::lemma_number_be(2, t.width as nat);
    reader::lemma_number_be(2, t.height as nat);
    p
}

/// Whether `s` describes AAC audio: elementary stream 1, the bitrates and the
/// decoder's configuration, in descriptors with one-byte lengths.
pub open spec fn is_esds(s: Seq<u8>, t: AudioTrack) -> bool {
    let n = t.audio_specific_config@.len();
    &&& s.len() == 26 + n
    &&& holds(
        s.take(26),
        full(0, 0) + f(1, 3) + f(1, (n + 20) % 256) + f(2, 1) + f(1, 0) + f(1, 4) + f(
            1,
            (n + 15) % 256,
        ) + f(1, 0x40) + f(1, 0x15) + f(3, 0) + f(4, t.max_bitrate as nat) + f(
            4,
            t.avg_bitrate as nat,
        ) + f(1, 5) + f(1, n % 256),
    )
    &&& s.skip(26) == t.audio_specific_config@
}

/// Whether `s` describes the audio: its channels, its rate and its stream.
pub open spec fn is_mp4a(s: Seq<u8>, t: AudioTrack) -> bool {
    &&& s.len() >= 28
    &&& holds(
        s.take(28),
        f(6, 0) + f(2, 1) + f(8, 0) + f(2, t.channels as nat) + f(2, 16) + f(4, 0) + f(
            4,
            ((t.sample_rate * 0x1_0000) % 0x1_0000_0000) as nat,
        ),
    )
    &&& kinds(s.skip(28), seq![word('e', 's', 'd', 's')])
    &&& is_esds(kid(s.skip(28), 0), t)
}

proof fn lemma_esds(t: AudioTrack) -> (p: Seq<u8>)
    requires
        tracks::esds_bytes(t).len() <= u32::MAX,
    ensures
        children(tracks::esds_bytes(t)) == Some(seq![(word('e', 's', 'd', 's'), p)]),
        is_esds(p, t),
{
    broadcast use {bytes::lemma_be_bytes_len, reader::group_holds};

    bytes::lemma_pow256();
    reveal_with_fuel(bytes::pow256, 4);
    let asc = t.audio_specific_config@;
    let n = asc.len();
    let dsi = tracks::specific_info_bytes(t);
    let dcd = tracks::decoder_config_bytes(t);
    assert(dsi.len() == n + 2);
    assert(dcd.len() == n + 17);
    let q = seq![0x03u8] + bytes::be_bytes(1, dcd.len() + 3) + boxes::u16be(1) + boxes::nulls(1)
        + dcd;
    movie::lemma_full(boxes::four('e', 's', 'd', 's'), 0, 0, q);
    reader::lemma_number_four('e', 's', 'd', 's');
    let p = inside(0, 0, q);
    let head = seq![0u8] + bytes::be_bytes(3, 0) + seq![0x03u8] + bytes::be_bytes(1, n + 20)
        + boxes::u16be(1) + boxes::nulls(1) + seq![0x04u8] + bytes::be_bytes(1, n + 15)
        + seq![0x40u8] + seq![0x15u8] + boxes::nulls(3) + boxes::u32be(t.max_bitrate as nat)
        + boxes::u32be(t.avg_bitrate as nat) + seq![0x05u8] + bytes::be_bytes(1, n);
    reader::lemma_holds_low(1, n + 20);
    reader::lemma_holds_low(1, n + 15);
    reader::lemma_holds_low(1, n);
    assert(head.len() == 26);
    assert(p =~= head + asc);
    assert(p.take(26) =~= head);
    assert(p.skip(26) =~= asc);
    assert(holds(seq![0u8] + bytes::be_bytes(3, 0), full(0, 0)));
    p
}

pub proof fn lemma_mp4a(t: AudioTrack) -> (p: Seq<u8>)
    requires
        tracks::mp4a_bytes(t).len() <= u32::MAX,
    ensures
        tracks::mp4a_bytes(t) == boxes::box_bytes(boxes::four('m', 'p', '4', 'a'), p),
        is_mp4a(p, t),
{
    broadcast use {bytes::lemma_be_bytes_len, reader::group_holds};

    bytes::lemma_pow256();
    let rate = (t.sample_rate * 0x1_0000) as nat;
    reader::lemma_holds_low(4, rate);
    let head = boxes::nulls(6) + boxes::u16be(1) + boxes::nulls(8) + boxes::u16be(t.channels as nat)
        + boxes::u16be(16) + boxes::nulls(4) + boxes::u32be(rate);
    let b = tracks::esds_bytes(t);
    let p = head + b;
    assert(tracks::mp4a_bytes(t) == boxes::box_bytes(boxes::four('m', 'p', '4', 'a'), p));
    let e = lemma_esds(t);
    assert(p.take(28) =~= head);
    assert(p.skip(28) =~= b);
    p
}

} // verus!
