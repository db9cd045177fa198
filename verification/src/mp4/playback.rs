//! What a player finds in the written file.

use vstd::prelude::*;
use vstd::utf8::*;

use crate::bytes;
use crate::fields::Field;
use crate::model;
use crate::mp4::boxes;
use crate::mp4::contents::{self, is_av01, is_dinf, is_hdlr, is_mp4a};
use crate::mp4::metadata;
use crate::mp4::movie::{self, full, identity, inside, is_stbl, kid, kinds};
use crate::mp4::reader::{self, children, f, holds, number, word};
use crate::mp4::tracks;
use crate::mp4::{self, AudioTrack, Meta, Sample, VideoTrack};

verus! {

// ---------- tracks ----------

/// The fields of a media header: `duration` units of which `timescale` make a
/// second.
pub open spec fn mdhd_fields(timescale: u32, duration: nat, language: nat) -> Seq<Field> {
    full(0, 0) + (f(8, 0) + f(4, timescale as nat) + f(4, duration % 0x1_0000_0000) + f(2, language)
        + f(2, 0))
}

/// Whether `s` is the media of a track: its header, its handler, and below
/// `minf` the media type's header, where the data is, and the sample table.
pub open spec fn is_mdia(
    s: Seq<u8>,
    mdhd: Seq<Field>,
    handler: nat,
    name: Seq<u8>,
    kind: nat,
    header: Seq<Field>,
) -> bool {
    let minf = kid(s, 2);
    &&& kinds(
        s,
        seq![word('m', 'd', 'h', 'd'), word('h', 'd', 'l', 'r'), word('m', 'i', 'n', 'f')],
    )
    &&& holds(kid(s, 0), mdhd)
    &&& is_hdlr(kid(s, 1), handler, name)
    &&& kinds(minf, seq![kind, word('d', 'i', 'n', 'f'), word('s', 't', 'b', 'l')])
    &&& holds(kid(minf, 0), header)
    &&& is_dinf(kid(minf, 1))
}

/// The sample table of a track.
pub open spec fn table(s: Seq<u8>) -> Seq<u8> {
    kid(kid(kid(s, 1), 2), 2)
}

/// The sample entry of a track.
pub open spec fn entry(s: Seq<u8>) -> Seq<u8> {
    kid(kid(table(s), 0).skip(8), 0)
}

/// Whether `s` is the video track: number 1, silent, as large as the video says
/// in both places, its samples at `offset`.
pub open spec fn is_video(s: Seq<u8>, t: VideoTrack, ms: u32, offset: nat) -> bool {
    let n = t.samples@.len();
    let tkhd = kid(s, 0);
    &&& kinds(s, seq![word('t', 'k', 'h', 'd'), word('m', 'd', 'i', 'a')])
    &&& holds(tkhd, contents::tkhd_fields(1, ms, t.width, t.height, 0))
    &&& tkhd.len() == 84
    &&& number(tkhd.subrange(76, 80)) == number(entry(s).subrange(24, 26)) * 0x1_0000
    &&& number(tkhd.subrange(80, 84)) == number(entry(s).subrange(26, 28)) * 0x1_0000
    &&& is_mdia(
        kid(s, 1),
        mdhd_fields(
            t.timescale,
            (n * t.sample_delta) as nat,
            contents::packed(seq![0x75u8, 0x6eu8, 0x64u8]),
        ),
        word('v', 'i', 'd', 'e'),
        encode_utf8("stillcast video"@),
        word('v', 'm', 'h', 'd'),
        full(0, 1) + f(8, 0),
    )
    &&& is_stbl(
        table(s),
        word('a', 'v', '0', '1'),
        t.samples@,
        t.sample_delta,
        Some(t.sync_samples@),
        offset,
    )
    &&& is_av01(entry(s), t)
}

/// Whether `s` is the audio track: number 2, at full volume, its samples at
/// `offset`.
pub open spec fn is_audio(s: Seq<u8>, t: AudioTrack, ms: u32, offset: nat) -> bool {
    let n = t.samples@.len();
    &&& kinds(s, seq![word('t', 'k', 'h', 'd'), word('m', 'd', 'i', 'a')])
    &&& holds(kid(s, 0), contents::tkhd_fields(2, ms, 0, 0, 0x100))
    &&& is_mdia(
        kid(s, 1),
        mdhd_fields(t.sample_rate, (n * t.sample_delta) as nat, contents::language(t.language)),
        word('s', 'o', 'u', 'n'),
        encode_utf8("stillcast audio"@),
        word('s', 'm', 'h', 'd'),
        full(0, 0) + f(2, 0),
    )
    &&& is_stbl(table(s), word('m', 'p', '4', 'a'), t.samples@, t.sample_delta, None, offset)
    &&& is_mp4a(entry(s), t)
}

/// Boxes that are told apart.
proof fn lemma_three(
    a: Seq<u8>,
    x: (nat, Seq<u8>),
    b: Seq<u8>,
    y: (nat, Seq<u8>),
    c: Seq<u8>,
    z: (nat, Seq<u8>),
)
    requires
        children(a) == Some(seq![x]),
        children(b) == Some(seq![y]),
        children(c) == Some(seq![z]),
    ensures
        children(a + b + c) == Some(seq![x, y, z]),
        children(a + b) == Some(seq![x, y]),
{
    reader::lemma_children_append(a, b);
    reader::lemma_children_append(a + b, c);
    assert(seq![x] + seq![y] =~= seq![x, y]);
    assert(seq![x, y] + seq![z] =~= seq![x, y, z]);
}

/// A track out of its parts.
proof fn lemma_trak(
    tkhd: Seq<u8>,
    t: Seq<u8>,
    mdhd: Seq<u8>,
    m: Seq<u8>,
    hdlr: Seq<u8>,
    h: Seq<u8>,
    kind: nat,
    header: Seq<u8>,
    x: Seq<u8>,
    d: Seq<u8>,
    stbl: Seq<u8>,
) -> (s: Seq<u8>)
    requires
        children(tkhd) == Some(seq![(word('t', 'k', 'h', 'd'), t)]),
        children(mdhd) == Some(seq![(word('m', 'd', 'h', 'd'), m)]),
        children(hdlr) == Some(seq![(word('h', 'd', 'l', 'r'), h)]),
        children(header) == Some(seq![(kind, x)]),
        children(boxes::dinf_bytes()) == Some(seq![(word('d', 'i', 'n', 'f'), d)]),
        ({
            let b = boxes::box_bytes(boxes::four('s', 't', 'b', 'l'), stbl);
            tracks::trak_bytes(tkhd, mdhd, hdlr, boxes::minf_bytes(header, b)).len() <= u32::MAX
        }),
    ensures
        ({
            let b = boxes::box_bytes(boxes::four('s', 't', 'b', 'l'), stbl);
            tracks::trak_bytes(tkhd, mdhd, hdlr, boxes::minf_bytes(header, b)) == boxes::box_bytes(
                boxes::four('t', 'r', 'a', 'k'),
                s,
            )
        }),
        s.len() + 8 <= u32::MAX,
        kinds(s, seq![word('t', 'k', 'h', 'd'), word('m', 'd', 'i', 'a')]),
        kid(s, 0) == t,
        kinds(
            kid(s, 1),
            seq![word('m', 'd', 'h', 'd'), word('h', 'd', 'l', 'r'), word('m', 'i', 'n', 'f')],
        ),
        kid(kid(s, 1), 0) == m,
        kid(kid(s, 1), 1) == h,
        kinds(
            kid(kid(s, 1), 2),
            seq![kind, word('d', 'i', 'n', 'f'), word('s', 't', 'b', 'l')],
        ),
        kid(kid(kid(s, 1), 2), 0) == x,
        kid(kid(kid(s, 1), 2), 1) == d,
        table(s) == stbl,
{
    let b = boxes::box_bytes(boxes::four('s', 't', 'b', 'l'), stbl);
    let inner = header + boxes::dinf_bytes() + b;
    let minf = boxes::minf_bytes(header, b);
    let parts = mdhd + hdlr + minf;
    let mdia = boxes::box_bytes(boxes::four('m', 'd', 'i', 'a'), parts);
    let s = tkhd + mdia;
    assert(s.len() + 8 <= u32::MAX && parts.len() + 8 <= u32::MAX && inner.len() + 8 <= u32::MAX
        && stbl.len() + 8 <= u32::MAX) by {
        broadcast use bytes::lemma_be_bytes_len;

    }
    reader::lemma_children_box(boxes::four('s', 't', 'b', 'l'), stbl);
    reader::lemma_number_four('s', 't', 'b', 'l');
    lemma_three(
        header,
        (kind, x),
        boxes::dinf_bytes(),
        (word('d', 'i', 'n', 'f'), d),
        b,
        (word('s', 't', 'b', 'l'), stbl),
    );
    reader::lemma_children_box(boxes::four('m', 'i', 'n', 'f'), inner);
    reader::lemma_number_four('m', 'i', 'n', 'f');
    lemma_three(
        mdhd,
        (word('m', 'd', 'h', 'd'), m),
        hdlr,
        (word('h', 'd', 'l', 'r'), h),
        minf,
        (word('m', 'i', 'n', 'f'), inner),
    );
    reader::lemma_children_box(boxes::four('m', 'd', 'i', 'a'), parts);
    reader::lemma_number_four('m', 'd', 'i', 'a');
    lemma_three(
        tkhd,
        (word('t', 'k', 'h', 'd'), t),
        mdia,
        (word('m', 'd', 'i', 'a'), parts),
        mdia,
        (word('m', 'd', 'i', 'a'), parts),
    );
    s
}

proof fn lemma_vmhd() -> (p: Seq<u8>)
    ensures
        children(boxes::vmhd_bytes()) == Some(seq![(word('v', 'm', 'h', 'd'), p)]),
        holds(p, full(0, 1) + f(8, 0)),
{
    movie::lemma_full(boxes::four('v', 'm', 'h', 'd'), 0, 1, boxes::nulls(8));
    reader::lemma_number_four('v', 'm', 'h', 'd');
    reader::lemma_holds_nulls(8);
    inside(0, 1, boxes::nulls(8))
}

proof fn lemma_smhd() -> (p: Seq<u8>)
    ensures
        children(boxes::smhd_bytes()) == Some(seq![(word('s', 'm', 'h', 'd'), p)]),
        holds(p, full(0, 0) + f(2, 0)),
{
    movie::lemma_full(boxes::four('s', 'm', 'h', 'd'), 0, 0, boxes::nulls(2));
    reader::lemma_number_four('s', 'm', 'h', 'd');
    reader::lemma_holds_nulls(2);
    inside(0, 0, boxes::nulls(2))
}

/// The parts of a track are shorter than the track.
proof fn lemma_parts(tkhd: Seq<u8>, mdhd: Seq<u8>, hdlr: Seq<u8>, header: Seq<u8>, stbl: Seq<u8>)
    ensures
        tracks::trak_bytes(tkhd, mdhd, hdlr, boxes::minf_bytes(header, stbl)).len() >= stbl.len()
            + hdlr.len(),
{
    broadcast use bytes::lemma_be_bytes_len;

}

proof fn lemma_entry_fits(
    entry: Seq<u8>,
    samples: Seq<Seq<u8>>,
    delta: u32,
    sync: Option<Seq<u32>>,
    stco: Seq<u8>,
)
    ensures
        tracks::stbl_bytes(entry, samples, delta, sync, stco).len() >= entry.len(),
{
    broadcast use bytes::lemma_be_bytes_len;

}

proof fn lemma_hdlr_len(handler: Seq<u8>, name: Seq<char>)
    requires
        handler.len() == 4,
    ensures
        boxes::hdlr_bytes(handler, name).len() == encode_utf8(name).len() + 33,
{
    broadcast use bytes::lemma_be_bytes_len;

}

proof fn lemma_video(t: VideoTrack, ms: u32, offset: nat) -> (s: Seq<u8>)
    requires
        offset <= u32::MAX,
        forall|i: int|
            0 <= i < t.samples@.len() ==> (#[trigger] t.samples@[i]).0@.len() <= u32::MAX,
        tracks::video_trak_bytes(t, ms, boxes::u32be(offset)).len() <= u32::MAX,
    ensures
        children(tracks::video_trak_bytes(t, ms, boxes::u32be(offset))) == Some(
            seq![(word('t', 'r', 'a', 'k'), s)],
        ),
        is_video(s, t, ms, offset),
{
    reveal(tracks::video_trak_bytes);
    let samples = model::views(t.samples@);
    let stco = boxes::u32be(offset);
    let sync = Some(t.sync_samples@);
    let duration = (t.sample_delta * samples.len()) as nat;
    let av01 = tracks::av01_bytes(t);
    let stbl = tracks::stbl_bytes(av01, samples, t.sample_delta, sync, stco);
    let tkhd = boxes::tkhd_bytes(1, ms, t.width, t.height, 0);
    let mdhd = boxes::mdhd_bytes(t.timescale, duration, None);
    let hdlr = boxes::hdlr_bytes(boxes::four('v', 'i', 'd', 'e'), "stillcast video"@);
    lemma_parts(tkhd, mdhd, hdlr, boxes::vmhd_bytes(), stbl);
    lemma_entry_fits(av01, samples, t.sample_delta, sync, stco);
    lemma_hdlr_len(boxes::four('v', 'i', 'd', 'e'), "stillcast video"@);
    let pt = contents::lemma_tkhd(1, ms, t.width, t.height, 0);
    let bits = contents::packed(seq![0x75u8, 0x6eu8, 0x64u8]);
    let pm = contents::lemma_mdhd(t.timescale, duration, bits, None);
    let ph = contents::lemma_hdlr('v', 'i', 'd', 'e', "stillcast video"@);
    let px = lemma_vmhd();
    let pd = contents::lemma_dinf();
    let pe = contents::lemma_av01(t);
    let kind = boxes::four('a', 'v', '0', '1');
    movie::lemma_stbl(av01, kind, pe, t.samples@, t.sample_delta, sync, offset);
    reader::lemma_number_four('a', 'v', '0', '1');
    let ps = choose|p: Seq<u8>|
        {
            &&& #[trigger] is_stbl(p, number(kind), t.samples@, t.sample_delta, sync, offset)
            &&& kid(kid(p, 0).skip(8), 0) == pe
            &&& p.len() + 8 <= u32::MAX
            &&& stbl == boxes::box_bytes(boxes::four('s', 't', 'b', 'l'), p)
        };
    let s = lemma_trak(
        tkhd,
        pt,
        mdhd,
        pm,
        hdlr,
        ph,
        word('v', 'm', 'h', 'd'),
        boxes::vmhd_bytes(),
        px,
        pd,
        ps,
    );
    reader::lemma_children_box(boxes::four('t', 'r', 'a', 'k'), s);
    reader::lemma_number_four('t', 'r', 'a', 'k');
    assert(t.sample_delta * samples.len() == t.samples@.len() * t.sample_delta) by (nonlinear_arith)
        requires
            samples.len() == t.samples@.len(),
    ;
    s
}

proof fn lemma_audio(t: AudioTrack, ms: u32, offset: nat) -> (s: Seq<u8>)
    requires
        offset <= u32::MAX,
        forall|i: int|
            0 <= i < t.samples@.len() ==> (#[trigger] t.samples@[i]).0@.len() <= u32::MAX,
        tracks::audio_trak_bytes(t, ms, boxes::u32be(offset)).len() <= u32::MAX,
    ensures
        children(tracks::audio_trak_bytes(t, ms, boxes::u32be(offset))) == Some(
            seq![(word('t', 'r', 'a', 'k'), s)],
        ),
        is_audio(s, t, ms, offset),
{
    reveal(tracks::audio_trak_bytes);
    let samples = model::views(t.samples@);
    let stco = boxes::u32be(offset);
    let sync = None::<Seq<u32>>;
    let duration = (t.sample_delta * samples.len()) as nat;
    let mp4a = tracks::mp4a_bytes(t);
    let stbl = tracks::stbl_bytes(mp4a, samples, t.sample_delta, sync, stco);
    let tkhd = boxes::tkhd_bytes(2, ms, 0, 0, 0x0100);
    let lang = boxes::code_bytes(boxes::chars_of(t.language));
    let mdhd = boxes::mdhd_bytes(t.sample_rate, duration, lang);
    let hdlr = boxes::hdlr_bytes(boxes::four('s', 'o', 'u', 'n'), "stillcast audio"@);
    lemma_parts(tkhd, mdhd, hdlr, boxes::smhd_bytes(), stbl);
    lemma_entry_fits(mp4a, samples, t.sample_delta, sync, stco);
    lemma_hdlr_len(boxes::four('s', 'o', 'u', 'n'), "stillcast audio"@);
    let pt = contents::lemma_tkhd(2, ms, 0, 0, 0x0100);
    let pm = contents::lemma_mdhd(t.sample_rate, duration, contents::language(t.language), lang);
    let ph = contents::lemma_hdlr('s', 'o', 'u', 'n', "stillcast audio"@);
    let px = lemma_smhd();
    let pd = contents::lemma_dinf();
    let pe = contents::lemma_mp4a(t);
    let kind = boxes::four('m', 'p', '4', 'a');
    movie::lemma_stbl(mp4a, kind, pe, t.samples@, t.sample_delta, sync, offset);
    reader::lemma_number_four('m', 'p', '4', 'a');
    let ps = choose|p: Seq<u8>|
        {
            &&& #[trigger] is_stbl(p, number(kind), t.samples@, t.sample_delta, sync, offset)
            &&& kid(kid(p, 0).skip(8), 0) == pe
            &&& p.len() + 8 <= u32::MAX
            &&& stbl == boxes::box_bytes(boxes::four('s', 't', 'b', 'l'), p)
        };
    let s = lemma_trak(
        tkhd,
        pt,
        mdhd,
        pm,
        hdlr,
        ph,
        word('s', 'm', 'h', 'd'),
        boxes::smhd_bytes(),
        px,
        pd,
        ps,
    );
    reader::lemma_children_box(boxes::four('t', 'r', 'a', 'k'), s);
    reader::lemma_number_four('t', 'r', 'a', 'k');
    assert(t.sample_delta * samples.len() == t.samples@.len() * t.sample_delta) by (nonlinear_arith)
        requires
            samples.len() == t.samples@.len(),
    ;
    s
}

// ---------- the file ----------

/// How many bytes the samples in front of sample `i` have.
pub open spec fn before(samples: Seq<Sample>, i: int) -> nat
    decreases i,
{
    if i <= 0 {
        0
    } else {
        before(samples, i - 1) + samples[i - 1].0@.len()
    }
}

/// Whether the samples stand in the file one behind the other from `offset` on.
pub open spec fn stand_at(file: Seq<u8>, offset: nat, samples: Seq<Sample>) -> bool {
    &&& offset + before(samples, samples.len() as int) <= file.len()
    &&& forall|i: int|
        0 <= i < samples.len() ==> {
            let at = offset + before(samples, i);
            file.subrange(at as int, (at + (#[trigger] samples[i]).0@.len()) as int)
                == samples[i].0@
        }
}

/// Whether a movie of `ms` milliseconds is as long as a track of `n` samples,
/// or longer: the milliseconds that the track fills are shown.
pub open spec fn shows_all(ms: u32, n: nat, delta: u32, timescale: u32) -> bool {
    n * delta * 1000 < timescale * 0x1_0000_0000 ==> n * delta * 1000 < (ms + 1) * timescale
}

/// Whether a track of `n` samples fills `ms` milliseconds.
pub open spec fn fills(ms: u32, n: nat, delta: u32, timescale: u32) -> bool {
    ms * timescale <= n * delta * 1000
}

/// Whether `s` is the movie: how long it is, the video track, the audio track
/// and the metadata where there are any.
#[verifier::opaque]
pub open spec fn is_moov(
    s: Seq<u8>,
    video: VideoTrack,
    audio: Option<&AudioTrack>,
    meta: Option<&Meta>,
    ms: u32,
    v: nat,
    a: nat,
) -> bool {
    let tagged = metadata::wanted(meta).len() > 0;
    &&& kinds(
        s,
        seq![word('m', 'v', 'h', 'd'), word('t', 'r', 'a', 'k')] + (if audio is Some {
            seq![word('t', 'r', 'a', 'k')]
        } else {
            Seq::empty()
        }) + (if tagged {
            seq![word('u', 'd', 't', 'a')]
        } else {
            Seq::empty()
        }),
    )
    &&& holds(
        kid(s, 0),
        full(0, 0) + (f(8, 0) + f(4, 1000) + f(4, ms as nat) + f(4, 0x1_0000) + f(2, 0x100) + f(
            10,
            0,
        ) + identity() + f(24, 0) + f(4, 3)),
    )
    &&& is_video(kid(s, 1), video, ms, v)
    &&& audio matches Some(t) ==> is_audio(kid(s, 2), *t, ms, a)
    &&& tagged ==> metadata::is_udta(
        kid(
            s,
            if audio is Some {
                3
            } else {
                2
            },
        ),
        metadata::wanted(meta),
    )
}

proof fn lemma_mvhd(ms: u32) -> (p: Seq<u8>)
    ensures
        children(boxes::mvhd_bytes(ms)) == Some(seq![(word('m', 'v', 'h', 'd'), p)]),
        holds(
            p,
            full(0, 0) + (f(8, 0) + f(4, 1000) + f(4, ms as nat) + f(4, 0x1_0000) + f(2, 0x100) + f(
                10,
                0,
            ) + identity() + f(24, 0) + f(4, 3)),
        ),
{
    broadcast use {bytes::lemma_be_bytes_len, reader::group_holds};

    reveal(boxes::mvhd_bytes);
    bytes::lemma_pow256();
    let q = boxes::nulls(8) + boxes::u32be(1000) + boxes::u32be(ms as nat) + boxes::u32be(
        0x0001_0000,
    ) + boxes::u16be(0x0100) + boxes::nulls(10) + boxes::matrix_bytes() + boxes::nulls(24)
        + boxes::u32be(3);
    movie::lemma_full(boxes::four('m', 'v', 'h', 'd'), 0, 0, q);
    reader::lemma_number_four('m', 'v', 'h', 'd');
    assert(holds(boxes::matrix_bytes(), identity()));
    inside(0, 0, q)
}

proof fn lemma_moov(
    video: VideoTrack,
    audio: Option<&AudioTrack>,
    meta: Option<&Meta>,
    v: nat,
    a: nat,
) -> (s: Seq<u8>)
    requires
        v <= u32::MAX,
        a <= u32::MAX,
        forall|i: int|
            0 <= i < video.samples@.len() ==> (#[trigger] video.samples@[i]).0@.len() <= u32::MAX,
        audio matches Some(t) ==> forall|i: int|
            0 <= i < t.samples@.len() ==> (#[trigger] t.samples@[i]).0@.len() <= u32::MAX,
        mp4::moov_bytes(video, audio, meta, boxes::u32be(v), boxes::u32be(a)).len() <= u32::MAX,
    ensures
        children(mp4::moov_bytes(video, audio, meta, boxes::u32be(v), boxes::u32be(a))) == Some(
            seq![(word('m', 'o', 'o', 'v'), s)],
        ),
        is_moov(s, video, audio, meta, mp4::movie_ms(video, audio), v, a),
{
    reveal(mp4::moov_bytes);
    reveal(is_moov);
    let ms = mp4::movie_ms(video, audio);
    let mvhd = boxes::mvhd_bytes(ms);
    let b1 = tracks::video_trak_bytes(video, ms, boxes::u32be(v));
    let b2 = mp4::audio_bytes(audio, ms, boxes::u32be(a));
    let b3 = mp4::udta_bytes(meta);
    let s = mvhd + b1 + b2 + b3;
    assert(s.len() + 8 <= u32::MAX) by {
        broadcast use bytes::lemma_be_bytes_len;

    }
    reader::lemma_children_box(boxes::four('m', 'o', 'o', 'v'), s);
    reader::lemma_number_four('m', 'o', 'o', 'v');
    let pm = lemma_mvhd(ms);
    let pv = lemma_video(video, ms, v);
    metadata::lemma_udta(meta);
    let none = Seq::<(nat, Seq<u8>)>::empty();
    if audio is Some {
        let pa = lemma_audio(*audio->Some_0, ms, a);
    } else {
        assert(children(b2) == Some(none));
    }
    if metadata::wanted(meta).len() == 0 {
        assert(children(b3) == Some(none));
    }
    reader::lemma_children_append(mvhd, b1);
    reader::lemma_children_append(mvhd + b1, b2);
    reader::lemma_children_append(mvhd + b1 + b2, b3);
    s
}

proof fn lemma_before(samples: Seq<Sample>, n: int)
    requires
        0 <= n <= samples.len(),
    ensures
        ({
            let all = model::views(samples);
            &&& model::concat(all.take(n)).len() == before(samples, n)
            &&& forall|i: int|
                0 <= i < n ==> {
                    &&& before(samples, i) + (#[trigger] samples[i]).0@.len() <= before(samples, n)
                    &&& model::concat(all.take(n)).subrange(
                        before(samples, i) as int,
                        (before(samples, i) + samples[i].0@.len()) as int,
                    ) == samples[i].0@
                }
        }),
    decreases n,
{
    let all = model::views(samples);
    if n > 0 {
        lemma_before(samples, n - 1);
        let front = model::concat(all.take(n - 1));
        assert(all.take(n).drop_last() =~= all.take(n - 1));
        assert(all.take(n).last() == samples[n - 1].0@);
        let s = model::concat(all.take(n));
        assert(s == front + samples[n - 1].0@);
        assert forall|i: int| 0 <= i < n implies {
            &&& before(samples, i) + (#[trigger] samples[i]).0@.len() <= before(samples, n)
            &&& s.subrange(
                before(samples, i) as int,
                (before(samples, i) + samples[i].0@.len()) as int,
            ) == samples[i].0@
        } by {
            let at = before(samples, i) as int;
            let end = at + samples[i].0@.len();
            if i < n - 1 {
                assert(s.subrange(at, end) =~= front.subrange(at, end));
            } else {
                assert(s.subrange(at, end) =~= samples[i].0@);
            }
        }
    } else {
        assert(all.take(0) =~= Seq::empty());
    }
}

proof fn lemma_stand(file: Seq<u8>, offset: nat, samples: Seq<Sample>)
    requires
        ({
            let data = model::concat(model::views(samples));
            &&& offset + data.len() <= file.len()
            &&& file.subrange(offset as int, (offset + data.len()) as int) == data
        }),
    ensures
        stand_at(file, offset, samples),
        forall|i: int| 0 <= i < samples.len() ==> (#[trigger] samples[i]).0@.len() <= file.len(),
{
    let n = samples.len() as int;
    let all = model::views(samples);
    lemma_before(samples, n);
    assert(all.take(n) =~= all);
    let data = model::concat(all);
    assert forall|i: int| 0 <= i < samples.len() implies {
        let at = offset + before(samples, i);
        file.subrange(at as int, (at + (#[trigger] samples[i]).0@.len()) as int) == samples[i].0@
    } by {
        let b = before(samples, i) as int;
        let e = b + samples[i].0@.len();
        assert(file.subrange(offset + b, offset + e) =~= data.subrange(b, e));
    }
}

proof fn lemma_ms(n: nat, delta: u32, timescale: u32)
    requires
        timescale > 0,
    ensures
        ({
            let ms = mp4::duration_ms(n, delta, timescale);
            &&& shows_all(ms, n, delta, timescale)
            &&& fills(ms, n, delta, timescale)
        }),
{
    let d = delta * n * 1000;
    let t = timescale as int;
    assert(d == n * delta * 1000) by (nonlinear_arith)
        requires
            d == delta * n * 1000,
    ;
    let ms = mp4::duration_ms(n, delta, timescale);
    let q = d / t;
    assert(q >= 0 && q * t <= d && d < (q + 1) * t) by (nonlinear_arith)
        requires
            q == d / t,
            t > 0,
            d >= 0,
    ;
    assert(ms <= q);
    assert(ms * t <= q * t) by (nonlinear_arith)
        requires
            ms <= q,
            t > 0,
    ;
    if d < t * 0x1_0000_0000 {
        assert(q < 0x1_0000_0000) by (nonlinear_arith)
            requires
                q * t <= d,
                d < t * 0x1_0000_0000,
                t > 0,
        ;
        assert(ms == q);
    }
}

proof fn lemma_data(video: VideoTrack, audio: Option<&AudioTrack>, meta: Option<&Meta>)
    requires
        mp4::file_bytes(video, audio, meta).len() <= u32::MAX,
    ensures
        ({
            let file = mp4::file_bytes(video, audio, meta);
            let v = mp4::data_offset(video, audio, meta);
            let a = v + before(video.samples@, video.samples@.len() as int);
            &&& a == v + mp4::video_data(video).len()
            &&& a <= file.len()
            &&& stand_at(file, v, video.samples@)
            &&& forall|i: int|
                0 <= i < video.samples@.len() ==> (#[trigger] video.samples@[i]).0@.len()
                    <= u32::MAX
            &&& audio matches Some(t) ==> {
                &&& stand_at(file, a, t.samples@)
                &&& a + before(t.samples@, t.samples@.len() as int) == file.len()
                &&& forall|i: int|
                    0 <= i < t.samples@.len() ==> (#[trigger] t.samples@[i]).0@.len() <= u32::MAX
            }
            &&& audio is None ==> a == file.len()
        }),
{
    let file = mp4::file_bytes(video, audio, meta);
    let v = mp4::data_offset(video, audio, meta);
    let a = v + mp4::video_data(video).len();
    mp4::chunk_offsets_point_at_the_samples(video, audio, meta);
    lemma_stand(file, v, video.samples@);
    lemma_before(video.samples@, video.samples@.len() as int);
    let all = model::views(video.samples@);
    assert(all.take(video.samples@.len() as int) =~= all);
    if let Some(t) = audio {
        assert(file.subrange(a as int, file.len() as int) =~= file.skip(a as int));
        lemma_stand(file, a, t.samples@);
        lemma_before(t.samples@, t.samples@.len() as int);
        let all = model::views(t.samples@);
        assert(all.take(t.samples@.len() as int) =~= all);
    }
}

proof fn lemma_boxes(video: VideoTrack, audio: Option<&AudioTrack>, meta: Option<&Meta>)
    requires
        mp4::file_bytes(video, audio, meta).len() <= u32::MAX,
    ensures
        ({
            let file = mp4::file_bytes(video, audio, meta);
            let ms = mp4::movie_ms(video, audio);
            let v = mp4::data_offset(video, audio, meta);
            let a = v + mp4::video_data(video).len();
            &&& kinds(
                file,
                seq![word('f', 't', 'y', 'p'), word('m', 'o', 'o', 'v'), word('m', 'd', 'a', 't')],
            )
            &&& holds(
                kid(file, 0),
                f(4, word('i', 's', 'o', 'm')) + f(4, 512) + f(4, word('i', 's', 'o', 'm')) + f(
                    4,
                    word('a', 'v', '0', '1'),
                ) + f(4, word('i', 's', 'o', '8')) + f(4, word('m', 'p', '4', '1')),
            )
            &&& is_moov(kid(file, 1), video, audio, meta, ms, v, a)
            &&& v + kid(file, 2).len() == file.len()
        }),
{
    let v = mp4::data_offset(video, audio, meta);
    let a = v + mp4::video_data(video).len();
    let ftyp = mp4::ftyp_bytes();
    let moov = mp4::moov_bytes(video, audio, meta, boxes::u32be(v), boxes::u32be(a));
    let data = mp4::video_data(video) + mp4::audio_data(audio);
    lemma_fits(video, audio, meta);
    let pm = lemma_moov(video, audio, meta, v, a);
    let pf = lemma_ftyp();
    lemma_split(ftyp, pf, moov, pm, data);
}

/// The three boxes of a file.
proof fn lemma_split(ftyp: Seq<u8>, pf: Seq<u8>, moov: Seq<u8>, pm: Seq<u8>, data: Seq<u8>)
    requires
        children(ftyp) == Some(seq![(word('f', 't', 'y', 'p'), pf)]),
        children(moov) == Some(seq![(word('m', 'o', 'o', 'v'), pm)]),
        data.len() + 8 <= u32::MAX,
    ensures
        ({
            let file = ftyp + moov + boxes::box_bytes(boxes::four('m', 'd', 'a', 't'), data);
            &&& kinds(
                file,
                seq![word('f', 't', 'y', 'p'), word('m', 'o', 'o', 'v'), word('m', 'd', 'a', 't')],
            )
            &&& kid(file, 0) == pf
            &&& kid(file, 1) == pm
            &&& kid(file, 2) == data
        }),
{
    let mdat = boxes::box_bytes(boxes::four('m', 'd', 'a', 't'), data);
    reader::lemma_children_box(boxes::four('m', 'd', 'a', 't'), data);
    reader::lemma_number_four('m', 'd', 'a', 't');
    lemma_three(
        ftyp,
        (word('f', 't', 'y', 'p'), pf),
        moov,
        (word('m', 'o', 'o', 'v'), pm),
        mdat,
        (word('m', 'd', 'a', 't'), data),
    );
}

/// The parts of a file are shorter than the file.
proof fn lemma_fits(video: VideoTrack, audio: Option<&AudioTrack>, meta: Option<&Meta>)
    requires
        mp4::file_bytes(video, audio, meta).len() <= u32::MAX,
    ensures
        ({
            let file = mp4::file_bytes(video, audio, meta);
            let v = mp4::data_offset(video, audio, meta);
            let a = v + mp4::video_data(video).len();
            let moov = mp4::moov_bytes(video, audio, meta, boxes::u32be(v), boxes::u32be(a));
            let data = mp4::video_data(video) + mp4::audio_data(audio);
            &&& v + data.len() == file.len()
            &&& data.len() + 8 <= u32::MAX
            &&& moov.len() <= u32::MAX
            &&& v <= u32::MAX
            &&& a <= u32::MAX
        }),
        forall|i: int|
            0 <= i < video.samples@.len() ==> (#[trigger] video.samples@[i]).0@.len() <= u32::MAX,
        audio matches Some(t) ==> forall|i: int|
            0 <= i < t.samples@.len() ==> (#[trigger] t.samples@[i]).0@.len() <= u32::MAX,
{
    lemma_data(video, audio, meta);
    mp4::chunk_offsets_point_at_the_samples(video, audio, meta);
    let v = mp4::data_offset(video, audio, meta);
    assert(v >= 8);
}

/// The file that is written reads back: a reader that splits boxes by their
/// sizes finds the file type, the movie and the media data. The movie lasts as
/// long as its longest track. Each track says where its samples stand, how long
/// and how large they are, and what they are: the video's size is in its sample
/// entry, and the same in its track header.
pub proof fn written_files_read_back(
    video: VideoTrack,
    audio: Option<&AudioTrack>,
    meta: Option<&Meta>,
)
    requires
        video.timescale > 0,
        audio matches Some(t) ==> t.sample_rate > 0,
        mp4::file_bytes(video, audio, meta).len() <= u32::MAX,
    ensures
        ({
            let file = mp4::file_bytes(video, audio, meta);
            let ms = mp4::movie_ms(video, audio);
            let v = mp4::data_offset(video, audio, meta);
            let a = v + before(video.samples@, video.samples@.len() as int);
            let n = video.samples@.len();
            &&& kinds(
                file,
                seq![word('f', 't', 'y', 'p'), word('m', 'o', 'o', 'v'), word('m', 'd', 'a', 't')],
            )
            &&& holds(
                kid(file, 0),
                f(4, word('i', 's', 'o', 'm')) + f(4, 512) + f(4, word('i', 's', 'o', 'm')) + f(
                    4,
                    word('a', 'v', '0', '1'),
                ) + f(4, word('i', 's', 'o', '8')) + f(4, word('m', 'p', '4', '1')),
            )
            &&& is_moov(kid(file, 1), video, audio, meta, ms, v, a)
            &&& v + kid(file, 2).len() == file.len()
            &&& stand_at(file, v, video.samples@)
            &&& audio matches Some(t) ==> stand_at(file, a, t.samples@) && a + before(
                t.samples@,
                t.samples@.len() as int,
            ) == file.len()
            &&& audio is None ==> a == file.len()
            &&& shows_all(ms, n, video.sample_delta, video.timescale)
            &&& audio matches Some(t) ==> shows_all(
                ms,
                t.samples@.len(),
                t.sample_delta,
                t.sample_rate,
            )
            &&& fills(ms, n, video.sample_delta, video.timescale) || (audio is Some && fills(
                ms,
                audio->Some_0.samples@.len(),
                audio->Some_0.sample_delta,
                audio->Some_0.sample_rate,
            ))
        }),
{
    lemma_data(video, audio, meta);
    lemma_boxes(video, audio, meta);
    lemma_longest(video, audio);
}

proof fn lemma_ftyp() -> (p: Seq<u8>)
    ensures
        children(mp4::ftyp_bytes()) == Some(seq![(word('f', 't', 'y', 'p'), p)]),
        holds(
            p,
            f(4, word('i', 's', 'o', 'm')) + f(4, 512) + f(4, word('i', 's', 'o', 'm')) + f(
                4,
                word('a', 'v', '0', '1'),
            ) + f(4, word('i', 's', 'o', '8')) + f(4, word('m', 'p', '4', '1')),
        ),
{
    broadcast use {bytes::lemma_be_bytes_len, reader::group_holds};

    reveal(mp4::ftyp_bytes);
    bytes::lemma_pow256();
    let p = boxes::four('i', 's', 'o', 'm') + boxes::u32be(512) + boxes::four('i', 's', 'o', 'm')
        + boxes::four('a', 'v', '0', '1') + boxes::four('i', 's', 'o', '8') + boxes::four(
        'm',
        'p',
        '4',
        '1',
    );
    reader::lemma_children_box(boxes::four('f', 't', 'y', 'p'), p);
    reader::lemma_number_four('f', 't', 'y', 'p');
    p
}

/// The movie is as long as its longer track.
proof fn lemma_longest(video: VideoTrack, audio: Option<&AudioTrack>)
    requires
        video.timescale > 0,
        audio matches Some(t) ==> t.sample_rate > 0,
    ensures
        ({
            let ms = mp4::movie_ms(video, audio);
            let n = video.samples@.len();
            &&& shows_all(ms, n, video.sample_delta, video.timescale)
            &&& audio matches Some(t) ==> shows_all(
                ms,
                t.samples@.len(),
                t.sample_delta,
                t.sample_rate,
            )
            &&& fills(ms, n, video.sample_delta, video.timescale) || (audio is Some && fills(
                ms,
                audio->Some_0.samples@.len(),
                audio->Some_0.sample_delta,
                audio->Some_0.sample_rate,
            ))
        }),
{
    let ms = mp4::movie_ms(video, audio);
    let n = video.samples@.len();
    lemma_ms(n, video.sample_delta, video.timescale);
    let x = mp4::duration_ms(n, video.sample_delta, video.timescale);
    if let Some(t) = audio {
        lemma_ms(t.samples@.len(), t.sample_delta, t.sample_rate);
        let y = mp4::duration_ms(t.samples@.len(), t.sample_delta, t.sample_rate);
        assert(ms >= x && ms >= y);
        assert((x + 1) * video.timescale <= (ms + 1) * video.timescale) by (nonlinear_arith)
            requires
                x <= ms,
        ;
        assert((y + 1) * t.sample_rate <= (ms + 1) * t.sample_rate) by (nonlinear_arith)
            requires
                y <= ms,
        ;
    }
}

} // verus!
