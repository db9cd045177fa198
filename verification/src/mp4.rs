//! Minimal ISOBMFF (MP4) writer for the static-video use case.
//!
//! Layout: ftyp | moov | mdat — "faststart": the sample tables sit before
//! the media data so players can start and seek without reaching the end of
//! the file. moov size is stco-independent, so we build it once to measure,
//! then rebuild with real chunk offsets — still fully deterministic.
//! Each track lives in one chunk
//! (samples are cheap show_existing TUs; interleaving buys nothing).
//! No B-frames ever exist in our streams, so decode order == presentation
//! order and no ctts is needed.

use vstd::prelude::*;
use vstd::utf8::*;

use crate::bytes;
use crate::model;
use crate::seq_header::SequenceHeader;
pub use boxes::bx;

pub mod boxes;
pub mod config;
pub mod contents;
pub mod metadata;
pub mod movie;
pub mod playback;
pub mod reader;
pub mod tracks;

verus! {

// ---------- public data ----------

/// One media sample (video: a temporal unit; audio: a raw AAC access unit).
pub struct Sample(pub Vec<u8>);

impl View for Sample {
    type V = Seq<u8>;

    open spec fn view(&self) -> Seq<u8> {
        self.0@
    }
}

pub struct VideoTrack {
    pub samples: Vec<Sample>,
    /// 1-based sample numbers that are keyframes (goes into stss).
    pub sync_samples: Vec<u32>,
    pub width: u16,
    pub height: u16,
    /// Media timescale (ticks/sec) and constant per-sample delta.
    pub timescale: u32,
    pub sample_delta: u32,
    /// av1C box contents (already serialized).
    pub av1c: Vec<u8>,
}

pub struct AudioTrack {
    pub samples: Vec<Sample>,
    /// AAC AudioSpecificConfig (2 bytes for LC).
    pub audio_specific_config: Vec<u8>,
    pub sample_rate: u32,
    pub channels: u16,
    /// Constant per-sample delta in sample-rate units (1024 for AAC-LC).
    pub sample_delta: u32,
    pub avg_bitrate: u32,
    pub max_bitrate: u32,
    /// ISO-639-2 3-letter language code (e.g. "eng"); `und` when None.
    pub language: Option<String>,
}

/// Optional user-visible metadata copied from the input (iTunes-style ilst).
/// Everything absent stays absent — output remains deterministic.
pub struct Meta {
    pub title: Option<String>,
    pub artist: Option<String>,
    pub album: Option<String>,
    /// ISO date string, goes into ©day.
    pub date: Option<String>,
    /// Cover art bytes + ilst type: 13 = JPEG, 14 = PNG.
    pub cover: Option<(Vec<u8>, u8)>,
}

impl Default for Meta {
    fn default() -> (r: Self)
        ensures
            r == (Meta { title: None, artist: None, album: None, date: None, cover: None }),
    {
        Meta { title: None, artist: None, album: None, date: None, cover: None }
    }
}

/// Why no file can be written.
#[derive(Debug, Clone, Copy, PartialEq, Eq, Structural)]
pub enum Mp4Error {
    NoVideoSamples,
}

impl Mp4Error {
    /// What went wrong.
    pub open spec fn text(self) -> Seq<char> {
        "no video samples"@
    }

    /// What went wrong.
    pub fn message(&self) -> (r: String)
        ensures
            r@ == self.text(),
    {
        String::from_str("no video samples")
    }
}

// ---------- av1C ----------

/// The number of a flag.
pub open spec fn bit(b: bool) -> int {
    if b {
        1
    } else {
        0
    }
}

/// The av1C payload: marker and version, profile and level, then tier, bit
/// depth and chroma format, no presentation delay, and the OBU.
pub open spec fn av1c_bytes(sh: SequenceHeader, seq_header_obu: Seq<u8>) -> Seq<u8> {
    seq![
        0x81u8,
        ((sh.seq_profile % 8) * 32 + sh.seq_level_idx % 32) as u8,
        ((sh.seq_tier % 2) * 128 + bit(sh.bit_depth != 8) * 64 + bit(
            sh.bit_depth != 8 && sh.bit_depth != 10,
        ) * 32 + bit(sh.mono_chrome) * 16 + bit(sh.subsample_x) * 8 + bit(sh.subsample_y) * 4
            + sh.chroma_sample_position % 4) as u8,
        0u8,
    ] + seq_header_obu
}

fn flag(b: bool) -> (r: u8)
    ensures
        r == bit(b),
{
    if b {
        1
    } else {
        0
    }
}

/// Build the av1C box payload from a parsed sequence header, embedding the
/// sequence header OBU itself for decoder robustness.
pub fn build_av1c(sh: &SequenceHeader, seq_header_obu_full: &[u8]) -> (r: Vec<u8>)
    ensures
        r@ == av1c_bytes(*sh, seq_header_obu_full@),
{
    let high_bitdepth = sh.bit_depth != 8;
    let twelve_bit = sh.bit_depth != 8 && sh.bit_depth != 10;
    let mut v: Vec<u8> = Vec::new();
    v.push(0x81);  // marker=1, version=1
    v.push((sh.seq_profile % 8) * 32 + sh.seq_level_idx % 32);
    v.push(
        (sh.seq_tier % 2) * 128 + flag(high_bitdepth) * 64 + flag(twelve_bit) * 32 + flag(
            sh.mono_chrome,
        ) * 16 + flag(sh.subsample_x) * 8 + flag(sh.subsample_y) * 4 + sh.chroma_sample_position % 4,
    );
    v.push(0);  // initial_presentation_delay = 0, reserved
    v.extend_from_slice(seq_header_obu_full);
    assert(v@ =~= av1c_bytes(*sh, seq_header_obu_full@));
    v
}

// ---------- durations ----------

/// Whether a track of `n` samples has a duration that can be computed.
pub open spec fn timed(n: nat, delta: u32, timescale: u32) -> bool {
    timescale > 0 && delta * n * 1000 <= u64::MAX
}

/// Milliseconds of `n` samples, in 32 bits.
pub open spec fn duration_ms(n: nat, delta: u32, timescale: u32) -> u32 {
    ((delta * n * 1000 / timescale as int) % 0x1_0000_0000) as u32
}

/// Milliseconds of the longer track.
pub open spec fn movie_ms(video: VideoTrack, audio: Option<&AudioTrack>) -> u32 {
    let v = duration_ms(video.samples@.len(), video.sample_delta, video.timescale);
    match audio {
        Some(a) => {
            let d = duration_ms(a.samples@.len(), a.sample_delta, a.sample_rate);
            if d > v {
                d
            } else {
                v
            }
        },
        None => v,
    }
}

fn media_duration(n: usize, delta: u32, timescale: u32) -> (r: (u64, u32))
    requires
        timed(n as nat, delta, timescale),
    ensures
        r.0 == delta * n,
        r.1 == duration_ms(n as nat, delta, timescale),
{
    assert(0 <= delta * n <= delta * n * 1000) by (nonlinear_arith);
    let d: u64 = delta as u64 * n as u64;
    let ms: u64 = d * 1000 / timescale as u64;
    (d, (ms % 0x1_0000_0000) as u32)
}

// ---------- metadata (udta/meta/ilst) ----------

/// An ilst item with its data atom.
pub open spec fn item_bytes(fourcc: Seq<u8>, dtype: u8, payload: Seq<u8>) -> Seq<u8> {
    boxes::box_bytes(
        fourcc,
        boxes::box_bytes(
            boxes::four('d', 'a', 't', 'a'),
            boxes::u32be(dtype as nat) + boxes::nulls(4) + payload,
        ),
    )
}

/// An ilst item of a text, nothing where there is none.
pub open spec fn text_bytes(fourcc: Seq<u8>, text: Option<String>) -> Seq<u8> {
    match text {
        Some(t) => item_bytes(fourcc, 1, encode_utf8(t@)),
        None => Seq::empty(),
    }
}

pub open spec fn cover_bytes(cover: Option<(Vec<u8>, u8)>) -> Seq<u8> {
    match cover {
        Some((img, dtype)) => item_bytes(boxes::four('c', 'o', 'v', 'r'), dtype, img@),
        None => Seq::empty(),
    }
}

pub open spec fn items_bytes(meta: Meta) -> Seq<u8> {
    text_bytes(boxes::four('\u{a9}', 'n', 'a', 'm'), meta.title) + text_bytes(
        boxes::four('\u{a9}', 'A', 'R', 'T'),
        meta.artist,
    ) + text_bytes(boxes::four('\u{a9}', 'a', 'l', 'b'), meta.album) + text_bytes(
        boxes::four('\u{a9}', 'd', 'a', 'y'),
        meta.date,
    ) + cover_bytes(meta.cover)
}

/// moov-level udta carrying an iTunes-style meta/ilst, nothing where no field
/// is present.
#[verifier::opaque]
pub open spec fn udta_bytes(meta: Option<&Meta>) -> Seq<u8> {
    match meta {
        Some(m) => if items_bytes(*m).len() == 0 {
            Seq::empty()
        } else {
            boxes::box_bytes(
                boxes::four('u', 'd', 't', 'a'),
                boxes::full_box_bytes(
                    boxes::four('m', 'e', 't', 'a'),
                    0,
                    0,
                    boxes::hdlr_bytes(boxes::four('m', 'd', 'i', 'r'), "appl"@) + boxes::box_bytes(
                        boxes::four('i', 'l', 's', 't'),
                        items_bytes(*m),
                    ),
                ),
            )
        },
        None => Seq::empty(),
    }
}

fn ilst_item(fourcc: &[u8; 4], dtype: u8, payload: &[u8]) -> (r: Vec<u8>)
    ensures
        r@ == item_bytes(fourcc@, dtype, payload@),
{
    let mut p = bytes::be(4, dtype as u64);  // version=0, flags=type
    boxes::put_nulls(&mut p, 4);  // locale
    p.extend_from_slice(payload);
    let data = bx(&boxes::code('d', 'a', 't', 'a'), &p);
    bx(fourcc, &data)
}

fn put_text(items: &mut Vec<u8>, fourcc: [u8; 4], text: &Option<String>)
    ensures
        final(items)@ == old(items)@ + text_bytes(fourcc@, *text),
{
    match text {
        Some(t) => {
            let item = ilst_item(&fourcc, 1, t.as_str().as_bytes());
            items.extend_from_slice(&item);
        },
        None => {
            assert(items@ + Seq::<u8>::empty() =~= items@);
        },
    }
}

fn udta(meta: Option<&Meta>) -> (r: Vec<u8>)
    ensures
        r@ == udta_bytes(meta),
{
    proof {
        reveal(udta_bytes);
    }
    let mut out: Vec<u8> = Vec::new();
    assert(out@ =~= Seq::<u8>::empty());
    if let Some(m) = meta {
        let mut items: Vec<u8> = Vec::new();
        put_text(&mut items, boxes::code('\u{a9}', 'n', 'a', 'm'), &m.title);
        assert(items@ =~= text_bytes(boxes::four('\u{a9}', 'n', 'a', 'm'), m.title));
        put_text(&mut items, boxes::code('\u{a9}', 'A', 'R', 'T'), &m.artist);
        put_text(&mut items, boxes::code('\u{a9}', 'a', 'l', 'b'), &m.album);
        put_text(&mut items, boxes::code('\u{a9}', 'd', 'a', 'y'), &m.date);
        match &m.cover {
            Some(c) => {
                let item = ilst_item(&boxes::code('c', 'o', 'v', 'r'), c.1, &c.0);
                items.extend_from_slice(&item);
            },
            None => {
                assert(items@ + Seq::<u8>::empty() =~= items@);
            },
        }
        assert(items@ == items_bytes(*m));
        if items.len() > 0 {
            let ilst = bx(&boxes::code('i', 'l', 's', 't'), &items);
            let mut p = boxes::hdlr(&boxes::code('m', 'd', 'i', 'r'), "appl");
            p.extend_from_slice(&ilst);
            let inner = boxes::full_box(&boxes::code('m', 'e', 't', 'a'), 0, 0, &p);
            out = bx(&boxes::code('u', 'd', 't', 'a'), &inner);
        }
    }
    out
}

// ---------- the file ----------

/// ftyp: isom + isom/av01/iso8/mp41 compat.
#[verifier::opaque]
pub open spec fn ftyp_bytes() -> Seq<u8> {
    boxes::box_bytes(
        boxes::four('f', 't', 'y', 'p'),
        boxes::four('i', 's', 'o', 'm') + boxes::u32be(512) + boxes::four('i', 's', 'o', 'm')
            + boxes::four('a', 'v', '0', '1') + boxes::four('i', 's', 'o', '8') + boxes::four(
            'm',
            'p',
            '4',
            '1',
        ),
    )
}

/// The audio track, nothing where there is none.
pub open spec fn audio_bytes(audio: Option<&AudioTrack>, ms: u32, stco: Seq<u8>) -> Seq<u8> {
    match audio {
        Some(a) => tracks::audio_trak_bytes(*a, ms, stco),
        None => Seq::empty(),
    }
}

/// moov with the given chunk offsets.
#[verifier::opaque]
pub open spec fn moov_bytes(
    video: VideoTrack,
    audio: Option<&AudioTrack>,
    meta: Option<&Meta>,
    v_stco: Seq<u8>,
    a_stco: Seq<u8>,
) -> Seq<u8> {
    let ms = movie_ms(video, audio);
    boxes::box_bytes(
        boxes::four('m', 'o', 'o', 'v'),
        boxes::mvhd_bytes(ms) + tracks::video_trak_bytes(video, ms, v_stco) + audio_bytes(
            audio,
            ms,
            a_stco,
        ) + udta_bytes(meta),
    )
}

/// The bytes of the video samples.
pub open spec fn video_data(video: VideoTrack) -> Seq<u8> {
    model::concat(model::views(video.samples@))
}

/// The bytes of the audio samples.
pub open spec fn audio_data(audio: Option<&AudioTrack>) -> Seq<u8> {
    match audio {
        Some(a) => model::concat(model::views(a.samples@)),
        None => Seq::empty(),
    }
}

/// Where the video samples start in the file.
pub open spec fn data_offset(video: VideoTrack, audio: Option<&AudioTrack>, meta: Option<&Meta>) -> nat {
    ftyp_bytes().len() + moov_bytes(video, audio, meta, boxes::u32be(0), boxes::u32be(0)).len() + 8
}

/// The whole file: the tables, then the video samples and the audio samples.
pub open spec fn file_bytes(video: VideoTrack, audio: Option<&AudioTrack>, meta: Option<&Meta>) -> Seq<
    u8,
> {
    let at = data_offset(video, audio, meta);
    let data = video_data(video) + audio_data(audio);
    ftyp_bytes() + moov_bytes(
        video,
        audio,
        meta,
        boxes::u32be(at),
        boxes::u32be(at + video_data(video).len()),
    ) + boxes::box_bytes(boxes::four('m', 'd', 'a', 't'), data)
}

fn ftyp() -> (r: Vec<u8>)
    ensures
        r@ == ftyp_bytes(),
{
    proof {
        reveal(ftyp_bytes);
    }
    let mut p: Vec<u8> = Vec::new();
    p.extend_from_slice(&boxes::code('i', 's', 'o', 'm'));
    assert(p@ =~= boxes::four('i', 's', 'o', 'm'));
    bytes::put_be(&mut p, 4, 512);  // minor_version
    p.extend_from_slice(&boxes::code('i', 's', 'o', 'm'));
    p.extend_from_slice(&boxes::code('a', 'v', '0', '1'));
    p.extend_from_slice(&boxes::code('i', 's', 'o', '8'));
    p.extend_from_slice(&boxes::code('m', 'p', '4', '1'));
    bx(&boxes::code('f', 't', 'y', 'p'), &p)
}

fn put_samples(out: &mut Vec<u8>, samples: &Vec<Sample>)
    ensures
        final(out)@ == old(out)@ + model::concat(model::views(samples@)),
{
    let ghost all = model::views(samples@);
    let ghost had = out@;
    let mut i: usize = 0;
    assert(all.take(0) =~= Seq::empty());
    assert(had + model::concat(all.take(0)) =~= had);
    while i < samples.len()
        invariant
            i <= samples@.len(),
            all == model::views(samples@),
            had == old(out)@,
            out@ == had + model::concat(all.take(i as int)),
        decreases samples@.len() - i,
    {
        out.extend_from_slice(&samples[i].0);
        proof {
            assert(all[i as int] == samples@[i as int].0@);
            assert(all.take(i + 1) =~= all.take(i as int).push(all[i as int]));
            model::lemma_concat_push(all.take(i as int), all[i as int]);
            assert(out@ =~= had + model::concat(all.take(i + 1)));
        }
        i = i + 1;
    }
    assert(all.take(i as int) =~= all);
}

/// Media durations of both tracks and the duration of the movie.
fn durations(video: &VideoTrack, audio: Option<&AudioTrack>) -> (r: (u64, u64, u32))
    requires
        timed(video.samples@.len(), video.sample_delta, video.timescale),
        audio matches Some(a) ==> timed(a.samples@.len(), a.sample_delta, a.sample_rate),
    ensures
        r.0 == video.sample_delta * video.samples@.len(),
        audio matches Some(a) ==> r.1 == a.sample_delta * a.samples@.len(),
        r.2 == movie_ms(*video, audio),
{
    let (v_media_dur, v_ms) = media_duration(
        video.samples.len(),
        video.sample_delta,
        video.timescale,
    );
    match audio {
        Some(a) => {
            let (a_media_dur, a_ms) = media_duration(
                a.samples.len(),
                a.sample_delta,
                a.sample_rate,
            );
            let ms: u32 = if a_ms > v_ms {
                a_ms
            } else {
                v_ms
            };
            (v_media_dur, a_media_dur, ms)
        },
        None => (v_media_dur, 0, v_ms),
    }
}

fn moov(
    video: &VideoTrack,
    audio: Option<&AudioTrack>,
    meta: Option<&Meta>,
    v_stco: &Vec<u8>,
    a_stco: &Vec<u8>,
) -> (r: Vec<u8>)
    requires
        timed(video.samples@.len(), video.sample_delta, video.timescale),
        audio matches Some(a) ==> timed(a.samples@.len(), a.sample_delta, a.sample_rate),
    ensures
        r@ == moov_bytes(*video, audio, meta, v_stco@, a_stco@),
{
    proof {
        reveal(moov_bytes);
    }
    let (v_media_dur, a_media_dur, ms) = durations(video, audio);
    let mut p = boxes::mvhd(ms);
    let trak = tracks::video_trak(video, v_media_dur, ms, v_stco);
    p.extend_from_slice(&trak);
    match audio {
        Some(a) => {
            let trak = tracks::audio_trak(a, a_media_dur, ms, a_stco);
            p.extend_from_slice(&trak);
        },
        None => {
            assert(p@ + Seq::<u8>::empty() =~= p@);
        },
    }
    let u = udta(meta);
    p.extend_from_slice(&u);
    bx(&boxes::code('m', 'o', 'o', 'v'), &p)
}

/// Serialize the whole file. Video samples = temporal units in order.
/// Audio is optional; when present both tracks mux into the same mdat.
/// Sizes, offsets and counts are stored in 32 bits, whatever they are.
pub fn write(video: &VideoTrack, audio: Option<&AudioTrack>, meta: Option<&Meta>) -> (res: Result<
    Vec<u8>,
    Mp4Error,
>)
    requires
        video.samples@.len() > 0 ==> timed(
            video.samples@.len(),
            video.sample_delta,
            video.timescale,
        ),
        video.samples@.len() > 0 && audio is Some ==> timed(
            audio->Some_0.samples@.len(),
            audio->Some_0.sample_delta,
            audio->Some_0.sample_rate,
        ),
    ensures
        match res {
            Ok(file) => video.samples@.len() > 0 && file@ == file_bytes(*video, audio, meta),
            Err(Mp4Error::NoVideoSamples) => video.samples@.len() == 0,
        },
{
    if video.samples.len() == 0 {
        return Err(Mp4Error::NoVideoSamples);
    }
    // mdat: video samples, then audio samples

    let mut data: Vec<u8> = Vec::new();
    put_samples(&mut data, &video.samples);
    assert(data@ =~= video_data(*video));
    let a_off = data.len();
    match audio {
        Some(a) => put_samples(&mut data, &a.samples),
        None => {
            assert(data@ + Seq::<u8>::empty() =~= data@);
        },
    }
    // stco doesn't depend on its own values (one fixed-size entry per chunk),
    // so build moov once to measure it, then rebuild with real chunk offsets.
    let nought = bytes::be(4, 0);
    let measured = moov(video, audio, meta, &nought, &nought);
    let mut out = ftyp();
    proof {
        lemma_ftyp_len();
    }
    let v_stco = bytes::be_sum(4, out.len() + 8, measured.len(), 0);
    let a_stco = bytes::be_sum(4, out.len() + 8, measured.len(), a_off);
    let tables = moov(video, audio, meta, &v_stco, &a_stco);
    let mdat = bx(&boxes::code('m', 'd', 'a', 't'), &data);
    out.extend_from_slice(&tables);
    out.extend_from_slice(&mdat);
    Ok(out)
}

proof fn lemma_ftyp_len()
    ensures
        ftyp_bytes().len() == 32,
{
    reveal(ftyp_bytes);
    bytes::lemma_be_bytes_len(4, 512);
    bytes::lemma_be_bytes_len(4, 32);
}

// ---------- laws ----------

/// The length of moov does not depend on the chunk offsets it holds.
pub proof fn moov_length_ignores_offsets(
    video: VideoTrack,
    audio: Option<&AudioTrack>,
    meta: Option<&Meta>,
    v1: Seq<u8>,
    a1: Seq<u8>,
    v2: Seq<u8>,
    a2: Seq<u8>,
)
    requires
        v1.len() == v2.len(),
        a1.len() == a2.len(),
    ensures
        moov_bytes(video, audio, meta, v1, a1).len() == moov_bytes(video, audio, meta, v2, a2).len(),
{
    broadcast use bytes::lemma_be_bytes_len;

    reveal(moov_bytes);
    let ms = movie_ms(video, audio);
    tracks::lemma_video_trak_len(video, ms, v1, v2);
    if let Some(a) = audio {
        tracks::lemma_audio_trak_len(*a, ms, a1, a2);
    }
}

/// The chunk offsets in the sample tables are where the samples are: the file
/// holds the video samples from `data_offset` on and the audio samples behind
/// them, to its end.
pub proof fn chunk_offsets_point_at_the_samples(
    video: VideoTrack,
    audio: Option<&AudioTrack>,
    meta: Option<&Meta>,
)
    ensures
        ({
            let file = file_bytes(video, audio, meta);
            let at = data_offset(video, audio, meta);
            let mid = at + video_data(video).len();
            &&& file.len() == mid + audio_data(audio).len()
            &&& file.subrange(at as int, mid as int) == video_data(video)
            &&& file.skip(mid as int) == audio_data(audio)
        }),
{
    broadcast use bytes::lemma_be_bytes_len;

    let file = file_bytes(video, audio, meta);
    let at = data_offset(video, audio, meta);
    let v = video_data(video);
    let a = audio_data(audio);
    let mid = at + v.len();
    let zero = boxes::u32be(0);
    moov_length_ignores_offsets(video, audio, meta, zero, zero, boxes::u32be(at), boxes::u32be(mid));
    let tables = ftyp_bytes() + moov_bytes(
        video,
        audio,
        meta,
        boxes::u32be(at),
        boxes::u32be(mid),
    );
    let head = boxes::u32be((v + a).len() + 8) + boxes::four('m', 'd', 'a', 't');
    assert(tables.len() + head.len() == at);
    assert(file =~= tables + head + v + a);
    assert(file.subrange(at as int, mid as int) =~= v);
    assert(file.skip(mid as int) =~= a);
}

} // verus!
