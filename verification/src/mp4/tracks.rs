//! Sample entries, sample tables and tracks.

use vstd::prelude::*;

use crate::bytes;
use crate::model;
use crate::mp4::boxes::{self, bx, full_box};
use crate::mp4::{AudioTrack, Sample, VideoTrack};

verus! {

// ---------- sample entries ----------

pub open spec fn av01_bytes(t: VideoTrack) -> Seq<u8> {
    boxes::box_bytes(
        boxes::four('a', 'v', '0', '1'),
        // reserved, data_reference_index, pre_defined and reserved
        boxes::nulls(6) + boxes::u16be(1) + boxes::nulls(16) + boxes::u16be(t.width as nat)
            + boxes::u16be(t.height as nat)
        // 72 dpi, reserved, frame_count
         + boxes::u32be(0x0048_0000) + boxes::u32be(0x0048_0000) + boxes::nulls(4) + boxes::u16be(1)
        // compressorname, depth, pre_defined
         + boxes::four('a', 'v', '0', '1') + boxes::nulls(28) + boxes::u16be(0x0018) + boxes::u16be(
            0xffff,
        ) + boxes::box_bytes(boxes::four('a', 'v', '1', 'C'), t.av1c@),
    )
}

/// DecSpecificInfo, with the AudioSpecificConfig.
pub open spec fn specific_info_bytes(t: AudioTrack) -> Seq<u8> {
    seq![0x05u8] + bytes::be_bytes(1, t.audio_specific_config@.len()) + t.audio_specific_config@
}

/// DecoderConfigDescr: AAC, audio stream, no buffer size, the bitrates.
pub open spec fn decoder_config_bytes(t: AudioTrack) -> Seq<u8> {
    seq![0x04u8] + bytes::be_bytes(1, specific_info_bytes(t).len() + 13) + seq![0x40u8, 0x15u8]
        + boxes::nulls(3) + boxes::u32be(t.max_bitrate as nat) + boxes::u32be(t.avg_bitrate as nat)
        + specific_info_bytes(t)
}

pub open spec fn esds_bytes(t: AudioTrack) -> Seq<u8> {
    boxes::full_box_bytes(
        boxes::four('e', 's', 'd', 's'),
        0,
        0,
        // ES_Descriptor with ES_ID 1 and no flags
        seq![0x03u8] + bytes::be_bytes(1, decoder_config_bytes(t).len() + 3) + boxes::u16be(1)
            + boxes::nulls(1) + decoder_config_bytes(t),
    )
}

pub open spec fn mp4a_bytes(t: AudioTrack) -> Seq<u8> {
    boxes::box_bytes(
        boxes::four('m', 'p', '4', 'a'),
        boxes::nulls(6) + boxes::u16be(1) + boxes::nulls(8) + boxes::u16be(t.channels as nat)
        // sample_size, pre_defined and reserved, sample rate as 16.16
         + boxes::u16be(16) + boxes::nulls(4) + boxes::u32be((t.sample_rate * 0x1_0000) as nat)
            + esds_bytes(t),
    )
}

fn start(b: u8) -> (r: Vec<u8>)
    ensures
        r@ == seq![b],
{
    let mut p: Vec<u8> = Vec::new();
    p.push(b);
    assert(p@ =~= seq![b]);
    p
}

fn av01_sample_entry(t: &VideoTrack) -> (r: Vec<u8>)
    ensures
        r@ == av01_bytes(*t),
{
    let mut e = boxes::start_nulls(6);
    bytes::put_be(&mut e, 2, 1);
    boxes::put_nulls(&mut e, 16);
    bytes::put_be(&mut e, 2, t.width as u64);
    bytes::put_be(&mut e, 2, t.height as u64);
    bytes::put_be(&mut e, 4, 0x0048_0000);
    bytes::put_be(&mut e, 4, 0x0048_0000);
    boxes::put_nulls(&mut e, 4);
    bytes::put_be(&mut e, 2, 1);
    e.extend_from_slice(&boxes::code('a', 'v', '0', '1'));
    boxes::put_nulls(&mut e, 28);
    bytes::put_be(&mut e, 2, 0x0018);
    bytes::put_be(&mut e, 2, 0xffff);
    let av1c = bx(&boxes::code('a', 'v', '1', 'C'), &t.av1c);
    e.extend_from_slice(&av1c);
    bx(&boxes::code('a', 'v', '0', '1'), &e)
}

fn specific_info(t: &AudioTrack) -> (r: Vec<u8>)
    ensures
        r@ == specific_info_bytes(*t),
{
    let mut dsi = start(0x05);
    bytes::put_be(&mut dsi, 1, t.audio_specific_config.len() as u64);
    dsi.extend_from_slice(&t.audio_specific_config);
    dsi
}

fn decoder_config(t: &AudioTrack) -> (r: Vec<u8>)
    ensures
        r@ == decoder_config_bytes(*t),
{
    let dsi = specific_info(t);
    let len = bytes::be_sum(1, dsi.len(), 13, 0);
    let mut dcd = start(0x04);
    dcd.extend_from_slice(&len);
    let ghost head = dcd@;
    dcd.push(0x40);  // objectTypeIndication: AAC
    dcd.push(0x15);  // streamType audio, no upstream, reserved bit
    assert(dcd@ =~= head + seq![0x40u8, 0x15u8]);
    boxes::put_nulls(&mut dcd, 3);  // bufferSizeDB
    bytes::put_be(&mut dcd, 4, t.max_bitrate as u64);
    bytes::put_be(&mut dcd, 4, t.avg_bitrate as u64);
    dcd.extend_from_slice(&dsi);
    dcd
}

fn esds_box(t: &AudioTrack) -> (r: Vec<u8>)
    ensures
        r@ == esds_bytes(*t),
{
    let dcd = decoder_config(t);
    let len = bytes::be_sum(1, dcd.len(), 3, 0);
    let mut esd = start(0x03);
    esd.extend_from_slice(&len);
    bytes::put_be(&mut esd, 2, 1);  // ES_ID
    boxes::put_nulls(&mut esd, 1);  // flags
    esd.extend_from_slice(&dcd);
    full_box(&boxes::code('e', 's', 'd', 's'), 0, 0, &esd)
}

fn mp4a_sample_entry(t: &AudioTrack) -> (r: Vec<u8>)
    ensures
        r@ == mp4a_bytes(*t),
{
    let mut e = boxes::start_nulls(6);
    bytes::put_be(&mut e, 2, 1);
    boxes::put_nulls(&mut e, 8);
    bytes::put_be(&mut e, 2, t.channels as u64);
    bytes::put_be(&mut e, 2, 16);
    boxes::put_nulls(&mut e, 4);
    bytes::put_be(&mut e, 4, t.sample_rate as u64 * 0x1_0000);
    let esds = esds_box(t);
    e.extend_from_slice(&esds);
    bx(&boxes::code('m', 'p', '4', 'a'), &e)
}

// ---------- sample tables ----------

/// Each sample's duration: all the same.
pub open spec fn stts_bytes(n: nat, delta: u32) -> Seq<u8> {
    boxes::u32be(1) + boxes::u32be(n) + boxes::u32be(delta as nat)
}

/// One chunk with all samples.
pub open spec fn stsc_bytes(n: nat) -> Seq<u8> {
    boxes::u32be(1) + boxes::u32be(1) + boxes::u32be(n) + boxes::u32be(1)
}

/// The size of each sample.
pub open spec fn stsz_bytes(samples: Seq<Seq<u8>>) -> Seq<u8> {
    boxes::nulls(4) + boxes::u32be(samples.len()) + model::concat(
        Seq::new(samples.len(), |i: int| boxes::u32be(samples[i].len())),
    )
}

/// The numbers of the keyframes.
pub open spec fn stss_bytes(sync: Seq<u32>) -> Seq<u8> {
    boxes::u32be(sync.len()) + model::concat(
        Seq::new(sync.len(), |i: int| boxes::u32be(sync[i] as nat)),
    )
}

/// The keyframe table, nothing where every sample is one.
pub open spec fn sync_bytes(sync: Option<Seq<u32>>) -> Seq<u8> {
    match sync {
        Some(s) => boxes::full_box_bytes(boxes::four('s', 't', 's', 's'), 0, 0, stss_bytes(s)),
        None => Seq::empty(),
    }
}

pub open spec fn stbl_bytes(
    entry: Seq<u8>,
    samples: Seq<Seq<u8>>,
    delta: u32,
    sync: Option<Seq<u32>>,
    stco: Seq<u8>,
) -> Seq<u8> {
    boxes::box_bytes(
        boxes::four('s', 't', 'b', 'l'),
        boxes::full_box_bytes(boxes::four('s', 't', 's', 'd'), 0, 0, boxes::u32be(1) + entry)
            + boxes::full_box_bytes(
            boxes::four('s', 't', 't', 's'),
            0,
            0,
            stts_bytes(samples.len(), delta),
        ) + boxes::full_box_bytes(
            boxes::four('s', 't', 's', 'c'),
            0,
            0,
            stsc_bytes(samples.len()),
        ) + boxes::full_box_bytes(boxes::four('s', 't', 's', 'z'), 0, 0, stsz_bytes(samples))
            + boxes::full_box_bytes(boxes::four('s', 't', 'c', 'o'), 0, 0, boxes::u32be(1) + stco)
            + sync_bytes(sync),
    )
}

fn stsz(samples: &Vec<Sample>) -> (r: Vec<u8>)
    ensures
        r@ == stsz_bytes(model::views(samples@)),
{
    let ghost all = model::views(samples@);
    let ghost parts = Seq::new(all.len(), |i: int| boxes::u32be(all[i].len()));
    let mut p = boxes::start_nulls(4);  // variable sample size
    bytes::put_be(&mut p, 4, samples.len() as u64);
    let ghost head = p@;
    let mut i: usize = 0;
    assert(parts.take(0) =~= Seq::empty());
    assert(head + model::concat(parts.take(0)) =~= head);
    while i < samples.len()
        invariant
            i <= samples@.len(),
            all == model::views(samples@),
            parts == Seq::new(all.len(), |i: int| boxes::u32be(all[i].len())),
            p@ == head + model::concat(parts.take(i as int)),
        decreases samples@.len() - i,
    {
        bytes::put_be(&mut p, 4, samples[i].0.len() as u64);
        proof {
            assert(all[i as int] == samples@[i as int].0@);
            assert(parts.take(i + 1) =~= parts.take(i as int).push(parts[i as int]));
            model::lemma_concat_push(parts.take(i as int), parts[i as int]);
            assert(p@ =~= head + model::concat(parts.take(i + 1)));
        }
        i = i + 1;
    }
    assert(parts.take(i as int) =~= parts);
    p
}

fn stss(sync: &Vec<u32>) -> (r: Vec<u8>)
    ensures
        r@ == stss_bytes(sync@),
{
    let ghost parts = Seq::new(sync@.len(), |i: int| boxes::u32be(sync@[i] as nat));
    let mut p = bytes::be(4, sync.len() as u64);
    let ghost head = p@;
    let mut i: usize = 0;
    assert(parts.take(0) =~= Seq::empty());
    assert(head + model::concat(parts.take(0)) =~= head);
    while i < sync.len()
        invariant
            i <= sync@.len(),
            parts == Seq::new(sync@.len(), |i: int| boxes::u32be(sync@[i] as nat)),
            p@ == head + model::concat(parts.take(i as int)),
        decreases sync@.len() - i,
    {
        bytes::put_be(&mut p, 4, sync[i] as u64);
        proof {
            assert(parts.take(i + 1) =~= parts.take(i as int).push(parts[i as int]));
            model::lemma_concat_push(parts.take(i as int), parts[i as int]);
            assert(p@ =~= head + model::concat(parts.take(i + 1)));
        }
        i = i + 1;
    }
    assert(parts.take(i as int) =~= parts);
    p
}

/// The content of an optional list.
pub open spec fn sync_view(sync: Option<&Vec<u32>>) -> Option<Seq<u32>> {
    match sync {
        Some(s) => Some(s@),
        None => None,
    }
}

fn stbl(
    entry: &Vec<u8>,
    samples: &Vec<Sample>,
    delta: u32,
    sync: Option<&Vec<u32>>,
    stco: &Vec<u8>,
) -> (r: Vec<u8>)
    ensures
        r@ == stbl_bytes(entry@, model::views(samples@), delta, sync_view(sync), stco@),
{
    let mut stsd = bytes::be(4, 1);
    stsd.extend_from_slice(entry);
    let mut p = full_box(&boxes::code('s', 't', 's', 'd'), 0, 0, &stsd);
    let mut stts = bytes::be(4, 1);  // entry_count
    bytes::put_be(&mut stts, 4, samples.len() as u64);
    bytes::put_be(&mut stts, 4, delta as u64);
    let table = full_box(&boxes::code('s', 't', 't', 's'), 0, 0, &stts);
    p.extend_from_slice(&table);
    let mut stsc = bytes::be(4, 1);
    bytes::put_be(&mut stsc, 4, 1);  // first_chunk
    bytes::put_be(&mut stsc, 4, samples.len() as u64);  // samples_per_chunk
    bytes::put_be(&mut stsc, 4, 1);  // sample_description_index
    let table = full_box(&boxes::code('s', 't', 's', 'c'), 0, 0, &stsc);
    p.extend_from_slice(&table);
    let sizes = stsz(samples);
    let table = full_box(&boxes::code('s', 't', 's', 'z'), 0, 0, &sizes);
    p.extend_from_slice(&table);
    let mut chunks = bytes::be(4, 1);
    chunks.extend_from_slice(stco);
    let table = full_box(&boxes::code('s', 't', 'c', 'o'), 0, 0, &chunks);
    p.extend_from_slice(&table);
    match sync {
        Some(s) => {
            let numbers = stss(s);
            let table = full_box(&boxes::code('s', 't', 's', 's'), 0, 0, &numbers);
            p.extend_from_slice(&table);
        },
        None => {
            assert(p@ + Seq::<u8>::empty() =~= p@);
        },
    }
    bx(&boxes::code('s', 't', 'b', 'l'), &p)
}

// ---------- tracks ----------

pub open spec fn trak_bytes(tkhd: Seq<u8>, mdhd: Seq<u8>, hdlr: Seq<u8>, minf: Seq<u8>) -> Seq<u8> {
    boxes::box_bytes(
        boxes::four('t', 'r', 'a', 'k'),
        tkhd + boxes::box_bytes(boxes::four('m', 'd', 'i', 'a'), mdhd + hdlr + minf),
    )
}

/// The video track.
#[verifier::opaque]
pub open spec fn video_trak_bytes(t: VideoTrack, ms: u32, stco: Seq<u8>) -> Seq<u8> {
    let samples = model::views(t.samples@);
    trak_bytes(
        boxes::tkhd_bytes(1, ms, t.width, t.height, 0),
        boxes::mdhd_bytes(t.timescale, (t.sample_delta * samples.len()) as nat, None),
        boxes::hdlr_bytes(boxes::four('v', 'i', 'd', 'e'), "stillcast video"@),
        boxes::minf_bytes(
            boxes::vmhd_bytes(),
            stbl_bytes(av01_bytes(t), samples, t.sample_delta, Some(t.sync_samples@), stco),
        ),
    )
}

/// The audio track.
#[verifier::opaque]
pub open spec fn audio_trak_bytes(t: AudioTrack, ms: u32, stco: Seq<u8>) -> Seq<u8> {
    let samples = model::views(t.samples@);
    trak_bytes(
        boxes::tkhd_bytes(2, ms, 0, 0, 0x0100),
        boxes::mdhd_bytes(
            t.sample_rate,
            (t.sample_delta * samples.len()) as nat,
            boxes::code_bytes(boxes::chars_of(t.language)),
        ),
        boxes::hdlr_bytes(boxes::four('s', 'o', 'u', 'n'), "stillcast audio"@),
        boxes::minf_bytes(
            boxes::smhd_bytes(),
            stbl_bytes(mp4a_bytes(t), samples, t.sample_delta, None, stco),
        ),
    )
}

fn trak(tkhd: Vec<u8>, mdhd: Vec<u8>, hdlr: &Vec<u8>, minf: &Vec<u8>) -> (r: Vec<u8>)
    ensures
        r@ == trak_bytes(tkhd@, mdhd@, hdlr@, minf@),
{
    let mut m = mdhd;
    m.extend_from_slice(hdlr);
    m.extend_from_slice(minf);
    let mdia = bx(&boxes::code('m', 'd', 'i', 'a'), &m);
    let mut t = tkhd;
    t.extend_from_slice(&mdia);
    bx(&boxes::code('t', 'r', 'a', 'k'), &t)
}

pub(crate) fn video_trak(t: &VideoTrack, media_duration: u64, ms: u32, stco: &Vec<u8>) -> (r: Vec<
    u8,
>)
    requires
        media_duration == t.sample_delta * t.samples@.len(),
    ensures
        r@ == video_trak_bytes(*t, ms, stco@),
{
    proof {
        reveal(video_trak_bytes);
    }
    let entry = av01_sample_entry(t);
    let table = stbl(&entry, &t.samples, t.sample_delta, Some(&t.sync_samples), stco);
    let minf = boxes::minf_video(&table);
    let hdlr = boxes::hdlr(&boxes::code('v', 'i', 'd', 'e'), "stillcast video");
    let mdhd = boxes::mdhd(t.timescale, media_duration, &None);
    trak(boxes::tkhd(1, ms, t.width, t.height, 0), mdhd, &hdlr, &minf)
}

pub(crate) fn audio_trak(t: &AudioTrack, media_duration: u64, ms: u32, stco: &Vec<u8>) -> (r: Vec<
    u8,
>)
    requires
        media_duration == t.sample_delta * t.samples@.len(),
    ensures
        r@ == audio_trak_bytes(*t, ms, stco@),
{
    proof {
        reveal(audio_trak_bytes);
    }
    let entry = mp4a_sample_entry(t);
    let table = stbl(&entry, &t.samples, t.sample_delta, None, stco);
    let minf = boxes::minf_audio(&table);
    let hdlr = boxes::hdlr(&boxes::code('s', 'o', 'u', 'n'), "stillcast audio");
    let mdhd = boxes::mdhd(t.sample_rate, media_duration, &t.language);
    trak(boxes::tkhd(2, ms, 0, 0, 0x0100), mdhd, &hdlr, &minf)
}

proof fn lemma_stbl_len(
    entry: Seq<u8>,
    samples: Seq<Seq<u8>>,
    delta: u32,
    sync: Option<Seq<u32>>,
    x: Seq<u8>,
    y: Seq<u8>,
)
    requires
        x.len() == y.len(),
    ensures
        stbl_bytes(entry, samples, delta, sync, x).len() == stbl_bytes(
            entry,
            samples,
            delta,
            sync,
            y,
        ).len(),
{
    broadcast use bytes::lemma_be_bytes_len;

}

pub proof fn lemma_video_trak_len(t: VideoTrack, ms: u32, x: Seq<u8>, y: Seq<u8>)
    requires
        x.len() == y.len(),
    ensures
        video_trak_bytes(t, ms, x).len() == video_trak_bytes(t, ms, y).len(),
{
    broadcast use bytes::lemma_be_bytes_len;

    reveal(video_trak_bytes);
    lemma_stbl_len(
        av01_bytes(t),
        model::views(t.samples@),
        t.sample_delta,
        Some(t.sync_samples@),
        x,
        y,
    );
}

pub proof fn lemma_audio_trak_len(t: AudioTrack, ms: u32, x: Seq<u8>, y: Seq<u8>)
    requires
        x.len() == y.len(),
    ensures
        audio_trak_bytes(t, ms, x).len() == audio_trak_bytes(t, ms, y).len(),
{
    broadcast use bytes::lemma_be_bytes_len;

    reveal(audio_trak_bytes);
    lemma_stbl_len(mp4a_bytes(t), model::views(t.samples@), t.sample_delta, None, x, y);
}

} // verus!
