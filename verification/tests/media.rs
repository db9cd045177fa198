//! ADTS audio and MP4 files.

use stillcast::adts::{parse, AdtsError};
use stillcast::mp4::{self, build_av1c, bx, AudioTrack, Meta, Mp4Error, Sample, VideoTrack};
use stillcast::seq_header::SequenceHeader;

/// Build one ADTS frame (protection_absent=1, AAC-LC) wrapping `payload`.
fn adts_frame(payload: &[u8], freq_idx: u8, chan_cfg: u8) -> Vec<u8> {
    let frame_len = (7 + payload.len()) as u16;
    let mut v = vec![
        0xff,
        0xf1,
        (1 << 6) | (freq_idx << 2) | (chan_cfg >> 2),
        (chan_cfg << 6) | ((frame_len >> 11) as u8),
        (frame_len >> 3) as u8,
        (((frame_len & 0x7) << 5) | 0x1f) as u8,
        0xfc,
    ];
    v.extend_from_slice(payload);
    v
}

#[test]
fn rejects_channel_config_zero() {
    // chan_cfg 0 = layout lives in a Program Config Element inside the
    // payload; the mp4 mp4a entry would get an invalid channelcount 0.
    let data = adts_frame(&[0xde, 0xad], 4, 0);
    let err = parse(&data).err().unwrap().message();
    assert!(err.contains("channel_config 0"), "{err}");
    assert!(err.contains("ffmpeg"), "{err}");
}

#[test]
fn rejects_mid_stream_config_change() {
    // chan_cfg changing between frames would leave the mp4 declaring
    // the first frame's layout for the whole track.
    let mut data = adts_frame(&[0x01], 4, 2);
    data.extend_from_slice(&adts_frame(&[0x02], 4, 6));
    let err = parse(&data).err().unwrap().message();
    assert!(err.contains("mid-stream"), "{err}");
}

#[test]
fn parses_stereo_frame() {
    let data = adts_frame(&[0xaa; 4], 4, 2);
    let s = parse(&data).unwrap_or_else(|e| panic!("{}", e.message()));
    assert_eq!(s.sample_rate, 44100);
    assert_eq!(s.channels, 2);
    assert_eq!(s.frames.len(), 1);
    assert_eq!(s.frames[0], [0xaa; 4]);
}

#[test]
fn audio_specific_config_packs_type_rate_and_channels() {
    // AAC-LC (2), 44.1 kHz (index 4), stereo: 00010 0100 0010 000.
    let s = parse(&adts_frame(&[0], 4, 2)).ok().unwrap();
    assert_eq!(s.audio_specific_config, [0x12, 0x10]);
    // 48 kHz (index 3), six channels: 00010 0011 0110 000.
    let s = parse(&adts_frame(&[0], 3, 6)).ok().unwrap();
    assert_eq!(s.audio_specific_config, [0x11, 0xb0]);
    assert_eq!(s.sample_rate, 48000);
    assert_eq!(s.channels, 6);
}

#[test]
fn adts_frames_cover_the_data() {
    let mut data = adts_frame(&[1, 2, 3], 4, 2);
    data.extend_from_slice(&adts_frame(&[], 4, 2));
    data.extend_from_slice(&adts_frame(&[9; 1000], 4, 2));
    let s = parse(&data).ok().unwrap();
    assert_eq!(s.frames, vec![vec![1, 2, 3], vec![], vec![9; 1000]]);
    let total: usize = s.frames.iter().map(|f| f.len() + 7).sum();
    assert_eq!(total, data.len());
}

#[test]
fn adts_errors() {
    let err = |data: &[u8]| parse(data).err().unwrap();
    assert_eq!(err(&[]), AdtsError::NoFrames);
    assert_eq!(err(&[0xff, 0xf1]), AdtsError::TruncatedHeader(0));
    assert_eq!(err(&[0xff, 0xe1, 0, 0, 0, 0, 0]), AdtsError::SyncLost(0));
    let mut crc = adts_frame(&[0], 4, 2);
    crc[1] = 0xf0;
    assert_eq!(err(&crc), AdtsError::Crc);
    let mut short = adts_frame(&[0], 4, 2);
    short[4] = 0;
    short[5] = 0xdf; // length 6
    assert_eq!(err(&short), AdtsError::BadFrameLength(6));
    let mut cut = adts_frame(&[1, 2], 4, 2);
    cut.pop();
    assert_eq!(err(&cut), AdtsError::TruncatedFrame(0));
    assert_eq!(err(&adts_frame(&[0], 15, 2)), AdtsError::ExplicitRate);
    assert_eq!(err(&adts_frame(&[0], 13, 2)), AdtsError::ReservedFrequency);
    let mut two = adts_frame(&[1], 4, 2);
    two.extend_from_slice(&[0, 0, 0, 0, 0, 0, 0]);
    assert_eq!(err(&two), AdtsError::SyncLost(8));
    let mut change = adts_frame(&[1], 4, 2);
    change.extend_from_slice(&adts_frame(&[1], 5, 2));
    assert_eq!(err(&change), AdtsError::ConfigChange(8));
    assert_eq!(
        AdtsError::TruncatedHeader(12).message(),
        "truncated ADTS header at 12"
    );
    assert_eq!(AdtsError::BadFrameLength(6).message(), "bad ADTS frame length 6");
}

#[test]
fn box_sizes() {
    let b = bx(b"free", &[1, 2, 3]);
    assert_eq!(&b[..8], &[0, 0, 0, 11, b'f', b'r', b'e', b'e']);
}

#[test]
fn av1c_packs_profile_level_and_format() {
    let sh = SequenceHeader {
        seq_profile: 1,
        seq_level_idx: 20,
        seq_tier: 1,
        bit_depth: 10,
        mono_chrome: false,
        subsample_x: true,
        subsample_y: true,
        chroma_sample_position: 1,
        ..Default::default()
    };
    let v = build_av1c(&sh, &[0x0a, 0x01, 0x55]);
    assert_eq!(v, vec![0x81, 0x34, 0xcd, 0x00, 0x0a, 0x01, 0x55]);
    let twelve = SequenceHeader {
        bit_depth: 12,
        ..Default::default()
    };
    assert_eq!(build_av1c(&twelve, &[])[2], 0x60);
}

fn video() -> VideoTrack {
    VideoTrack {
        samples: vec![Sample(vec![1, 2, 3]), Sample(vec![4]), Sample(vec![5, 6])],
        sync_samples: vec![1],
        width: 640,
        height: 360,
        timescale: 30,
        sample_delta: 1,
        av1c: vec![0x81, 0, 0, 0],
    }
}

fn audio() -> AudioTrack {
    AudioTrack {
        samples: vec![Sample(vec![7, 7]), Sample(vec![8])],
        audio_specific_config: vec![0x12, 0x10],
        sample_rate: 44100,
        channels: 2,
        sample_delta: 1024,
        avg_bitrate: 128000,
        max_bitrate: 128000,
        language: Some("eng".to_string()),
    }
}

/// The payload of the first box of this type, found by walking `path`.
fn payload<'a>(data: &'a [u8], path: &[&[u8; 4]]) -> &'a [u8] {
    let mut inside = data;
    for name in path {
        let mut at = 0;
        let mut found = None;
        while at + 8 <= inside.len() {
            let size = be32(&inside[at..]);
            if &inside[at + 4..at + 8] == name.as_slice() {
                found = Some(&inside[at + 8..at + size]);
                break;
            }
            at += size;
        }
        inside = found.unwrap_or_else(|| panic!("no box"));
    }
    inside
}

fn be32(data: &[u8]) -> usize {
    u32::from_be_bytes([data[0], data[1], data[2], data[3]]) as usize
}

#[test]
fn mp4_boxes_tile_the_file_and_offsets_point_at_the_samples() {
    let (v, a) = (video(), audio());
    let file = mp4::write(&v, Some(&a), None).ok().unwrap();
    // Top-level boxes: ftyp, moov, mdat, to the end of the file.
    let ftyp = be32(&file);
    assert_eq!(ftyp, 32);
    assert_eq!(&file[4..12], b"ftypisom");
    let moov = be32(&file[ftyp..]);
    assert_eq!(&file[ftyp + 4..ftyp + 8], b"moov");
    let mdat = ftyp + moov;
    assert_eq!(be32(&file[mdat..]), file.len() - mdat);
    assert_eq!(&file[mdat + 4..mdat + 8], b"mdat");
    assert_eq!(&file[mdat + 8..], &[1, 2, 3, 4, 5, 6, 7, 7, 8]);

    // The first track's chunk starts right behind the mdat header.
    let stbl = payload(&file, &[b"moov", b"trak", b"mdia", b"minf", b"stbl"]);
    assert_eq!(be32(&payload(stbl, &[b"stco"])[8..]), mdat + 8);
    // Sizes of the samples, the only keyframe, one constant duration.
    let stsz = payload(stbl, &[b"stsz"]);
    assert_eq!(stsz, &[0, 0, 0, 0, 0, 0, 0, 0, 0, 0, 0, 3, 0, 0, 0, 3, 0, 0, 0, 1, 0, 0, 0, 2]);
    assert_eq!(payload(stbl, &[b"stss"]), &[0, 0, 0, 0, 0, 0, 0, 1, 0, 0, 0, 1]);
    assert_eq!(payload(stbl, &[b"stts"]), &[0, 0, 0, 0, 0, 0, 0, 1, 0, 0, 0, 3, 0, 0, 0, 1]);

    // The audio chunk follows the video samples.
    let moov_payload = payload(&file, &[b"moov"]);
    let mvhd = be32(moov_payload);
    let first = be32(&moov_payload[mvhd..]);
    let second = &moov_payload[mvhd + first..];
    let stbl = payload(second, &[b"trak", b"mdia", b"minf", b"stbl"]);
    assert_eq!(be32(&payload(stbl, &[b"stco"])[8..]), mdat + 8 + 6);
    // "eng" packed into 15 bits.
    let mdhd = payload(second, &[b"trak", b"mdia", b"mdhd"]);
    assert_eq!(&mdhd[20..22], &[0x15, 0xc7]);
    // Audio specific config inside the esds descriptors.
    let stsd = payload(stbl, &[b"stsd"]);
    let esds = payload(&stsd[8..], &[b"mp4a"]);
    let esds = payload(&esds[28..], &[b"esds"]);
    assert_eq!(&esds[4..6], &[0x03, 22]);
    assert_eq!(&esds[esds.len() - 4..], &[0x05, 2, 0x12, 0x10]);
}

#[test]
fn mp4_durations_are_in_milliseconds() {
    // 3 frames at 30 fps are 100 ms; 2 AAC frames at 44.1 kHz are 46 ms.
    let file = mp4::write(&video(), Some(&audio()), None).ok().unwrap();
    let mvhd = payload(&file, &[b"moov", b"mvhd"]);
    assert_eq!(be32(&mvhd[12..]), 1000);
    assert_eq!(be32(&mvhd[16..]), 100);
    // Audio longer than video wins.
    let mut long = audio();
    for _ in 0..10 {
        long.samples.push(Sample(vec![0]));
    }
    let file = mp4::write(&video(), Some(&long), None).ok().unwrap();
    assert_eq!(be32(&payload(&file, &[b"moov", b"mvhd"])[16..]), 278);
}

#[test]
fn mp4_length_does_not_depend_on_offsets() {
    // The same tables around more sample bytes: only mdat grows.
    let mut big = video();
    big.samples[0] = Sample(vec![0; 5000]);
    let small = mp4::write(&video(), None, None).ok().unwrap();
    let large = mp4::write(&big, None, None).ok().unwrap();
    assert_eq!(large.len() - small.len(), 4997);
    assert_eq!(be32(&small[32..]), be32(&large[32..]));
}

#[test]
fn mp4_metadata_is_written_only_where_present() {
    let bare = mp4::write(&video(), None, None).ok().unwrap();
    let empty = mp4::write(&video(), None, Some(&Meta::default())).ok().unwrap();
    assert_eq!(bare, empty);
    let meta = Meta {
        title: Some("Song".to_string()),
        cover: Some((vec![0xff, 0xd8], 13)),
        ..Default::default()
    };
    let file = mp4::write(&video(), None, Some(&meta)).ok().unwrap();
    let inner = payload(&file, &[b"moov", b"udta", b"meta"]);
    let ilst = payload(&inner[4..], &[b"ilst"]);
    assert_eq!(payload(ilst, &[b"\xa9nam", b"data"]), &[0, 0, 0, 1, 0, 0, 0, 0, b'S', b'o', b'n', b'g']);
    assert_eq!(payload(ilst, &[b"covr", b"data"]), &[0, 0, 0, 13, 0, 0, 0, 0, 0xff, 0xd8]);
}

#[test]
fn mp4_without_a_usable_language_says_und() {
    for language in [None, Some("english".to_string()), Some("ENG".to_string())] {
        let mut a = audio();
        a.language = language;
        let file = mp4::write(&video(), Some(&a), None).ok().unwrap();
        let moov_payload = payload(&file, &[b"moov"]);
        let mvhd = be32(moov_payload);
        let first = be32(&moov_payload[mvhd..]);
        let mdhd = payload(&moov_payload[mvhd + first..], &[b"trak", b"mdia", b"mdhd"]);
        assert_eq!(&mdhd[20..22], &[0x55, 0xc4]);
    }
}

#[test]
fn mp4_needs_video_samples() {
    let mut v = video();
    v.samples.clear();
    v.timescale = 0;
    assert_eq!(mp4::write(&v, None, None).err(), Some(Mp4Error::NoVideoSamples));
    assert_eq!(Mp4Error::NoVideoSamples.message(), "no video samples");
}
