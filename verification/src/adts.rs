//! Minimal ADTS (.aac) parser → raw AAC access units + AudioSpecificConfig.

use vstd::prelude::*;

use crate::model;
use crate::text;

pub mod layout;

verus! {

/// Bytes of a header without CRC.
pub const HEADER_LEN: usize = 7;

pub struct AdtsStream<F = Vec<Vec<u8>>, A = [u8; 2]> {
    /// Raw AAC access units (ADTS headers stripped).
    pub frames: F,
    /// AudioSpecificConfig (2 bytes for AAC-LC).
    pub audio_specific_config: A,
    pub sample_rate: u32,
    pub channels: u16,
}

/// The model of a stream.
pub type AdtsView = AdtsStream<Seq<Seq<u8>>, Seq<u8>>;

impl View for AdtsStream {
    type V = AdtsView;

    open spec fn view(&self) -> AdtsView {
        AdtsStream {
            frames: model::views(self.frames@),
            audio_specific_config: self.audio_specific_config@,
            sample_rate: self.sample_rate,
            channels: self.channels,
        }
    }
}

/// Why a stream cannot be parsed, with the offset where it matters.
#[derive(Debug, Clone, Copy, PartialEq, Eq, Structural)]
pub enum AdtsError {
    TruncatedHeader(usize),
    SyncLost(usize),
    Crc,
    /// The channel layout is defined in the stream by a Program Config
    /// Element, so there is no fixed channel count to declare.
    ChannelConfigZero,
    BadFrameLength(usize),
    TruncatedFrame(usize),
    ExplicitRate,
    ReservedFrequency,
    ConfigChange(usize),
    NoFrames,
}

impl AdtsError {
    /// What went wrong.
    pub open spec fn text(self) -> Seq<char> {
        match self {
            AdtsError::TruncatedHeader(at) => "truncated ADTS header at "@ + text::number(at as nat),
            AdtsError::SyncLost(at) => "ADTS sync lost at offset "@ + text::number(at as nat) + " (input must be raw .aac/ADTS)"@,
            AdtsError::Crc => "ADTS CRC not supported"@,
            AdtsError::ChannelConfigZero => "ADTS channel_config 0 (channel layout defined in-stream by a Program Config Element) is not supported; transcode to a standard-layout AAC with `ffmpeg -i <input> -c:a aac -f adts out.aac`"@,
            AdtsError::BadFrameLength(n) => "bad ADTS frame length "@ + text::number(n as nat),
            AdtsError::TruncatedFrame(at) => "truncated ADTS frame at "@ + text::number(at as nat),
            AdtsError::ExplicitRate => "explicit ADTS sample rates unsupported"@,
            AdtsError::ReservedFrequency => "reserved ADTS frequency index"@,
            AdtsError::ConfigChange(at) => "ADTS AAC config changes mid-stream at offset "@ + text::number(at as nat) + " (profile/frequency/channel_config must be constant); transcode with `ffmpeg -i <input> -c:a aac -f adts out.aac`"@,
            AdtsError::NoFrames => "no ADTS frames found"@,
        }
    }

    /// What went wrong.
    pub fn message(&self) -> (r: String)
        ensures
            r@ == self.text(),
    {
        match *self {
            AdtsError::TruncatedHeader(at) => {
                let mut s = String::from_str("truncated ADTS header at ");
                text::put_number(&mut s, at as u64);
                s
            },
            AdtsError::SyncLost(at) => {
                let mut s = String::from_str("ADTS sync lost at offset ");
                text::put_number(&mut s, at as u64);
                s.append(" (input must be raw .aac/ADTS)");
                s
            },
            AdtsError::Crc => String::from_str("ADTS CRC not supported"),
            AdtsError::ChannelConfigZero => String::from_str("ADTS channel_config 0 (channel layout defined in-stream by a Program Config Element) is not supported; transcode to a standard-layout AAC with `ffmpeg -i <input> -c:a aac -f adts out.aac`"),
            AdtsError::BadFrameLength(n) => {
                let mut s = String::from_str("bad ADTS frame length ");
                text::put_number(&mut s, n as u64);
                s
            },
            AdtsError::TruncatedFrame(at) => {
                let mut s = String::from_str("truncated ADTS frame at ");
                text::put_number(&mut s, at as u64);
                s
            },
            AdtsError::ExplicitRate => String::from_str("explicit ADTS sample rates unsupported"),
            AdtsError::ReservedFrequency => String::from_str("reserved ADTS frequency index"),
            AdtsError::ConfigChange(at) => {
                let mut s = String::from_str("ADTS AAC config changes mid-stream at offset ");
                text::put_number(&mut s, at as u64);
                s.append(" (profile/frequency/channel_config must be constant); transcode with `ffmpeg -i <input> -c:a aac -f adts out.aac`");
                s
            },
            AdtsError::NoFrames => String::from_str("no ADTS frames found"),
        }
    }
}

/// The settings that every frame of a stream repeats.
#[derive(Debug, Clone, Copy, PartialEq, Eq, Structural)]
pub struct Config {
    /// AAC profile minus 1.
    pub profile: u8,
    pub freq_idx: u8,
    pub chan_cfg: u8,
}

/// The sample rate of a frequency index, 0 where the index is reserved.
pub open spec fn rate_of(freq_idx: u8) -> u32 {
    match freq_idx {
        0 => 96000,
        1 => 88200,
        2 => 64000,
        3 => 48000,
        4 => 44100,
        5 => 32000,
        6 => 24000,
        7 => 22050,
        8 => 16000,
        9 => 12000,
        10 => 11025,
        11 => 8000,
        12 => 7350,
        _ => 0,
    }
}

impl Config {
    /// The AudioSpecificConfig: objectType(5) freqIdx(4) chanCfg(4), padded
    /// with three zero bits.
    pub open spec fn audio_specific(self) -> Seq<u8> {
        seq![
            ((self.profile + 1) * 8 + self.freq_idx / 2) as u8,
            ((self.freq_idx % 2) * 128 + self.chan_cfg * 8) as u8,
        ]
    }

    pub open spec fn wf(self) -> bool {
        self.profile < 4 && self.freq_idx < 13 && 0 < self.chan_cfg < 8
    }
}

/// The frame that starts at `at`: its settings and its whole length.
pub open spec fn frame_at(data: Seq<u8>, at: int) -> Result<(Config, nat), AdtsError> {
    let config = Config {
        profile: data[at + 2] / 64,
        freq_idx: (data[at + 2] / 4) % 16,
        chan_cfg: ((data[at + 2] % 2) * 4 + data[at + 3] / 64) as u8,
    };
    let frame_len = ((data[at + 3] % 4) * 2048 + data[at + 4] * 8 + data[at + 5] / 32) as nat;
    if data.len() - at < HEADER_LEN {
        Err(AdtsError::TruncatedHeader(at as usize))
    } else if data[at] != 0xff || data[at + 1] < 0xf0 {
        Err(AdtsError::SyncLost(at as usize))
    } else if data[at + 1] % 2 != 1 {
        Err(AdtsError::Crc)
    } else if config.chan_cfg == 0 {
        Err(AdtsError::ChannelConfigZero)
    } else if frame_len < HEADER_LEN {
        Err(AdtsError::BadFrameLength(frame_len as usize))
    } else if frame_len > data.len() - at {
        Err(AdtsError::TruncatedFrame(at as usize))
    } else if config.freq_idx == 15 {
        Err(AdtsError::ExplicitRate)
    } else if rate_of(config.freq_idx) == 0 {
        Err(AdtsError::ReservedFrequency)
    } else {
        Ok((config, frame_len))
    }
}

/// The frames from `at` on, whose settings must be those of `first` where an
/// earlier frame has fixed them, and the settings of the stream.
pub open spec fn frames_from(data: Seq<u8>, at: int, first: Option<Config>) -> Result<
    (Seq<Seq<u8>>, Option<Config>),
    AdtsError,
>
    decreases data.len() - at,
{
    if at >= data.len() {
        Ok((Seq::empty(), first))
    } else {
        match frame_at(data, at) {
            Err(e) => Err(e),
            Ok((config, len)) => if first is Some && first != Some(config) {
                Err(AdtsError::ConfigChange(at as usize))
            } else {
                match frames_from(data, at + len, Some(config)) {
                    Err(e) => Err(e),
                    Ok((rest, all)) => Ok(
                        (seq![data.subrange(at + HEADER_LEN, at + len)] + rest, all),
                    ),
                }
            },
        }
    }
}

/// The stream that `data` holds.
pub open spec fn stream_of(data: Seq<u8>) -> Result<AdtsView, AdtsError> {
    match frames_from(data, 0, None) {
        Err(e) => Err(e),
        Ok((frames, config)) => match config {
            None => Err(AdtsError::NoFrames),
            Some(c) => Ok(
                AdtsStream {
                    frames,
                    audio_specific_config: c.audio_specific(),
                    sample_rate: rate_of(c.freq_idx),
                    channels: c.chan_cfg as u16,
                },
            ),
        },
    }
}

fn rate(freq_idx: u8) -> (r: u32)
    ensures
        r == rate_of(freq_idx),
{
    match freq_idx {
        0 => 96000,
        1 => 88200,
        2 => 64000,
        3 => 48000,
        4 => 44100,
        5 => 32000,
        6 => 24000,
        7 => 22050,
        8 => 16000,
        9 => 12000,
        10 => 11025,
        11 => 8000,
        12 => 7350,
        _ => 0,
    }
}

fn read_frame(data: &[u8], i: usize) -> (res: Result<(Config, usize), AdtsError>)
    requires
        i < data@.len(),
    ensures
        match res {
            Ok((config, len)) => frame_at(data@, i as int) == Ok::<(Config, nat), AdtsError>(
                (config, len as nat),
            ) && config.wf() && HEADER_LEN <= len <= data@.len() - i,
            Err(e) => frame_at(data@, i as int) == Err::<(Config, nat), AdtsError>(e),
        },
{
    if data.len() - i < HEADER_LEN {
        return Err(AdtsError::TruncatedHeader(i));
    }
    if data[i] != 0xff || data[i + 1] < 0xf0 {
        return Err(AdtsError::SyncLost(i));
    }
    if data[i + 1] % 2 != 1 {
        return Err(AdtsError::Crc);
    }
    let config = Config {
        profile: data[i + 2] / 64,
        freq_idx: (data[i + 2] / 4) % 16,
        chan_cfg: (data[i + 2] % 2) * 4 + data[i + 3] / 64,
    };
    // channel_config 0 means the layout is defined by a Program Config
    // Element inside the AAC payload (common for 5.1/7.1). There is no
    // fixed channel count to declare in the mp4 mp4a entry.
    if config.chan_cfg == 0 {
        return Err(AdtsError::ChannelConfigZero);
    }
    let frame_len: usize = ((data[i + 3] % 4) as usize) * 2048 + (data[i + 4] as usize) * 8 + (
    data[i + 5] / 32) as usize;
    if frame_len < HEADER_LEN {
        return Err(AdtsError::BadFrameLength(frame_len));
    }
    if frame_len > data.len() - i {
        return Err(AdtsError::TruncatedFrame(i));
    }
    if config.freq_idx == 15 {
        return Err(AdtsError::ExplicitRate);
    }
    if rate(config.freq_idx) == 0 {
        return Err(AdtsError::ReservedFrequency);
    }
    Ok((config, frame_len))
}

/// `r` behind the frames of `done`.
pub open spec fn after(
    done: Seq<Seq<u8>>,
    r: Result<(Seq<Seq<u8>>, Option<Config>), AdtsError>,
) -> Result<(Seq<Seq<u8>>, Option<Config>), AdtsError> {
    match r {
        Ok((rest, config)) => Ok((done + rest, config)),
        Err(e) => Err(e),
    }
}

/// Parse an ADTS stream. Only protection_absent=1 headers are supported
/// (the common case; CRC-protected frames are rejected).
pub fn parse(data: &[u8]) -> (res: Result<AdtsStream, AdtsError>)
    ensures
        model::view_ok(res) == stream_of(data@),
{
    let mut frames: Vec<Vec<u8>> = Vec::new();
    let mut first: Option<Config> = None;
    let mut i: usize = 0;
    proof {
        assert(model::views(frames@) =~= Seq::empty());
        if frames_from(data@, 0, None) is Ok {
            let f = frames_from(data@, 0, None)->Ok_0.0;
            assert(Seq::<Seq<u8>>::empty() + f =~= f);
        }
    }
    while i < data.len()
        invariant
            i <= data@.len(),
            first matches Some(c) ==> c.wf(),
            frames_from(data@, 0, None) == after(
                model::views(frames@),
                frames_from(data@, i as int, first),
            ),
        decreases data@.len() - i,
    {
        let ghost done = model::views(frames@);
        let (config, len) = read_frame(data, i)?;
        // The AudioSpecificConfig written into the mp4 is taken from the
        // first frame; a mid-stream change would silently mismatch it.
        if let Some(c) = first {
            if c.profile != config.profile || c.freq_idx != config.freq_idx || c.chan_cfg
                != config.chan_cfg {
                return Err(AdtsError::ConfigChange(i));
            }
        }
        let frame = vstd::slice::slice_to_vec(
            vstd::slice::slice_subrange(data, i + HEADER_LEN, i + len),
        );
        proof {
            let f = data@.subrange(i + HEADER_LEN, i + len);
            assert(frame@ =~= f);
            let rest = frames_from(data@, i + len, Some(config));
            if rest is Ok {
                assert(done + (seq![f] + rest->Ok_0.0) =~= done.push(f) + rest->Ok_0.0);
            }
        }
        frames.push(frame);
        assert(model::views(frames@) =~= done.push(frame@));
        first = Some(config);
        i = i + len;
    }
    assert(model::views(frames@) + Seq::<Seq<u8>>::empty() =~= model::views(frames@));
    match first {
        None => Err(AdtsError::NoFrames),
        Some(c) => {
            let asc: [u8; 2] = [
                (c.profile + 1) * 8 + c.freq_idx / 2,
                (c.freq_idx % 2) * 128 + c.chan_cfg * 8,
            ];
            assert(asc@ =~= c.audio_specific());
            Ok(
                AdtsStream {
                    frames,
                    audio_specific_config: asc,
                    sample_rate: rate(c.freq_idx),
                    channels: c.chan_cfg as u16,
                },
            )
        },
    }
}

// ---------- what parsing keeps ----------

/// Bytes of all frames.
pub open spec fn total_len(frames: Seq<Seq<u8>>) -> nat
    decreases frames.len(),
{
    if frames.len() == 0 {
        0
    } else {
        frames[0].len() + total_len(frames.skip(1))
    }
}

proof fn lemma_frames_cover(data: Seq<u8>, at: int, first: Option<Config>)
    requires
        0 <= at <= data.len(),
        frames_from(data, at, first) is Ok,
    ensures
        ({
            let (frames, config) = frames_from(data, at, first)->Ok_0;
            &&& data.len() - at == total_len(frames) + HEADER_LEN * frames.len()
            &&& first is Some ==> config == first
            &&& first is None ==> (config is Some <==> at < data.len())
        }),
    decreases data.len() - at,
{
    if at < data.len() {
        let (config, len) = frame_at(data, at)->Ok_0;
        lemma_frames_cover(data, at + len, Some(config));
        let f = data.subrange(at + HEADER_LEN, at + len);
        let rest = frames_from(data, at + len, Some(config))->Ok_0.0;
        let frames = seq![f] + rest;
        assert(frames.skip(1) =~= rest);
        assert(frames[0] == f);
    }
}

/// A stream that parses is nothing but frames, each of a header and an access
/// unit, and it has a channel count and a sample rate.
pub proof fn frames_cover_the_stream(data: Seq<u8>)
    requires
        stream_of(data) is Ok,
    ensures
        ({
            let s = stream_of(data)->Ok_0;
            &&& data.len() == total_len(s.frames) + HEADER_LEN * s.frames.len()
            &&& s.frames.len() > 0
            &&& 0 < s.channels < 8
            &&& s.sample_rate > 0
            &&& s.audio_specific_config.len() == 2
        }),
{
    lemma_frames_cover(data, 0, None);
    let (config, len) = frame_at(data, 0)->Ok_0;
    lemma_frames_cover(data, len as int, Some(config));
}

} // verus!
