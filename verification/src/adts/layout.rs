//! Where things stand in an ADTS stream.

use vstd::prelude::*;

use crate::adts::{self, AdtsError, AdtsStream, AdtsView, Config};
use crate::model;
use crate::mp4::reader::number;

verus! {

/// What the headers of a stream say alike.
pub struct Setup {
    pub profile: nat,
    pub frequency: nat,
    pub channels: nat,
}

/// The sample rates, by their index.
pub open spec fn rates() -> Seq<u32> {
    seq![96000, 88200, 64000, 48000, 44100, 32000, 24000, 22050, 16000, 12000, 11025, 8000, 7350]
}

/// What the 56 bits of a frame header say, counted from the last: the sync word
/// in front, no checksum, the setup, and the length of the frame with its
/// header.
pub open spec fn says(data: Seq<u8>, at: int, z: Setup, length: nat) -> bool {
    let n = number(data.subrange(at, at + 7));
    &&& at + 7 <= data.len()
    &&& n / 0x1000_0000_0000 == 0xfff
    &&& (n / 0x100_0000_0000) % 2 == 1
    &&& (n / 0x40_0000_0000) % 4 == z.profile
    &&& (n / 0x4_0000_0000) % 16 == z.frequency
    &&& (n / 0x4000_0000) % 8 == z.channels
    &&& (n / 0x2000) % 0x2000 == length
}

/// How many bytes the first `n` frames take, with their headers.
pub open spec fn reach(frames: Seq<Seq<u8>>, n: int) -> nat
    decreases n,
{
    if n <= 0 {
        0
    } else {
        reach(frames, n - 1) + 7 + frames[n - 1].len()
    }
}

/// Whether the configuration for the decoder says the setup: five bits of
/// object type, four of frequency, four of channels, and three zero bits.
pub open spec fn configures(asc: Seq<u8>, z: Setup) -> bool {
    let n = number(asc);
    &&& asc.len() == 2
    &&& n / 0x800 == z.profile + 1
    &&& (n / 0x80) % 16 == z.frequency
    &&& (n / 8) % 16 == z.channels
    &&& n % 8 == 0
}

proof fn lemma_header_number(s: Seq<u8>)
    requires
        s.len() == 7,
    ensures
        number(s) == s[0] * 0x1_0000_0000_0000 + s[1] * 0x100_0000_0000 + s[2] * 0x1_0000_0000
            + s[3] * 0x100_0000 + s[4] * 0x1_0000 + s[5] * 0x100 + s[6],
{
    let a = s.drop_last();
    let b = a.drop_last();
    let c = b.drop_last();
    let d = c.drop_last();
    let e = d.drop_last();
    let f = e.drop_last();
    assert(f.drop_last().len() == 0);
    assert(number(f.drop_last()) == 0);
    assert(f.last() == s[0]);
    assert(number(f) == s[0]);
    assert(number(e) == s[0] * 256 + s[1]);
    assert(number(d) == (s[0] * 256 + s[1]) * 256 + s[2]);
    assert(number(c) == number(d) * 256 + s[3]);
    assert(number(b) == number(c) * 256 + s[4]);
    assert(number(a) == number(b) * 256 + s[5]);
}

proof fn lemma_top(n: int, top: int, low: int, m: int)
    requires
        n == top * m + low,
        0 <= low < m,
    ensures
        n / m == top,
{
    vstd::arithmetic::div_mod::lemma_fundamental_div_mod_converse(n, m, top, low);
}

proof fn lemma_split(n: int, m: int, k: int)
    requires
        0 <= n,
        0 < m,
        0 < k,
    ensures
        n / (m * k) == (n / m) / k,
{
    vstd::arithmetic::div_mod::lemma_div_denominator(n, m, k);
}

proof fn lemma_parts(
    top1: int,
    top2: int,
    top3: int,
    top5: int,
    b0: int,
    b1: int,
    b2: int,
    b3: int,
    b4: int,
    b5: int,
)
    requires
        0 <= b0 < 256,
        0 <= b1 < 256,
        0 <= b2 < 256,
        0 <= b3 < 256,
        0 <= b4 < 256,
        0 <= b5 < 256,
        top1 == b0 * 256 + b1,
        top2 == top1 * 256 + b2,
        top3 == top2 * 256 + b3,
        top5 == (top3 * 256 + b4) * 256 + b5,
    ensures
        top1 / 16 == b0 * 16 + b1 / 16,
        top1 % 2 == b1 % 2,
        (top2 / 64) % 4 == b2 / 64,
        (top2 / 4) % 16 == (b2 / 4) % 16,
        (top3 / 64) % 8 == (b2 % 2) * 4 + b3 / 64,
        (top5 / 32) % 0x2000 == (b3 % 4) * 2048 + b4 * 8 + b5 / 32,
{
    assert(top2 / 64 == top1 * 4 + b2 / 64);
    assert(top2 / 4 == top1 * 64 + b2 / 4);
    assert(top3 / 64 == top2 * 4 + b3 / 64);
    assert(top2 * 4 == (top2 / 2) * 8 + (top2 % 2) * 4);
    assert(top2 % 2 == b2 % 2);
    assert(top5 / 32 == top3 * 2048 + b4 * 8 + b5 / 32);
    assert(top3 == (top3 / 4) * 4 + top3 % 4);
    assert(top3 % 4 == b3 % 4);
}

/// The fields of a header by its bytes.
proof fn lemma_says(data: Seq<u8>, at: int)
    requires
        0 <= at,
        at + 7 <= data.len(),
    ensures
        ({
            let n = number(data.subrange(at, at + 7));
            &&& n / 0x1000_0000_0000 == data[at] * 16 + data[at + 1] / 16
            &&& (n / 0x100_0000_0000) % 2 == data[at + 1] % 2
            &&& (n / 0x40_0000_0000) % 4 == data[at + 2] / 64
            &&& (n / 0x4_0000_0000) % 16 == (data[at + 2] / 4) % 16
            &&& (n / 0x4000_0000) % 8 == (data[at + 2] % 2) * 4 + data[at + 3] / 64
            &&& (n / 0x2000) % 0x2000 == (data[at + 3] % 4) * 2048 + data[at + 4] * 8 + data[at + 5]
                / 32
        }),
{
    let s = data.subrange(at, at + 7);
    lemma_header_number(s);
    let n = number(s) as int;
    let b0 = s[0] as int;
    let b1 = s[1] as int;
    let b2 = s[2] as int;
    let b3 = s[3] as int;
    let b4 = s[4] as int;
    let b5 = s[5] as int;
    let b6 = s[6] as int;
    let low1 = b2 * 0x1_0000_0000 + b3 * 0x100_0000 + b4 * 0x1_0000 + b5 * 0x100 + b6;
    let top1 = b0 * 256 + b1;
    lemma_top(n, top1, low1, 0x100_0000_0000);
    lemma_split(n, 0x100_0000_0000, 16);
    let low2 = b3 * 0x100_0000 + b4 * 0x1_0000 + b5 * 0x100 + b6;
    let top2 = top1 * 256 + b2;
    lemma_top(n, top2, low2, 0x1_0000_0000);
    lemma_split(n, 0x1_0000_0000, 64);
    lemma_split(n, 0x1_0000_0000, 4);
    let low3 = b4 * 0x1_0000 + b5 * 0x100 + b6;
    let top3 = top2 * 256 + b3;
    lemma_top(n, top3, low3, 0x100_0000);
    lemma_split(n, 0x100_0000, 64);
    let top5 = (top3 * 256 + b4) * 256 + b5;
    lemma_top(n, top5, b6, 0x100);
    lemma_split(n, 0x100, 32);
    lemma_parts(top1, top2, top3, top5, b0, b1, b2, b3, b4, b5);
    assert(s[0] == data[at] && s[1] == data[at + 1] && s[2] == data[at + 2]);
    assert(s[3] == data[at + 3] && s[4] == data[at + 4] && s[5] == data[at + 5]);
}

/// What settings say of a setup.
pub open spec fn setup_of(c: Config) -> Setup {
    Setup {
        profile: c.profile as nat,
        frequency: c.freq_idx as nat,
        channels: c.chan_cfg as nat,
    }
}

proof fn lemma_frame(data: Seq<u8>, at: int)
    requires
        0 <= at < data.len(),
        adts::frame_at(data, at) is Ok,
    ensures
        ({
            let (c, len) = adts::frame_at(data, at)->Ok_0;
            &&& says(data, at, setup_of(c), len)
            &&& 7 <= len <= data.len() - at
            &&& c.freq_idx < 13
            &&& 0 < c.chan_cfg < 8
            &&& c.profile < 4
        }),
{
    lemma_says(data, at);
}

proof fn lemma_reach_front(frames: Seq<Seq<u8>>, n: int)
    requires
        1 <= n <= frames.len(),
    ensures
        reach(frames, n) == 7 + frames[0].len() + reach(frames.skip(1), n - 1),
    decreases n,
{
    if n > 1 {
        lemma_reach_front(frames, n - 1);
        assert(frames.skip(1)[n - 2] == frames[n - 1]);
    } else {
        assert(reach(frames, 0) == 0);
        assert(reach(frames.skip(1), 0) == 0);
    }
}

proof fn lemma_frames(data: Seq<u8>, at: int, first: Option<Config>, i: int)
    requires
        0 <= at <= data.len(),
        adts::frames_from(data, at, first) is Ok,
        0 <= i < adts::frames_from(data, at, first)->Ok_0.0.len(),
    ensures
        ({
            let (frames, config) = adts::frames_from(data, at, first)->Ok_0;
            let from = at + reach(frames, i);
            let len = frames[i].len();
            &&& config is Some
            &&& config->Some_0.freq_idx < 13
            &&& 0 < config->Some_0.chan_cfg < 8
            &&& config->Some_0.profile < 4
            &&& from + 7 + len <= data.len()
            &&& says(data, from, setup_of(config->Some_0), 7 + len)
            &&& data.subrange(from + 7, from + 7 + len) == frames[i]
            &&& at + reach(frames, frames.len() as int) == data.len()
            &&& first is Some ==> config == first
        }),
    decreases data.len() - at,
{
    let (frames, config) = adts::frames_from(data, at, first)->Ok_0;
    let (c, len) = adts::frame_at(data, at)->Ok_0;
    lemma_frame(data, at);
    let rest = adts::frames_from(data, at + len, Some(c))->Ok_0.0;
    assert(frames.skip(1) =~= rest);
    assert(frames[0] == data.subrange(at + 7, at + len));
    lemma_reach_front(frames, frames.len() as int);
    if rest.len() > 0 {
        if i > 0 {
            lemma_frames(data, at + len, Some(c), i - 1);
            lemma_reach_front(frames, i);
            assert(rest[i - 1] == frames[i]);
        } else {
            lemma_frames(data, at + len, Some(c), 0);
        }
    } else {
        lemma_none_left(data, at + len, Some(c));
    }
}

/// Where no frames are left, no bytes are.
proof fn lemma_none_left(data: Seq<u8>, at: int, first: Option<Config>)
    requires
        0 <= at <= data.len(),
        adts::frames_from(data, at, first) is Ok,
        adts::frames_from(data, at, first)->Ok_0.0.len() == 0,
    ensures
        at == data.len(),
        adts::frames_from(data, at, first)->Ok_0.1 == first,
{
}

proof fn lemma_configures(c: Config)
    requires
        c.profile < 4,
        c.freq_idx < 13,
        c.chan_cfg < 8,
    ensures
        configures(c.audio_specific(), setup_of(c)),
{
    let s = c.audio_specific();
    let a = s.drop_last();
    assert(number(a.drop_last()) == 0);
    assert(a.last() == s[0]);
    assert(number(a) == s[0]);
    assert(number(s) == s[0] * 256 + s[1]);
    let p = c.profile as int;
    let q = c.freq_idx as int;
    let r = c.chan_cfg as int;
    let n = number(s) as int;
    assert(n == ((p + 1) * 8 + q / 2) * 256 + (q % 2) * 128 + r * 8);
    assert(n == (p + 1) * 0x800 + q * 0x80 + r * 8);
    assert(n / 0x80 == (p + 1) * 16 + q);
    assert(n / 8 == (p + 1) * 256 + q * 16 + r);
}

/// A stream that parses is its frames, each behind a header: the header says
/// the frame's length and, in every frame alike, the setup, which the
/// configuration for the decoder, the sample rate and the channel count repeat.
pub proof fn frames_stand_behind_their_headers(data: Seq<u8>, s: AdtsStream, i: int) -> (z: Setup)
    requires
        adts::stream_of(data) == Ok::<AdtsView, AdtsError>(s@),
        0 <= i < s.frames@.len(),
    ensures
        ({
            let frames = model::views(s.frames@);
            let at = reach(frames, i) as int;
            let len = s.frames@[i]@.len();
            &&& at + 7 + len <= data.len()
            &&& says(data, at, z, 7 + len)
            &&& data.subrange(at + 7, at + 7 + len) == s.frames@[i]@
            &&& reach(frames, frames.len() as int) == data.len()
        }),
        configures(s.audio_specific_config@, z),
        z.frequency < 13,
        s.sample_rate == rates()[z.frequency as int],
        s.channels == z.channels,
        0 < s.channels < 8,
{
    lemma_frames(data, 0, None, i);
    let c = adts::frames_from(data, 0, None)->Ok_0.1->Some_0;
    lemma_configures(c);
    assert(s.frames@[i]@ == model::views(s.frames@)[i]);
    setup_of(c)
}

/// Whether the bytes from `at` on are frames with the same setup.
pub open spec fn framed(data: Seq<u8>, at: int, z: Setup) -> bool
    decreases data.len() - at,
{
    if at >= data.len() {
        at == data.len()
    } else {
        let n = number(data.subrange(at, at + 7));
        let length = (n / 0x2000) % 0x2000;
        if length < 7 || length > data.len() - at {
            false
        } else {
            says(data, at, z, length) && framed(data, at + length, z)
        }
    }
}

proof fn lemma_framed(data: Seq<u8>, at: int, z: Setup, first: Option<Config>)
    requires
        0 <= at <= data.len(),
        framed(data, at, z),
        z.frequency < 13,
        0 < z.channels,
        first matches Some(c) ==> setup_of(c) == z,
    ensures
        adts::frames_from(data, at, first) is Ok,
        at < data.len() ==> adts::frames_from(data, at, first)->Ok_0.1 is Some,
        first is Some ==> adts::frames_from(data, at, first)->Ok_0.1 is Some,
    decreases data.len() - at,
{
    if at < data.len() {
        lemma_says(data, at);
        let n = number(data.subrange(at, at + 7));
        let length = (n / 0x2000) % 0x2000;
        lemma_within(data, at + length, z);
        assert(adts::frame_at(data, at) is Ok);
        let (c, len) = adts::frame_at(data, at)->Ok_0;
        assert(len == length);
        assert(setup_of(c) == z);
        if let Some(d) = first {
            assert(d == c);
        }
        lemma_framed(data, at + length, z, Some(c));
    }
}

proof fn lemma_within(data: Seq<u8>, at: int, z: Setup)
    requires
        framed(data, at, z),
    ensures
        at <= data.len(),
{
}

/// Every stream that is nothing but frames of one setup, with a rate and a
/// channel count, parses.
pub proof fn framed_streams_parse(data: Seq<u8>, z: Setup)
    requires
        data.len() > 0,
        framed(data, 0, z),
        z.frequency < 13,
        0 < z.channels,
    ensures
        adts::stream_of(data) is Ok,
{
    lemma_framed(data, 0, z, None);
}

} // verus!
