//! The bits of the AV1 configuration.

use vstd::prelude::*;

use crate::mp4;
use crate::mp4::reader::number;
use crate::seq_header::SequenceHeader;

verus! {

/// The configuration as a number of 32 bits says the header, counted from the
/// last bit: marker and version, profile, level, tier, bit depth, chroma format
/// and sample position, and no presentation delay.
pub open spec fn configures(n: nat, sh: SequenceHeader) -> bool {
    &&& n / 0x8000_0000 == 1
    &&& (n / 0x100_0000) % 128 == 1
    &&& (n / 0x20_0000) % 8 == sh.seq_profile
    &&& (n / 0x1_0000) % 32 == sh.seq_level_idx
    &&& (n / 0x8000) % 2 == sh.seq_tier
    &&& (n / 0x4000) % 2 == 1 <==> sh.bit_depth > 8
    &&& (n / 0x2000) % 2 == 1 <==> sh.bit_depth == 12
    &&& (n / 0x1000) % 2 == 1 <==> sh.mono_chrome
    &&& (n / 0x800) % 2 == 1 <==> sh.subsample_x
    &&& (n / 0x400) % 2 == 1 <==> sh.subsample_y
    &&& (n / 0x100) % 4 == sh.chroma_sample_position
    &&& n % 256 == 0
}

proof fn lemma_number(s: Seq<u8>)
    requires
        s.len() == 4,
    ensures
        number(s) == s[0] * 0x100_0000 + s[1] * 0x1_0000 + s[2] * 0x100 + s[3],
{
    let a = s.drop_last();
    let b = a.drop_last();
    let c = b.drop_last();
    assert(number(c.drop_last()) == 0);
    assert(c.last() == s[0]);
    assert(number(c) == s[0]);
    assert(number(b) == number(c) * 256 + s[1]);
    assert(number(a) == number(b) * 256 + s[2]);
}

proof fn lemma_third(t: int, h: int, w: int, m: int, x: int, y: int, c: int)
    requires
        0 <= t < 2,
        0 <= h < 2,
        0 <= w < 2,
        0 <= m < 2,
        0 <= x < 2,
        0 <= y < 2,
        0 <= c < 4,
    ensures
        ({
            let b = t * 128 + h * 64 + w * 32 + m * 16 + x * 8 + y * 4 + c;
            &&& 0 <= b < 256
            &&& b / 128 == t
            &&& (b / 64) % 2 == h
            &&& (b / 32) % 2 == w
            &&& (b / 16) % 2 == m
            &&& (b / 8) % 2 == x
            &&& (b / 4) % 2 == y
            &&& b % 4 == c
        }),
{
    let b = t * 128 + h * 64 + w * 32 + m * 16 + x * 8 + y * 4 + c;
    let b2 = t * 32 + h * 16 + w * 8 + m * 4 + x * 2 + y;
    assert(b / 4 == b2 && b % 4 == c);
    let b3 = t * 16 + h * 8 + w * 4 + m * 2 + x;
    assert(b2 / 2 == b3 && b2 % 2 == y);
    let b4 = t * 8 + h * 4 + w * 2 + m;
    assert(b3 / 2 == b4 && b3 % 2 == x);
    let b5 = t * 4 + h * 2 + w;
    assert(b4 / 2 == b5 && b4 % 2 == m);
    let b6 = t * 2 + h;
    assert(b5 / 2 == b6 && b5 % 2 == w);
    assert(b6 / 2 == t && b6 % 2 == h);
    lemma_split(b, 4, 2);
    lemma_split(b, 8, 2);
    lemma_split(b, 16, 2);
    lemma_split(b, 32, 2);
    lemma_split(b, 64, 2);
}

proof fn lemma_split(n: int, m: int, k: int)
    requires
        0 <= n,
        0 < m,
        0 < k,
    ensures
        n / (m * k) == (n / m) / k,
{
    vstd::arithmetic::div_mod::lemma_div_denominator(n, m, k);
}

proof fn lemma_bytes(n: int, b1: int, b2: int)
    requires
        0 <= b1 < 256,
        0 <= b2 < 256,
        n == 0x81 * 0x100_0000 + b1 * 0x1_0000 + b2 * 0x100,
    ensures
        n / 0x8000_0000 == 1,
        (n / 0x100_0000) % 128 == 1,
        (n / 0x20_0000) % 8 == b1 / 32,
        (n / 0x1_0000) % 32 == b1 % 32,
        (n / 0x8000) % 2 == b2 / 128,
        (n / 0x4000) % 2 == (b2 / 64) % 2,
        (n / 0x2000) % 2 == (b2 / 32) % 2,
        (n / 0x1000) % 2 == (b2 / 16) % 2,
        (n / 0x800) % 2 == (b2 / 8) % 2,
        (n / 0x400) % 2 == (b2 / 4) % 2,
        (n / 0x100) % 4 == b2 % 4,
        n % 256 == 0,
{
    let top = 0x81 * 256 + b1;
    let all = top * 256 + b2;
    assert(n / 0x100 == all);
    lemma_split(n, 0x100, 256);
    assert(all / 256 == top);
    lemma_split(n, 0x1_0000, 256);
    assert(top / 256 == 0x81);
    lemma_split(n, 0x100_0000, 128);
    lemma_split(n, 0x1_0000, 32);
    assert(top / 32 == 0x81 * 8 + b1 / 32);
    lemma_low(top, b1, 32);
    lemma_split(n, 0x100, 128);
    lemma_split(n, 0x100, 64);
    lemma_split(n, 0x100, 32);
    lemma_split(n, 0x100, 16);
    lemma_split(n, 0x100, 8);
    lemma_split(n, 0x100, 4);
    assert(all / 128 == top * 2 + b2 / 128);
    assert(all / 64 == top * 4 + b2 / 64);
    assert(all / 32 == top * 8 + b2 / 32);
    assert(all / 16 == top * 16 + b2 / 16);
    assert(all / 8 == top * 32 + b2 / 8);
    assert(all / 4 == top * 64 + b2 / 4);
}

proof fn lemma_low(top: int, b: int, m: int)
    requires
        m == 32,
        top == 0x81 * 256 + b,
    ensures
        top % m == b % m,
{
}

/// The configuration that is built for a track says what the header says, and
/// ends with the OBU that was handed in.
pub proof fn the_configuration_says_the_header(sh: SequenceHeader, obu: Seq<u8>)
    requires
        sh.seq_profile < 8,
        sh.seq_level_idx < 32,
        sh.seq_tier < 2,
        sh.bit_depth == 8 || sh.bit_depth == 10 || sh.bit_depth == 12,
        sh.chroma_sample_position < 4,
    ensures
        ({
            let data = mp4::av1c_bytes(sh, obu);
            &&& data.len() == 4 + obu.len()
            &&& configures(number(data.take(4)), sh)
            &&& data.skip(4) == obu
        }),
{
    let data = mp4::av1c_bytes(sh, obu);
    let s = data.take(4);
    lemma_number(s);
    assert(data.skip(4) =~= obu);
    lemma_third(
        sh.seq_tier as int,
        mp4::bit(sh.bit_depth != 8),
        mp4::bit(sh.bit_depth == 12),
        mp4::bit(sh.mono_chrome),
        mp4::bit(sh.subsample_x),
        mp4::bit(sh.subsample_y),
        sh.chroma_sample_position as int,
    );
    assert(s[0] == 0x81 && s[3] == 0);
    let b1 = s[1] as int;
    assert(b1 == sh.seq_profile * 32 + sh.seq_level_idx);
    assert(b1 / 32 == sh.seq_profile && b1 % 32 == sh.seq_level_idx);
    lemma_bytes(number(s) as int, b1, s[2] as int);
}

} // verus!
