//! Color section of the sequence header.

use vstd::prelude::*;
use vstd::arithmetic::power2::*;

use crate::bitio::{self, BitReader, BitWriter, Cur};
use crate::error::Error;

verus! {

/// Sample depth, and whether there is luma only.
#[derive(Debug, Clone, Copy, PartialEq, Eq, Structural)]
pub struct Depth {
    pub high_bitdepth: bool,
    pub twelve_bit: bool,
    pub bit_depth: u8,
    pub mono_chrome: bool,
}

impl Depth {
    pub open spec fn canonical(self, profile: u8) -> bool {
        &&& self.twelve_bit ==> profile == 2 && self.high_bitdepth
        &&& self.bit_depth == bit_depth_of(self.high_bitdepth, self.twelve_bit)
        &&& self.mono_chrome ==> profile != 1
    }
}

pub open spec fn bit_depth_of(high_bitdepth: bool, twelve_bit: bool) -> u8 {
    if twelve_bit {
        12
    } else if high_bitdepth {
        10
    } else {
        8
    }
}

#[derive(Debug, Clone, Copy, PartialEq, Eq, Structural)]
pub struct ColorDescription {
    pub present: bool,
    pub color_primaries: u8,
    pub transfer_characteristics: u8,
    pub matrix_coefficients: u8,
}

impl ColorDescription {
    /// Each of the three unspecified.
    pub open spec fn absent() -> ColorDescription {
        ColorDescription {
            present: false,
            color_primaries: 2,
            transfer_characteristics: 2,
            matrix_coefficients: 2,
        }
    }

    pub open spec fn canonical(self) -> bool {
        !self.present ==> self == ColorDescription::absent()
    }

    /// BT709 primaries, sRGB transfer and the identity matrix: full range and
    /// 4:4:4 are implied.
    pub open spec fn implies_444(self) -> bool {
        self.color_primaries == 1 && self.transfer_characteristics == 13
            && self.matrix_coefficients == 0
    }
}

#[derive(Debug, Clone, Copy, PartialEq, Eq, Structural)]
pub struct Chroma {
    pub color_range: Option<bool>,
    pub subsample_x: bool,
    pub subsample_y: bool,
    pub chroma_sample_position: u8,
    pub separate_uv_delta_q: bool,
}

impl Chroma {
    pub open spec fn canonical(self, profile: u8, depth: Depth, desc: ColorDescription) -> bool {
        if depth.mono_chrome {
            &&& self.color_range is Some
            &&& !self.subsample_x
            &&& !self.subsample_y
            &&& self.chroma_sample_position == 0
        } else if desc.implies_444() {
            &&& self.color_range is None
            &&& !self.subsample_x
            &&& !self.subsample_y
            &&& self.chroma_sample_position == 0
        } else {
            &&& self.color_range is Some
            &&& if profile == 0 {
                self.subsample_x && self.subsample_y
            } else if profile == 1 {
                !self.subsample_x && !self.subsample_y
            } else if depth.bit_depth == 12 {
                self.subsample_y ==> self.subsample_x
            } else {
                self.subsample_x && !self.subsample_y
            }
            &&& self.chroma_sample_position < 4
            &&& !(self.subsample_x && self.subsample_y) ==> self.chroma_sample_position == 0
        }
    }
}

#[verifier::opaque]
pub open spec fn depth_at(c: Cur, profile: u8) -> (Depth, Cur) {
    let (high, c) = c.flag();
    let (twelve, c) = if profile == 2 && high {
        c.flag()
    } else {
        (false, c)
    };
    let (mono, c) = if profile == 1 {
        (false, c)
    } else {
        c.flag()
    };
    (
        Depth {
            high_bitdepth: high,
            twelve_bit: twelve,
            bit_depth: bit_depth_of(high, twelve),
            mono_chrome: mono,
        },
        c,
    )
}

#[verifier::opaque]
pub open spec fn description_at(c: Cur) -> (ColorDescription, Cur) {
    let (present, c) = c.flag();
    if present {
        let (cp, c) = c.f(8);
        let (tc, c) = c.f(8);
        let (mc, c) = c.f(8);
        (
            ColorDescription {
                present: true,
                color_primaries: cp as u8,
                transfer_characteristics: tc as u8,
                matrix_coefficients: mc as u8,
            },
            c,
        )
    } else {
        (ColorDescription::absent(), c)
    }
}

/// subsampling_x and subsampling_y, coded for 12-bit profile 2 only.
#[verifier::opaque]
pub open spec fn subsampling_at(c: Cur, profile: u8, depth: Depth) -> ((bool, bool), Cur) {
    if profile == 0 {
        ((true, true), c)
    } else if profile == 1 {
        ((false, false), c)
    } else if depth.bit_depth == 12 {
        let (x, c) = c.flag();
        if x {
            let (y, c) = c.flag();
            ((x, y), c)
        } else {
            ((x, false), c)
        }
    } else {
        ((true, false), c)
    }
}

#[verifier::opaque]
pub open spec fn chroma_at(c: Cur, profile: u8, depth: Depth, desc: ColorDescription) -> (
    Chroma,
    Cur,
) {
    if depth.mono_chrome {
        let (range, c) = c.flag();
        let (uv, c) = c.flag();
        (
            Chroma {
                color_range: Some(range),
                subsample_x: false,
                subsample_y: false,
                chroma_sample_position: 0,
                separate_uv_delta_q: uv,
            },
            c,
        )
    } else if desc.implies_444() {
        let (uv, c) = c.flag();
        (
            Chroma {
                color_range: None,
                subsample_x: false,
                subsample_y: false,
                chroma_sample_position: 0,
                separate_uv_delta_q: uv,
            },
            c,
        )
    } else {
        let (range, c) = c.flag();
        let ((x, y), c) = subsampling_at(c, profile, depth);
        let (position, c) = if x && y {
            c.f(2)
        } else {
            (0, c)
        };
        let (uv, c) = c.flag();
        (
            Chroma {
                color_range: Some(range),
                subsample_x: x,
                subsample_y: y,
                chroma_sample_position: position as u8,
                separate_uv_delta_q: uv,
            },
            c,
        )
    }
}

#[verifier::opaque]
pub open spec fn depth_bits(w: Seq<bool>, profile: u8, z: Depth) -> Seq<bool> {
    let w = w.push(z.high_bitdepth);
    let w = if profile == 2 && z.high_bitdepth {
        w.push(z.twelve_bit)
    } else {
        w
    };
    if profile != 1 {
        w.push(z.mono_chrome)
    } else {
        w
    }
}

#[verifier::opaque]
pub open spec fn description_bits(w: Seq<bool>, z: ColorDescription) -> Seq<bool> {
    let w = w.push(z.present);
    if z.present {
        let w = w + bitio::be_bits(8, z.color_primaries as nat);
        let w = w + bitio::be_bits(8, z.transfer_characteristics as nat);
        w + bitio::be_bits(8, z.matrix_coefficients as nat)
    } else {
        w
    }
}

/// color_range as it is coded: limited where the syntax left it out.
pub open spec fn coded_range(range: Option<bool>) -> bool {
    match range {
        Some(r) => r,
        None => false,
    }
}

#[verifier::opaque]
pub open spec fn chroma_bits(
    w: Seq<bool>,
    profile: u8,
    depth: Depth,
    desc: ColorDescription,
    z: Chroma,
) -> Seq<bool> {
    let w = if depth.mono_chrome {
        w.push(coded_range(z.color_range))
    } else if desc.implies_444() {
        w
    } else {
        let w = w.push(coded_range(z.color_range));
        let w = if profile == 2 && depth.bit_depth == 12 {
            let w = w.push(z.subsample_x);
            if z.subsample_x {
                w.push(z.subsample_y)
            } else {
                w
            }
        } else {
            w
        };
        if z.subsample_x && z.subsample_y {
            w + bitio::be_bits(2, z.chroma_sample_position as nat)
        } else {
            w
        }
    };
    w.push(z.separate_uv_delta_q)
}

pub(crate) fn depth_config(r: &mut BitReader, profile: u8) -> (res: Result<Depth, Error>)
    ensures
        bitio::reads(final(r)@, res, depth_at(old(r)@, profile)),
{
    proof {
        reveal(depth_at);
    }
    let high_bitdepth = r.flag()?;
    let twelve_bit = if profile == 2 && high_bitdepth {
        r.flag()?
    } else {
        false
    };
    let bit_depth: u8 = if twelve_bit {
        12
    } else if high_bitdepth {
        10
    } else {
        8
    };
    let mono_chrome = if profile == 1 {
        false
    } else {
        r.flag()?
    };
    Ok(Depth { high_bitdepth, twelve_bit, bit_depth, mono_chrome })
}

pub(crate) fn color_description(r: &mut BitReader) -> (res: Result<ColorDescription, Error>)
    ensures
        bitio::reads(final(r)@, res, description_at(old(r)@)),
{
    proof {
        reveal(description_at);
    }
    if r.flag()? {
        let cp = r.f(8)?;
        let tc = r.f(8)?;
        let mc = r.f(8)?;
        Ok(
            ColorDescription {
                present: true,
                color_primaries: cp as u8,
                transfer_characteristics: tc as u8,
                matrix_coefficients: mc as u8,
            },
        )
    } else {
        Ok(
            ColorDescription {
                present: false,
                color_primaries: 2,
                transfer_characteristics: 2,
                matrix_coefficients: 2,
            },
        )
    }
}

pub(crate) fn subsampling(r: &mut BitReader, profile: u8, depth: Depth) -> (res: Result<(bool, bool), Error>)
    ensures
        bitio::reads(final(r)@, res, subsampling_at(old(r)@, profile, depth)),
{
    broadcast use bitio::lemma_reader_ok;

    proof {
        reveal(subsampling_at);
    }
    match profile {
        0 => Ok((true, true)),  // 4:2:0
        1 => Ok((false, false)),  // 4:4:4
        _ => {
            if depth.bit_depth == 12 {
                let x = r.flag()?;
                let y = if x {
                    r.flag()?
                } else {
                    false
                };
                Ok((x, y))
            } else {
                Ok((true, false))  // 4:2:2
            }
        },
    }
}

pub(crate) fn chroma_config(
    r: &mut BitReader,
    profile: u8,
    depth: Depth,
    desc: ColorDescription,
) -> (res: Result<Chroma, Error>)
    ensures
        bitio::reads(final(r)@, res, chroma_at(old(r)@, profile, depth, desc)),
{
    broadcast use {bitio::lemma_reader_ok, subsampling_sticky};

    proof {
        reveal(chroma_at);
    }
    let mut z = Chroma {
        color_range: None,
        subsample_x: false,
        subsample_y: false,
        chroma_sample_position: 0,
        separate_uv_delta_q: false,
    };
    if depth.mono_chrome {
        // subsampling fixed at 4:0:0; chroma_sample_position not signaled
        z.color_range = Some(r.flag()?);
    } else if desc.color_primaries == 1 && desc.transfer_characteristics == 13
        && desc.matrix_coefficients == 0 {
        // color_range implicitly full; subsampling 4:4:4
    } else {
        z.color_range = Some(r.flag()?);
        let (x, y) = subsampling(r, profile, depth)?;
        z.subsample_x = x;
        z.subsample_y = y;
        if x && y {
            let position = r.f(2)?;
            z.chroma_sample_position = position as u8;
        }
    }
    z.separate_uv_delta_q = r.flag()?;
    Ok(z)
}

pub(crate) fn emit_depth(w: &mut BitWriter, profile: u8, z: Depth)
    requires
        old(w).wf(),
    ensures
        final(w).wf(),
        final(w)@ == depth_bits(old(w)@, profile, z),
{
    proof {
        reveal(depth_bits);
    }
    w.flag(z.high_bitdepth);
    if profile == 2 && z.high_bitdepth {
        w.flag(z.twelve_bit);
    }
    if profile != 1 {
        w.flag(z.mono_chrome);
    }
}

pub(crate) fn emit_description(w: &mut BitWriter, z: ColorDescription)
    requires
        old(w).wf(),
    ensures
        final(w).wf(),
        final(w)@ == description_bits(old(w)@, z),
{
    proof {
        reveal(description_bits);
    }
    w.flag(z.present);
    if z.present {
        w.f(8, z.color_primaries as u64);
        w.f(8, z.transfer_characteristics as u64);
        w.f(8, z.matrix_coefficients as u64);
    }
}

pub(crate) fn emit_chroma(w: &mut BitWriter, profile: u8, depth: Depth, desc: ColorDescription, z: Chroma)
    requires
        old(w).wf(),
    ensures
        final(w).wf(),
        final(w)@ == chroma_bits(old(w)@, profile, depth, desc, z),
{
    proof {
        reveal(chroma_bits);
    }
    let range = match z.color_range {
        Some(full) => full,
        None => false,
    };
    let implied_444 = desc.color_primaries == 1 && desc.transfer_characteristics == 13
        && desc.matrix_coefficients == 0;
    if depth.mono_chrome {
        w.flag(range);
    } else if !implied_444 {
        w.flag(range);
        if profile == 2 && depth.bit_depth == 12 {
            w.flag(z.subsample_x);
            if z.subsample_x {
                w.flag(z.subsample_y);
            }
        }
        if z.subsample_x && z.subsample_y {
            w.f(2, z.chroma_sample_position as u64);
        }
    }
    w.flag(z.separate_uv_delta_q);
}

pub broadcast proof fn depth_sticky(c: Cur, profile: u8)
    requires
        c.err is Some,
    ensures
        (#[trigger] depth_at(c, profile)).1 == c,
{
    reveal(depth_at);
}

pub broadcast proof fn description_sticky(c: Cur)
    requires
        c.err is Some,
    ensures
        (#[trigger] description_at(c)).1 == c,
{
    reveal(description_at);
}

pub broadcast proof fn subsampling_sticky(c: Cur, profile: u8, depth: Depth)
    requires
        c.err is Some,
    ensures
        (#[trigger] subsampling_at(c, profile, depth)).1 == c,
{
    reveal(subsampling_at);
}

pub broadcast proof fn chroma_sticky(c: Cur, profile: u8, depth: Depth, desc: ColorDescription)
    requires
        c.err is Some,
    ensures
        (#[trigger] chroma_at(c, profile, depth, desc)).1 == c,
{
    broadcast use subsampling_sticky;

    reveal(chroma_at);
}

pub broadcast proof fn depth_starts(t: Seq<bool>, w: Seq<bool>, profile: u8, z: Depth)
    requires
        #[trigger] bitio::starts(t, depth_bits(w, profile, z)),
    ensures
        bitio::starts(t, w),
{
    broadcast use bitio::group_starts;

    reveal(depth_bits);
}

pub broadcast proof fn description_starts(t: Seq<bool>, w: Seq<bool>, z: ColorDescription)
    requires
        #[trigger] bitio::starts(t, description_bits(w, z)),
    ensures
        bitio::starts(t, w),
{
    broadcast use bitio::group_starts;

    reveal(description_bits);
}

pub broadcast proof fn chroma_starts(
    t: Seq<bool>,
    w: Seq<bool>,
    profile: u8,
    depth: Depth,
    desc: ColorDescription,
    z: Chroma,
)
    requires
        #[trigger] bitio::starts(t, chroma_bits(w, profile, depth, desc, z)),
    ensures
        bitio::starts(t, w),
{
    broadcast use bitio::group_starts;

    reveal(chroma_bits);
}

pub proof fn depth_consumes(c: Cur, profile: u8)
    requires
        c.ready(),
        depth_at(c, profile).1.err is None,
    ensures
        depth_at(c, profile).0.canonical(profile),
        depth_at(c, profile).1.reached(c, depth_bits(c.seen(), profile, depth_at(c, profile).0)),
{
    broadcast use bitio::group_consumes;

    reveal(depth_at);
    reveal(depth_bits);
}

pub proof fn description_consumes(c: Cur)
    requires
        c.ready(),
        description_at(c).1.err is None,
    ensures
        description_at(c).0.canonical(),
        description_at(c).1.reached(c, description_bits(c.seen(), description_at(c).0)),
{
    broadcast use bitio::group_consumes;

    reveal(description_at);
    reveal(description_bits);
    lemma2_to64();
}

pub proof fn chroma_consumes(c: Cur, profile: u8, depth: Depth, desc: ColorDescription)
    requires
        c.ready(),
        profile <= 2,
        chroma_at(c, profile, depth, desc).1.err is None,
    ensures
        chroma_at(c, profile, depth, desc).0.canonical(profile, depth, desc),
        chroma_at(c, profile, depth, desc).1.reached(
            c,
            chroma_bits(c.seen(), profile, depth, desc, chroma_at(c, profile, depth, desc).0),
        ),
{
    broadcast use bitio::group_consumes;

    reveal(chroma_at);
    reveal(chroma_bits);
    reveal(subsampling_at);
    lemma2_to64();
}

pub proof fn depth_reads_back(c: Cur, profile: u8, z: Depth)
    requires
        z.canonical(profile),
        c.expects(depth_bits(c.seen(), profile, z)),
    ensures
        depth_at(c, profile).0 == z,
        depth_at(c, profile).1.reached(c, depth_bits(c.seen(), profile, z)),
{
    broadcast use bitio::group_starts;

    reveal(depth_at);
    reveal(depth_bits);
    bitio::flag_reads_back(c, z.high_bitdepth);
    let c = c.flag().1;
    let c = if profile == 2 && z.high_bitdepth {
        bitio::flag_reads_back(c, z.twelve_bit);
        c.flag().1
    } else {
        c
    };
    if profile != 1 {
        bitio::flag_reads_back(c, z.mono_chrome);
    }
}

pub proof fn description_reads_back(c: Cur, z: ColorDescription)
    requires
        z.canonical(),
        c.expects(description_bits(c.seen(), z)),
    ensures
        description_at(c).0 == z,
        description_at(c).1.reached(c, description_bits(c.seen(), z)),
{
    broadcast use bitio::group_starts;

    reveal(description_at);
    reveal(description_bits);
    lemma2_to64();
    bitio::flag_reads_back(c, z.present);
    let c = c.flag().1;
    if z.present {
        bitio::f_reads_back(c, 8, z.color_primaries as u64);
        let c = c.f(8).1;
        bitio::f_reads_back(c, 8, z.transfer_characteristics as u64);
        let c = c.f(8).1;
        bitio::f_reads_back(c, 8, z.matrix_coefficients as u64);
    }
}

pub proof fn chroma_reads_back(c: Cur, profile: u8, depth: Depth, desc: ColorDescription, z: Chroma)
    requires
        profile <= 2,
        z.canonical(profile, depth, desc),
        c.expects(chroma_bits(c.seen(), profile, depth, desc, z)),
    ensures
        chroma_at(c, profile, depth, desc).0 == z,
        chroma_at(c, profile, depth, desc).1.reached(
            c,
            chroma_bits(c.seen(), profile, depth, desc, z),
        ),
{
    broadcast use bitio::group_starts;

    reveal(chroma_at);
    reveal(chroma_bits);
    reveal(subsampling_at);
    lemma2_to64();
    let c = if depth.mono_chrome {
        bitio::flag_reads_back(c, coded_range(z.color_range));
        c.flag().1
    } else if desc.implies_444() {
        c
    } else {
        bitio::flag_reads_back(c, coded_range(z.color_range));
        let c = c.flag().1;
        let c = if profile == 2 && depth.bit_depth == 12 {
            bitio::flag_reads_back(c, z.subsample_x);
            let c = c.flag().1;
            if z.subsample_x {
                bitio::flag_reads_back(c, z.subsample_y);
                c.flag().1
            } else {
                c
            }
        } else {
            c
        };
        if z.subsample_x && z.subsample_y {
            bitio::f_reads_back(c, 2, z.chroma_sample_position as u64);
            c.f(2).1
        } else {
            c
        }
    };
    bitio::flag_reads_back(c, z.separate_uv_delta_q);
}

} // verus!
