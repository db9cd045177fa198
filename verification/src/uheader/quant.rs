//! Quantizer and segmentation part of the uncompressed header.

use vstd::prelude::*;
use vstd::arithmetic::power2::*;

use crate::bitio::{self, BitReader, Cur};
use crate::error::Error;
use crate::seq_header::{OperatingPoint, Sections, SequenceHeader};
use crate::uheader::codes;

verus! {

pub const MAX_SEGMENTS: usize = 8;

pub const SEG_LVL_MAX: usize = 8;

pub const MAX_LOOP_FILTER: i64 = 63;

/// base_q_idx and the deltas of the planes.
#[derive(Debug, Clone, Copy, PartialEq, Eq, Structural)]
pub struct Quant {
    pub base_q_idx: u64,
    pub delta_q_y_dc: i64,
    pub delta_q_u_dc: i64,
    pub delta_q_u_ac: i64,
    pub delta_q_v_dc: i64,
    pub delta_q_v_ac: i64,
}

/// read_delta_q().
#[verifier::opaque]
pub open spec fn delta_q_at(c: Cur) -> (i64, Cur) {
    let (coded, c) = c.flag();
    if coded {
        codes::su_at(c, 7)
    } else {
        (0, c)
    }
}

/// The deltas of the two chroma planes: U dc, U ac, V dc, V ac.
#[verifier::opaque]
pub open spec fn chroma_deltas_at(c: Cur, separate: bool) -> ((i64, i64, i64, i64), Cur) {
    let (different, c) = if separate {
        c.flag()
    } else {
        (false, c)
    };
    let (u_dc, c) = delta_q_at(c);
    let (u_ac, c) = delta_q_at(c);
    if different {
        let (v_dc, c) = delta_q_at(c);
        let (v_ac, c) = delta_q_at(c);
        ((u_dc, u_ac, v_dc, v_ac), c)
    } else {
        ((u_dc, u_ac, u_dc, u_ac), c)
    }
}

/// using_qmatrix and the matrix levels.
#[verifier::opaque]
pub open spec fn qmatrix_at(c: Cur, separate: bool) -> Cur {
    let (using, c) = c.flag();
    if using {
        let (_, c) = c.f(4);
        let (_, c) = c.f(4);
        if separate {
            c.f(4).1
        } else {
            c
        }
    } else {
        c
    }
}

/// quantization_params().
#[verifier::opaque]
pub open spec fn quant_at(c: Cur, sh: Sections<Seq<OperatingPoint>>) -> (Quant, Cur) {
    let separate = sh.chroma.separate_uv_delta_q;
    let (base, c) = c.f(8);
    let (y_dc, c) = delta_q_at(c);
    let ((u_dc, u_ac, v_dc, v_ac), c) = if sh.depth.mono_chrome {
        ((0i64, 0i64, 0i64, 0i64), c)
    } else {
        chroma_deltas_at(c, separate)
    };
    let c = qmatrix_at(c, separate);
    (
        Quant {
            base_q_idx: base,
            delta_q_y_dc: y_dc,
            delta_q_u_dc: u_dc,
            delta_q_u_ac: u_ac,
            delta_q_v_dc: v_dc,
            delta_q_v_ac: v_ac,
        },
        c,
    )
}

/// How many bits segmentation feature `j` has.
pub open spec fn feature_bits(j: int) -> nat {
    if j == 0 {
        8
    } else if j <= 4 {
        6
    } else if j == 5 {
        3
    } else {
        0
    }
}

pub open spec fn feature_signed(j: int) -> bool {
    j <= 4
}

pub open spec fn feature_max(j: int) -> i64 {
    if j == 0 {
        255
    } else if j <= 4 {
        MAX_LOOP_FILTER
    } else if j == 5 {
        7
    } else {
        0
    }
}

pub open spec fn clamped(v: int, low: int, high: int) -> int {
    if v < low {
        low
    } else if v > high {
        high
    } else {
        v
    }
}

/// Feature `j` of a segment; 0 where it is off.
#[verifier::opaque]
pub open spec fn feature_at(c: Cur, j: int) -> (i64, Cur) {
    let (enabled, c) = c.flag();
    if !enabled {
        (0, c)
    } else if feature_signed(j) {
        let (v, c) = codes::su_at(c, 1 + feature_bits(j));
        (clamped(v as int, -feature_max(j) as int, feature_max(j) as int) as i64, c)
    } else {
        let (v, c) = c.f(feature_bits(j));
        (clamped(v as int, 0, feature_max(j) as int) as i64, c)
    }
}

/// The features of one segment from feature `j` on; only the bits they take
/// matter.
pub open spec fn features_at(c: Cur, j: nat) -> Cur
    decreases SEG_LVL_MAX - j,
{
    if j >= SEG_LVL_MAX {
        c
    } else {
        features_at(feature_at(c, j as int).1, j + 1)
    }
}

/// One segment: its quantizer offset, which is its first feature.
pub open spec fn segment_at(c: Cur) -> (i64, Cur) {
    let (alt_q, c) = feature_at(c, 0);
    (alt_q, features_at(c, 1))
}

/// The quantizer offsets of `n` segments.
pub open spec fn segments_at(c: Cur, n: nat) -> (Seq<i64>, Cur)
    decreases n,
{
    if n == 0 {
        (Seq::empty(), c)
    } else {
        let (offsets, c) = segments_at(c, (n - 1) as nat);
        let (alt_q, c) = segment_at(c);
        (offsets.push(alt_q), c)
    }
}

/// No quantizer offset in any segment.
pub open spec fn no_offsets() -> Seq<i64> {
    Seq::new(MAX_SEGMENTS as nat, |i: int| 0i64)
}

/// Whether segmentation_params() updates the features.
#[verifier::opaque]
pub open spec fn update_data_at(c: Cur, no_primary: bool) -> (bool, Cur) {
    if no_primary {
        (true, c)
    } else {
        let (map, c) = c.flag();
        let c = if map {
            c.flag().1
        } else {
            c
        };
        c.flag()
    }
}

/// segmentation_params(): the quantizer offset of each segment.
#[verifier::opaque]
pub open spec fn segmentation_at(c: Cur, no_primary: bool) -> (Seq<i64>, Cur) {
    let (enabled, c) = c.flag();
    if enabled {
        let (update, c) = update_data_at(c, no_primary);
        if update {
            segments_at(c, MAX_SEGMENTS as nat)
        } else {
            (no_offsets(), c)
        }
    } else {
        (no_offsets(), c)
    }
}

/// delta_q_params() and delta_lf_params().
#[verifier::opaque]
pub open spec fn deltas_at(c: Cur, base_q_idx: u64, intrabc: bool) -> Cur {
    let (present, c) = if base_q_idx > 0 {
        c.flag()
    } else {
        (false, c)
    };
    if present {
        let (_, c) = c.f(2);
        let (lf, c) = if intrabc {
            (false, c)
        } else {
            c.flag()
        };
        if lf {
            let (_, c) = c.f(2);
            c.f(1).1
        } else {
            c
        }
    } else {
        c
    }
}

/// CodedLossless: quantizer index 0 in every segment, and no deltas.
pub open spec fn is_lossless(q: Quant, offsets: Seq<i64>) -> bool {
    &&& q.delta_q_y_dc == 0
    &&& q.delta_q_u_dc == 0
    &&& q.delta_q_u_ac == 0
    &&& q.delta_q_v_dc == 0
    &&& q.delta_q_v_ac == 0
    &&& forall|s: int|
        0 <= s < MAX_SEGMENTS ==> clamped(q.base_q_idx + #[trigger] offsets[s], 0, 255) == 0
}

// ---------- failed cursors stay ----------

pub broadcast proof fn delta_q_sticky(c: Cur)
    requires
        c.err is Some,
    ensures
        (#[trigger] delta_q_at(c)).1 == c,
{
    reveal(delta_q_at);
}

pub broadcast proof fn chroma_deltas_sticky(c: Cur, separate: bool)
    requires
        c.err is Some,
    ensures
        (#[trigger] chroma_deltas_at(c, separate)).1 == c,
{
    broadcast use delta_q_sticky;

    reveal(chroma_deltas_at);
}

pub broadcast proof fn qmatrix_sticky(c: Cur, separate: bool)
    requires
        c.err is Some,
    ensures
        (#[trigger] qmatrix_at(c, separate)) == c,
{
    reveal(qmatrix_at);
}

pub broadcast proof fn quant_sticky(c: Cur, sh: Sections<Seq<OperatingPoint>>)
    requires
        c.err is Some,
    ensures
        (#[trigger] quant_at(c, sh)).1 == c,
{
    broadcast use {delta_q_sticky, chroma_deltas_sticky, qmatrix_sticky};

    reveal(quant_at);
}

pub broadcast proof fn feature_sticky(c: Cur, j: int)
    requires
        c.err is Some,
    ensures
        (#[trigger] feature_at(c, j)).1 == c,
{
    reveal(feature_at);
}

pub broadcast proof fn features_sticky(c: Cur, j: nat)
    requires
        c.err is Some,
    ensures
        (#[trigger] features_at(c, j)) == c,
    decreases SEG_LVL_MAX - j,
{
    if j < SEG_LVL_MAX {
        feature_sticky(c, j as int);
        features_sticky(c, j + 1);
    }
}

proof fn lemma_segments_fail(c: Cur, i: nat, n: nat)
    requires
        i <= n,
        segments_at(c, i).1.err is Some,
    ensures
        segments_at(c, n).1 == segments_at(c, i).1,
    decreases n,
{
    broadcast use {feature_sticky, features_sticky};

    if i < n {
        lemma_segments_fail(c, i, (n - 1) as nat);
    }
}

pub broadcast proof fn segments_sticky(c: Cur, n: nat)
    requires
        c.err is Some,
    ensures
        (#[trigger] segments_at(c, n)).1 == c,
{
    lemma_segments_fail(c, 0, n);
}

pub broadcast proof fn update_data_sticky(c: Cur, no_primary: bool)
    requires
        c.err is Some,
    ensures
        (#[trigger] update_data_at(c, no_primary)).1 == c,
{
    reveal(update_data_at);
}

pub broadcast proof fn segmentation_sticky(c: Cur, no_primary: bool)
    requires
        c.err is Some,
    ensures
        (#[trigger] segmentation_at(c, no_primary)).1 == c,
{
    reveal(segmentation_at);
}

pub broadcast proof fn deltas_sticky(c: Cur, base_q_idx: u64, intrabc: bool)
    requires
        c.err is Some,
    ensures
        (#[trigger] deltas_at(c, base_q_idx, intrabc)) == c,
{
    reveal(deltas_at);
}

// ---------- reading ----------

fn read_delta_q(r: &mut BitReader) -> (res: Result<i64, Error>)
    ensures
        bitio::reads(final(r)@, res, delta_q_at(old(r)@)),
{
    broadcast use {bitio::lemma_reader_ok, codes::su_sticky};

    proof {
        reveal(delta_q_at);
    }
    if r.flag()? {
        codes::su(r, 1 + 6)
    } else {
        Ok(0)
    }
}

fn chroma_deltas(r: &mut BitReader, separate: bool) -> (res: Result<(i64, i64, i64, i64), Error>)
    ensures
        bitio::reads(final(r)@, res, chroma_deltas_at(old(r)@, separate)),
{
    broadcast use {bitio::lemma_reader_ok, delta_q_sticky};

    proof {
        reveal(chroma_deltas_at);
    }
    let different = if separate {
        r.flag()?
    } else {
        false
    };
    let u_dc = read_delta_q(r)?;
    let u_ac = read_delta_q(r)?;
    if different {
        let v_dc = read_delta_q(r)?;
        let v_ac = read_delta_q(r)?;
        Ok((u_dc, u_ac, v_dc, v_ac))
    } else {
        Ok((u_dc, u_ac, u_dc, u_ac))
    }
}

fn qmatrix(r: &mut BitReader, separate: bool) -> (res: Result<(), Error>)
    ensures
        bitio::skips(final(r)@, res, qmatrix_at(old(r)@, separate)),
{
    proof {
        reveal(qmatrix_at);
    }
    if r.flag()? {
        // using_qmatrix
        r.f(4)?;  // qm_y
        r.f(4)?;  // qm_u
        if separate {
            r.f(4)?;  // qm_v
        }
    }
    Ok(())
}

pub(crate) fn quantization_params(r: &mut BitReader, sh: &SequenceHeader) -> (res: Result<
    Quant,
    Error,
>)
    ensures
        bitio::reads(final(r)@, res, quant_at(old(r)@, sh@)),
        res matches Ok(q) ==> q.base_q_idx < 256,
{
    broadcast use {delta_q_sticky, chroma_deltas_sticky, qmatrix_sticky};

    proof {
        reveal(quant_at);
        lemma2_to64();
        bitio::lemma_reader_ok(*r);
    }
    let ghost c = r@;
    let base_q_idx = r.f(8)?;
    proof {
        bitio::f_consumes(c, 8);
    }
    let y_dc = read_delta_q(r)?;
    let (u_dc, u_ac, v_dc, v_ac) = if sh.mono_chrome {
        (0i64, 0i64, 0i64, 0i64)
    } else {
        chroma_deltas(r, sh.separate_uv_delta_q)?
    };
    qmatrix(r, sh.separate_uv_delta_q)?;
    Ok(
        Quant {
            base_q_idx,
            delta_q_y_dc: y_dc,
            delta_q_u_dc: u_dc,
            delta_q_u_ac: u_ac,
            delta_q_v_dc: v_dc,
            delta_q_v_ac: v_ac,
        },
    )
}

fn clamp(v: i64, low: i64, high: i64) -> (r: i64)
    ensures
        r == clamped(v as int, low as int, high as int),
{
    if v < low {
        low
    } else if v > high {
        high
    } else {
        v
    }
}

fn feature(r: &mut BitReader, j: usize) -> (res: Result<i64, Error>)
    requires
        j < SEG_LVL_MAX,
    ensures
        bitio::reads(final(r)@, res, feature_at(old(r)@, j as int)),
        res matches Ok(v) ==> -255 <= v <= 255,
{
    broadcast use codes::su_sticky;

    proof {
        reveal(feature_at);
        bitio::lemma_reader_ok(*r);
        lemma2_to64();
    }
    let bits: usize = if j == 0 {
        8
    } else if j <= 4 {
        6
    } else if j == 5 {
        3
    } else {
        0
    };
    let limit: i64 = if j == 0 {
        255
    } else if j <= 4 {
        MAX_LOOP_FILTER
    } else if j == 5 {
        7
    } else {
        0
    };
    if !r.flag()? {
        Ok(0)
    } else if j <= 4 {
        let v = codes::su(r, 1 + bits)?;
        Ok(clamp(v, -limit, limit))
    } else {
        let ghost c = r@;
        let v = r.f(bits)?;
        proof {
            bitio::f_consumes(c, bits as nat);
        }
        Ok(clamp(v as i64, 0, limit))
    }
}

fn segment(r: &mut BitReader) -> (res: Result<i64, Error>)
    ensures
        bitio::reads(final(r)@, res, segment_at(old(r)@)),
        res matches Ok(v) ==> -255 <= v <= 255,
{
    broadcast use features_sticky;

    let alt_q = feature(r, 0)?;
    let ghost start = r@;
    proof {
        bitio::lemma_reader_ok(*r);
    }
    let mut j: usize = 1;
    while j < SEG_LVL_MAX
        invariant
            1 <= j <= SEG_LVL_MAX,
            r@.err is None,
            features_at(start, 1) == features_at(r@, j as nat),
            segment_at(old(r)@) == (alt_q, features_at(start, 1)),
        decreases SEG_LVL_MAX - j,
    {
        proof {
            let c1 = feature_at(r@, j as int).1;
            if c1.err is Some {
                features_sticky(c1, (j + 1) as nat);
            }
        }
        feature(r, j)?;
        j = j + 1;
    }
    Ok(alt_q)
}

fn segments(r: &mut BitReader) -> (res: Result<Vec<i64>, Error>)
    ensures
        match res {
            Ok(v) => bitio::reads(
                final(r)@,
                Ok::<Seq<i64>, Error>(v@),
                segments_at(old(r)@, MAX_SEGMENTS as nat),
            ) && offsets_fit(v@),
            Err(e) => segments_at(old(r)@, MAX_SEGMENTS as nat).1.err == Some(e),
        },
{
    let mut out: Vec<i64> = Vec::new();
    let ghost start = r@;
    proof {
        bitio::lemma_reader_ok(*r);
    }
    assert(out@ =~= Seq::empty());
    while out.len() < MAX_SEGMENTS
        invariant
            out@.len() <= MAX_SEGMENTS,
            start == old(r)@,
            r@.err is None,
            segments_at(start, out@.len()) == (out@, r@),
            forall|i: int| 0 <= i < out@.len() ==> -255 <= #[trigger] out@[i] <= 255,
        decreases MAX_SEGMENTS - out@.len(),
    {
        let ghost k = out@.len();
        let res = segment(r);
        proof {
            if res is Err {
                lemma_segments_fail(start, k + 1, MAX_SEGMENTS as nat);
            }
        }
        let alt_q = res?;
        out.push(alt_q);
        assert(out@ =~= segments_at(start, k).0.push(alt_q));
    }
    Ok(out)
}

/// A small offset for each segment.
pub open spec fn offsets_fit(offsets: Seq<i64>) -> bool {
    offsets.len() == MAX_SEGMENTS && forall|i: int|
        0 <= i < MAX_SEGMENTS ==> -255 <= #[trigger] offsets[i] <= 255
}

fn zero_offsets() -> (r: Vec<i64>)
    ensures
        r@ == no_offsets(),
        offsets_fit(r@),
{
    let mut out: Vec<i64> = Vec::new();
    while out.len() < MAX_SEGMENTS
        invariant
            out@.len() <= MAX_SEGMENTS,
            forall|i: int| 0 <= i < out@.len() ==> out@[i] == 0,
        decreases MAX_SEGMENTS - out@.len(),
    {
        out.push(0);
    }
    assert(out@ =~= no_offsets());
    out
}

fn update_data(r: &mut BitReader, no_primary: bool) -> (res: Result<bool, Error>)
    ensures
        bitio::reads(final(r)@, res, update_data_at(old(r)@, no_primary)),
{
    proof {
        reveal(update_data_at);
        bitio::lemma_reader_ok(*r);
    }
    if no_primary {
        Ok(true)
    } else {
        if r.flag()? {
            r.flag()?;  // segmentation_temporal_update
        }
        r.flag()  // segmentation_update_data
    }
}

pub(crate) fn segmentation_params(r: &mut BitReader, no_primary: bool) -> (res: Result<
    Vec<i64>,
    Error,
>)
    ensures
        match res {
            Ok(v) => bitio::reads(
                final(r)@,
                Ok::<Seq<i64>, Error>(v@),
                segmentation_at(old(r)@, no_primary),
            ) && offsets_fit(v@),
            Err(e) => segmentation_at(old(r)@, no_primary).1.err == Some(e),
        },
{
    broadcast use {update_data_sticky, segments_sticky};

    proof {
        reveal(segmentation_at);
        bitio::lemma_reader_ok(*r);
    }
    if !r.flag()? {
        return Ok(zero_offsets());
    }
    if update_data(r, no_primary)? {
        segments(r)
    } else {
        Ok(zero_offsets())
    }
}

pub(crate) fn delta_params(r: &mut BitReader, base_q_idx: u64, intrabc: bool) -> (res: Result<
    (),
    Error,
>)
    ensures
        bitio::skips(final(r)@, res, deltas_at(old(r)@, base_q_idx, intrabc)),
{
    proof {
        reveal(deltas_at);
        bitio::lemma_reader_ok(*r);
    }
    let present = if base_q_idx > 0 {
        r.flag()?
    } else {
        false
    };
    if present {
        r.f(2)?;  // delta_q_res
        let lf = if intrabc {
            false
        } else {
            r.flag()?
        };
        if lf {
            r.f(2)?;  // delta_lf_res
            r.f(1)?;  // delta_lf_multi
        }
    }
    Ok(())
}

pub(crate) fn coded_lossless(q: Quant, offsets: &Vec<i64>) -> (r: bool)
    requires
        q.base_q_idx < 256,
        offsets_fit(offsets@),
    ensures
        r == is_lossless(q, offsets@),
{
    if q.delta_q_y_dc != 0 || q.delta_q_u_dc != 0 || q.delta_q_u_ac != 0 || q.delta_q_v_dc != 0
        || q.delta_q_v_ac != 0 {
        return false;
    }
    let mut s: usize = 0;
    while s < MAX_SEGMENTS
        invariant
            s <= MAX_SEGMENTS,
            q.base_q_idx < 256,
            offsets_fit(offsets@),
            forall|i: int|
                0 <= i < s ==> clamped(q.base_q_idx + #[trigger] offsets@[i], 0, 255) == 0,
        decreases MAX_SEGMENTS - s,
    {
        if clamp(q.base_q_idx as i64 + offsets[s], 0, 255) != 0 {
            assert(clamped(q.base_q_idx + offsets@[s as int], 0, 255) != 0);
            return false;
        }
        s = s + 1;
    }
    true
}

} // verus!
