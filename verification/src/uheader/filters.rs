//! In-loop filter part of the uncompressed header.

use vstd::prelude::*;
use vstd::arithmetic::power2::*;

use crate::bitio::{self, BitReader, Cur};
use crate::error::Error;
use crate::seq_header::{OperatingPoint, Sections, SequenceHeader};
use crate::uheader::codes;

verus! {

/// An update flag and, where it is set, a delta.
pub open spec fn lf_delta_at(c: Cur) -> Cur {
    let (update, c) = c.flag();
    if update {
        codes::su_at(c, 7).1
    } else {
        c
    }
}

/// loop_filter_params() of a frame that codes them.
#[verifier::opaque]
pub open spec fn levels_at(c: Cur, mono: bool) -> Cur {
    let (lf0, c) = c.f(6);
    let (lf1, c) = c.f(6);
    let c = if !mono && (lf0 != 0 || lf1 != 0) {
        c.f(6).1.f(6).1
    } else {
        c
    };
    let (_, c) = c.f(3);
    let (enabled, c) = c.flag();
    if enabled {
        let (update, c) = c.flag();
        if update {
            bitio::times(c, 10, |c: Cur| lf_delta_at(c))
        } else {
            c
        }
    } else {
        c
    }
}

/// loop_filter_params().
pub open spec fn loop_filter_at(c: Cur, mono: bool, skip: bool) -> Cur {
    if skip {
        c
    } else {
        levels_at(c, mono)
    }
}

/// One pair of cdef strengths for each plane type.
pub open spec fn cdef_strength_at(c: Cur, mono: bool) -> Cur {
    let c = c.f(4).1.f(2).1;
    if mono {
        c
    } else {
        c.f(4).1.f(2).1
    }
}

/// cdef_params().
#[verifier::opaque]
pub open spec fn cdef_at(c: Cur, mono: bool, skip: bool) -> Cur {
    if skip {
        c
    } else {
        let (_, c) = c.f(2);
        let (bits, c) = c.f(2);
        bitio::times(c, pow2(bits as nat), |c: Cur| cdef_strength_at(c, mono))
    }
}

/// The restoration types: whether any plane, and whether any chroma plane, is
/// restored.
#[verifier::opaque]
pub open spec fn lr_types_at(c: Cur, mono: bool) -> ((bool, bool), Cur) {
    let (y, c) = c.f(2);
    if mono {
        ((y != 0, false), c)
    } else {
        let (u, c) = c.f(2);
        let (v, c) = c.f(2);
        ((y != 0 || u != 0 || v != 0, u != 0 || v != 0), c)
    }
}

/// lr_params().
#[verifier::opaque]
pub open spec fn restoration_at(c: Cur, sh: Sections<Seq<OperatingPoint>>, skip: bool) -> Cur {
    if skip {
        c
    } else {
        let ((any, chroma), c) = lr_types_at(c, sh.depth.mono_chrome);
        if any {
            let (shift, c) = c.flag();
            let c = if !sh.tools.use_128x128_superblock && shift {
                c.flag().1
            } else {
                c
            };
            if sh.chroma.subsample_x && sh.chroma.subsample_y && chroma {
                c.flag().1
            } else {
                c
            }
        } else {
            c
        }
    }
}

pub broadcast proof fn levels_sticky(c: Cur, mono: bool)
    requires
        c.err is Some,
    ensures
        (#[trigger] levels_at(c, mono)) == c,
{
    reveal(levels_at);
}

pub broadcast proof fn cdef_sticky(c: Cur, mono: bool, skip: bool)
    requires
        c.err is Some,
    ensures
        (#[trigger] cdef_at(c, mono, skip)) == c,
{
    reveal(cdef_at);
    lemma2_to64();
    let step = |c: Cur| cdef_strength_at(c, mono);
    assert(bitio::sticky(step));
    bitio::lemma_times_fail(c, 0, 1, step);
}

pub broadcast proof fn lr_types_sticky(c: Cur, mono: bool)
    requires
        c.err is Some,
    ensures
        (#[trigger] lr_types_at(c, mono)).1 == c,
{
    reveal(lr_types_at);
}

pub broadcast proof fn restoration_sticky(c: Cur, sh: Sections<Seq<OperatingPoint>>, skip: bool)
    requires
        c.err is Some,
    ensures
        (#[trigger] restoration_at(c, sh, skip)) == c,
{
    broadcast use lr_types_sticky;

    reveal(restoration_at);
}

fn lf_delta(r: &mut BitReader) -> (res: Result<(), Error>)
    ensures
        bitio::skips(final(r)@, res, lf_delta_at(old(r)@)),
{
    if r.flag()? {
        codes::su(r, 1 + 6)?;
    }
    Ok(())
}

fn lf_deltas(r: &mut BitReader) -> (res: Result<(), Error>)
    ensures
        bitio::skips(final(r)@, res, bitio::times(old(r)@, 10, |c: Cur| lf_delta_at(c))),
{
    broadcast use codes::su_sticky;

    let ghost start = r@;
    let ghost step = |c: Cur| lf_delta_at(c);
    proof {
        bitio::lemma_reader_ok(*r);
    }
    assert(bitio::sticky(step));
    let mut i: usize = 0;
    while i < 10
        invariant
            i <= 10,
            bitio::sticky(step),
            start == old(r)@,
            step == (|c: Cur| lf_delta_at(c)),
            r@.err is None,
            r@ == bitio::times(start, i as nat, step),
        decreases 10 - i,
    {
        proof {
            if bitio::times(start, (i + 1) as nat, step).err is Some {
                bitio::lemma_times_fail(start, (i + 1) as nat, 10, step);
            }
        }
        lf_delta(r)?;
        i = i + 1;
    }
    Ok(())
}

pub(crate) fn loop_filter_params(r: &mut BitReader, mono: bool, skip: bool) -> (res: Result<
    (),
    Error,
>)
    ensures
        bitio::skips(final(r)@, res, loop_filter_at(old(r)@, mono, skip)),
{
    broadcast use codes::su_sticky;

    proof {
        reveal(levels_at);
        bitio::lemma_reader_ok(*r);
        let step = |c: Cur| lf_delta_at(c);
        assert(bitio::sticky(step));
    }
    if skip {
        return Ok(());
    }
    let lf0 = r.f(6)?;
    let lf1 = r.f(6)?;
    if !mono && (lf0 != 0 || lf1 != 0) {
        r.f(6)?;
        r.f(6)?;
    }
    r.f(3)?;  // sharpness
    if r.flag()? {
        // loop_filter_delta_enabled
        if r.flag()? {
            // loop_filter_delta_update: eight reference and two mode deltas
            lf_deltas(r)?;
        }
    }
    Ok(())
}

fn cdef_strength(r: &mut BitReader, mono: bool) -> (res: Result<(), Error>)
    ensures
        bitio::skips(final(r)@, res, cdef_strength_at(old(r)@, mono)),
{
    r.f(4)?;  // y primary strength
    r.f(2)?;  // y secondary strength
    if !mono {
        r.f(4)?;  // uv primary
        r.f(2)?;  // uv secondary
    }
    Ok(())
}

pub(crate) fn cdef_params(r: &mut BitReader, mono: bool, skip: bool) -> (res: Result<(), Error>)
    ensures
        bitio::skips(final(r)@, res, cdef_at(old(r)@, mono, skip)),
{
    proof {
        reveal(cdef_at);
        bitio::lemma_reader_ok(*r);
        lemma2_to64();
    }
    if skip {
        return Ok(());
    }
    let ghost step = |c: Cur| cdef_strength_at(c, mono);
    proof {
        assert(bitio::sticky(step));
        let c1 = r@.f(2).1.f(2).1;
        if c1.err is Some {
            bitio::lemma_times_fail(c1, 0, 1, step);
        }
    }
    r.f(2)?;  // cdef_damping_minus_3
    let ghost c = r@;
    let bits = r.f(2)?;
    proof {
        bitio::f_consumes(c, 2);
        bitio::lemma_one_shl(bits);
        bitio::lemma_pow2_monotone(bits as nat, 3);
    }
    let count: u64 = 1u64 << bits;
    let ghost start = r@;
    let mut i: u64 = 0;
    while i < count
        invariant
            i <= count <= 8,
            bitio::sticky(step),
            step == (|c: Cur| cdef_strength_at(c, mono)),
            r@.err is None,
            r@ == bitio::times(start, i as nat, step),
            cdef_at(old(r)@, mono, false) == bitio::times(start, count as nat, step),
            !skip,
        decreases count - i,
    {
        proof {
            if bitio::times(start, (i + 1) as nat, step).err is Some {
                bitio::lemma_times_fail(start, (i + 1) as nat, count as nat, step);
            }
        }
        cdef_strength(r, mono)?;
        i = i + 1;
    }
    Ok(())
}

fn lr_types(r: &mut BitReader, mono: bool) -> (res: Result<(bool, bool), Error>)
    ensures
        bitio::reads(final(r)@, res, lr_types_at(old(r)@, mono)),
{
    proof {
        reveal(lr_types_at);
    }
    let y = r.f(2)?;
    if mono {
        Ok((y != 0, false))
    } else {
        let u = r.f(2)?;
        let v = r.f(2)?;
        Ok((y != 0 || u != 0 || v != 0, u != 0 || v != 0))
    }
}

pub(crate) fn lr_params(r: &mut BitReader, sh: &SequenceHeader, skip: bool) -> (res: Result<
    (),
    Error,
>)
    ensures
        bitio::skips(final(r)@, res, restoration_at(old(r)@, sh@, skip)),
{
    proof {
        reveal(restoration_at);
        bitio::lemma_reader_ok(*r);
    }
    if skip {
        return Ok(());
    }
    let (any, chroma) = lr_types(r, sh.mono_chrome)?;
    if any {
        // lr_unit_shift, and lr_unit_extra_shift for small superblocks
        if r.flag()? && !sh.use_128x128_superblock {
            r.flag()?;
        }
        if sh.subsample_x && sh.subsample_y && chroma {
            r.flag()?;  // lr_uv_shift
        }
    }
    Ok(())
}

} // verus!
