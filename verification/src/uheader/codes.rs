//! Variable-length codes of the uncompressed header.

use vstd::prelude::*;
use vstd::arithmetic::power2::*;

use crate::bitio::{self, BitReader, Cur};
use crate::error::Error;

verus! {

pub const GM_ABS_TRANS_BITS: u32 = 12;

pub const GM_ABS_TRANS_ONLY_BITS: u32 = 9;

pub const GM_ABS_ALPHA_BITS: u32 = 12;

pub const REFS_PER_FRAME: usize = 7;

/// su(n): sign bit + magnitude, n bits total.
#[verifier::opaque]
pub open spec fn su_at(c: Cur, n: nat) -> (i64, Cur) {
    let (sign, c) = c.flag();
    let (magnitude, c) = c.f((n - 1) as nat);
    (
        if sign {
            -(magnitude as int) as i64
        } else {
            magnitude as i64
        },
        c,
    )
}

/// ns(n): near-uniform code; with `w` the bit length of `n`, the first
/// `2^w - n` values take `w - 1` bits, the others one more.
#[verifier::opaque]
pub open spec fn ns_at(c: Cur, n: nat) -> (nat, Cur) {
    if n == 0 {
        (0, c.fail(Error::NsZero))
    } else {
        let w = bitio::floor_log2(n) + 1;
        let m = pow2(w) - n;
        let (v, c) = c.f((w - 1) as nat);
        if v < m {
            (v as nat, c)
        } else {
            let (extra, c) = c.f(1);
            ((2 * v - m + extra) as nat, c)
        }
    }
}

/// decode_subexp(): after `i` escapes, with `mk` values passed over.
pub open spec fn subexp_at(c: Cur, i: nat, mk: nat, num_syms: nat) -> (nat, Cur)
    decreases num_syms - mk,
{
    let b2 = subexp_bits(i);
    let a = pow2(b2);
    if num_syms <= mk + 3 * a {
        let (v, c) = ns_at(
            c,
            if num_syms > mk {
                (num_syms - mk) as nat
            } else {
                1
            },
        );
        (v + mk, c)
    } else {
        let (more, c) = c.flag();
        if more {
            proof {
                lemma_pow2_pos(b2);
            }
            subexp_at(c, i + 1, mk + a, num_syms)
        } else {
            let (v, c) = c.f(b2);
            (v as nat + mk, c)
        }
    }
}

/// How many bits a value takes after `i` escapes.
pub open spec fn subexp_bits(i: nat) -> nat {
    if i == 0 {
        3
    } else {
        (3 + i - 1) as nat
    }
}

/// The bits of the largest magnitude of global motion parameter `idx`.
pub open spec fn global_param_bits(gm_type: u8, high_precision: bool, idx: int) -> nat {
    if idx >= 2 {
        GM_ABS_ALPHA_BITS as nat
    } else if gm_type != 1 {
        GM_ABS_TRANS_BITS as nat
    } else if high_precision {
        GM_ABS_TRANS_ONLY_BITS as nat
    } else {
        (GM_ABS_TRANS_ONLY_BITS - 1) as nat
    }
}

/// One global motion parameter.
#[verifier::opaque]
pub open spec fn global_param_at(c: Cur, gm_type: u8, high_precision: bool, idx: int) -> Cur {
    subexp_at(c, 0, 0, 2 * pow2(global_param_bits(gm_type, high_precision, idx)) + 1).1
}

/// is_global and the flags behind it: 0 for identity, 1 for translation, 2 for
/// rotation and zoom, 3 for affine.
pub open spec fn gm_type_at(c: Cur) -> (u8, Cur) {
    let (global, c) = c.flag();
    if !global {
        (0, c)
    } else {
        let (rot_zoom, c) = c.flag();
        if rot_zoom {
            (2, c)
        } else {
            let (translation, c) = c.flag();
            if translation {
                (1, c)
            } else {
                (3, c)
            }
        }
    }
}

/// The global motion of one reference frame.
#[verifier::opaque]
pub open spec fn global_motion_at(c: Cur, hp: bool) -> Cur {
    let (gm_type, c) = gm_type_at(c);
    let c = if gm_type >= 2 {
        let c = global_param_at(c, gm_type, hp, 2);
        global_param_at(c, gm_type, hp, 3)
    } else {
        c
    };
    let c = if gm_type == 3 {
        let c = global_param_at(c, gm_type, hp, 4);
        global_param_at(c, gm_type, hp, 5)
    } else {
        c
    };
    if gm_type >= 1 {
        let c = global_param_at(c, gm_type, hp, 0);
        global_param_at(c, gm_type, hp, 1)
    } else {
        c
    }
}

/// global_motion_params() of an inter frame.
#[verifier::opaque]
pub open spec fn global_motions_at(c: Cur, hp: bool) -> Cur {
    bitio::times(c, REFS_PER_FRAME as nat, |c: Cur| global_motion_at(c, hp))
}

pub broadcast proof fn su_sticky(c: Cur, n: nat)
    requires
        c.err is Some,
    ensures
        (#[trigger] su_at(c, n)).1 == c,
{
    reveal(su_at);
}

pub broadcast proof fn ns_sticky(c: Cur, n: nat)
    requires
        c.err is Some,
    ensures
        (#[trigger] ns_at(c, n)).1 == c,
{
    reveal(ns_at);
}

proof fn lemma_subexp_sticky(c: Cur, i: nat, mk: nat, num_syms: nat)
    requires
        c.err is Some,
    ensures
        subexp_at(c, i, mk, num_syms).1 == c,
{
    broadcast use ns_sticky;

}

pub broadcast proof fn global_param_sticky(c: Cur, gm_type: u8, hp: bool, idx: int)
    requires
        c.err is Some,
    ensures
        (#[trigger] global_param_at(c, gm_type, hp, idx)) == c,
{
    reveal(global_param_at);
    lemma_subexp_sticky(c, 0, 0, 2 * pow2(global_param_bits(gm_type, hp, idx)) + 1);
}

pub broadcast proof fn global_motion_sticky(c: Cur, hp: bool)
    requires
        c.err is Some,
    ensures
        (#[trigger] global_motion_at(c, hp)) == c,
{
    reveal(global_motion_at);
}

pub broadcast proof fn global_motions_sticky(c: Cur, hp: bool)
    requires
        c.err is Some,
    ensures
        (#[trigger] global_motions_at(c, hp)) == c,
{
    broadcast use global_motion_sticky;

    reveal(global_motions_at);
    bitio::lemma_times_fail(c, 0, REFS_PER_FRAME as nat, |c: Cur| global_motion_at(c, hp));
}

/// su(n): sign bit + magnitude, n bits total.
pub(crate) fn su(r: &mut BitReader, n: usize) -> (res: Result<i64, Error>)
    requires
        1 <= n <= 63,
    ensures
        bitio::reads(final(r)@, res, su_at(old(r)@, n as nat)),
        res matches Ok(v) ==> -pow2((n - 1) as nat) < v < pow2((n - 1) as nat),
{
    broadcast use bitio::lemma_reader_ok;

    proof {
        reveal(su_at);
    }
    let sign = r.flag()?;
    let ghost c = r@;
    let magnitude = r.f(n - 1)?;
    proof {
        bitio::f_consumes(c, (n - 1) as nat);
        bitio::lemma_pow2_monotone((n - 1) as nat, 62);
        lemma2_to64_rest();
    }
    let magnitude = magnitude as i64;
    Ok(
        if sign {
            -magnitude
        } else {
            magnitude
        },
    )
}

/// ns(n): near-uniform code; w-1 or w bits depending on the prefix value.
pub(crate) fn ns(r: &mut BitReader, n: u64) -> (res: Result<u64, Error>)
    requires
        n < pow2(62),
    ensures
        match res {
            Ok(v) => bitio::reads(final(r)@, Ok::<nat, Error>(v as nat), ns_at(old(r)@, n as nat))
                && v < n,
            Err(e) => ns_at(old(r)@, n as nat).1.err == Some(e),
        },
{
    broadcast use bitio::lemma_reader_ok;

    proof {
        reveal(ns_at);
    }
    if n == 0 {
        return Err(Error::NsZero);
    }
    proof {
        bitio::lemma_floor_log2_leading_zeros(n);
        vstd::std_specs::bits::axiom_u64_leading_zeros(n);
        bitio::lemma_floor_log2(n as nat);
    }
    let w: usize = 64 - n.leading_zeros() as usize;  // floor(log2(n)) + 1
    proof {
        let z = bitio::floor_log2(n as nat);
        assert(w == z + 1);
        if z >= 62 {
            bitio::lemma_pow2_monotone(62, z);
        }
        lemma2_to64_rest();
        bitio::lemma_pow2_monotone(w as nat, 62);
        bitio::lemma_one_shl(w as u64);
        lemma_pow2_unfold(w as nat);
    }
    let m: u64 = (1u64 << w) - n;
    let ghost c = r@;
    let v = r.f(w - 1)?;
    proof {
        bitio::f_consumes(c, (w - 1) as nat);
    }
    if v < m {
        Ok(v)
    } else {
        let ghost c = r@;
        let extra = r.f(1)?;
        proof {
            bitio::f_consumes(c, 1);
            lemma2_to64();
        }
        Ok(v * 2 - m + extra)
    }
}

/// decode_subexp — consumes the spec's variable-length subexponential code.
fn decode_subexp(r: &mut BitReader, num_syms: u64) -> (res: Result<u64, Error>)
    requires
        num_syms <= 16384,
    ensures
        match res {
            Ok(v) => bitio::reads(
                final(r)@,
                Ok::<nat, Error>(v as nat),
                subexp_at(old(r)@, 0, 0, num_syms as nat),
            ),
            Err(e) => subexp_at(old(r)@, 0, 0, num_syms as nat).1.err == Some(e),
        },
{
    broadcast use bitio::lemma_reader_ok;

    let mut i: u64 = 0;
    let mut mk: u64 = 0;
    let ghost start = r@;
    proof {
        lemma2_to64();
        lemma2_to64_rest();
    }
    loop
        invariant
            num_syms <= 16384,
            mk <= num_syms,
            i <= 12,
            i > 0 ==> mk >= pow2((2 + i - 1) as nat),
            subexp_at(start, 0, 0, num_syms as nat) == subexp_at(
                r@,
                i as nat,
                mk as nat,
                num_syms as nat,
            ),
            start == old(r)@,
        decreases num_syms - mk,
    {
        let b2: u64 = if i != 0 {
            3 + i - 1
        } else {
            3
        };
        proof {
            assert(b2 == subexp_bits(i as nat));
            bitio::lemma_one_shl(b2);
            bitio::lemma_pow2_monotone(b2 as nat, 14);
            lemma2_to64();
            lemma2_to64_rest();
            bitio::lemma_pow2_monotone(1, b2 as nat);
        }
        let a: u64 = 1u64 << b2;
        if num_syms <= mk + 3 * a {
            let n: u64 = if num_syms > mk {
                num_syms - mk
            } else {
                1
            };
            let v = ns(r, n)?;
            return Ok(v + mk);
        }
        if r.flag()? {
            i = i + 1;
            mk = mk + a;
            proof {
                if i > 12 {
                    assert(b2 == 14);
                    assert(pow2(14) == 16384);
                }
            }
        } else {
            let ghost c = r@;
            let v = r.f(b2 as usize)?;
            proof {
                bitio::f_consumes(c, b2 as nat);
            }
            return Ok(v + mk);
        }
    }
}

/// gm type indices (only ordering matters: 0=IDENTITY 1=TRANSLATION
/// 2=ROTZOOM 3=AFFINE).
fn read_global_param(
    r: &mut BitReader,
    gm_type: u8,
    allow_high_precision_mv: bool,
    idx: usize,
) -> (res: Result<(), Error>)
    ensures
        bitio::skips(
            final(r)@,
            res,
            global_param_at(old(r)@, gm_type, allow_high_precision_mv, idx as int),
        ),
{
    proof {
        reveal(global_param_at);
    }
    let mut abs_bits: u32 = GM_ABS_ALPHA_BITS;
    if idx < 2 {
        if gm_type == 1 {
            abs_bits = if allow_high_precision_mv {
                GM_ABS_TRANS_ONLY_BITS
            } else {
                GM_ABS_TRANS_ONLY_BITS - 1
            };
        } else {
            abs_bits = GM_ABS_TRANS_BITS;
        }
    }
    proof {
        bitio::lemma_one_shl(abs_bits as u64);
        bitio::lemma_pow2_monotone(abs_bits as nat, 12);
        lemma2_to64();
    }
    let mx: u64 = 1u64 << (abs_bits as u64);
    // decode_signed_subexp_with_ref(-mx, mx+1, r): numSyms = 2mx + 1; the
    // reference value only picks the recenter direction — the consumed bit
    // count comes entirely from decode_subexp.
    decode_subexp(r, 2 * mx + 1)?;
    Ok(())
}

fn gm_type(r: &mut BitReader) -> (res: Result<u8, Error>)
    ensures
        bitio::reads(final(r)@, res, gm_type_at(old(r)@)),
{
    if !r.flag()? {
        Ok(0)  // IDENTITY
    } else if r.flag()? {
        Ok(2)  // ROTZOOM
    } else if r.flag()? {
        Ok(1)  // TRANSLATION
    } else {
        Ok(3)  // AFFINE
    }
}

fn global_motion(r: &mut BitReader, hp: bool) -> (res: Result<(), Error>)
    ensures
        bitio::skips(final(r)@, res, global_motion_at(old(r)@, hp)),
{
    broadcast use {bitio::lemma_reader_ok, global_param_sticky};

    proof {
        reveal(global_motion_at);
    }
    let gm_type = gm_type(r)?;
    if gm_type >= 2 {
        read_global_param(r, gm_type, hp, 2)?;
        read_global_param(r, gm_type, hp, 3)?;
        if gm_type == 3 {
            read_global_param(r, gm_type, hp, 4)?;
            read_global_param(r, gm_type, hp, 5)?;
        }
    }
    if gm_type >= 1 {
        read_global_param(r, gm_type, hp, 0)?;
        read_global_param(r, gm_type, hp, 1)?;
    }
    Ok(())
}

pub(crate) fn global_motion_params(r: &mut BitReader, hp: bool) -> (res: Result<(), Error>)
    ensures
        bitio::skips(final(r)@, res, global_motions_at(old(r)@, hp)),
{
    broadcast use {bitio::lemma_reader_ok, global_motion_sticky};

    proof {
        reveal(global_motions_at);
    }
    let ghost start = r@;
    let ghost step = |c: Cur| global_motion_at(c, hp);
    assert(bitio::sticky(step));
    let mut i: usize = 0;
    while i < REFS_PER_FRAME
        invariant
            bitio::sticky(step),
            i <= REFS_PER_FRAME,
            start == old(r)@,
            step == (|c: Cur| global_motion_at(c, hp)),
            r@ == bitio::times(start, i as nat, step),
            global_motions_at(start, hp) == bitio::times(start, REFS_PER_FRAME as nat, step),
        decreases REFS_PER_FRAME - i,
    {
        proof {
            if bitio::times(start, (i + 1) as nat, step).err is Some {
                bitio::lemma_times_fail(start, (i + 1) as nat, REFS_PER_FRAME as nat, step);
            }
        }
        global_motion(r, hp)?;
        i = i + 1;
    }
    Ok(())
}

} // verus!
