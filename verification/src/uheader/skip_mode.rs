//! Skip mode part of the uncompressed header.

use vstd::prelude::*;
use vstd::arithmetic::power2::*;

use crate::bitio::{self, BitReader, Cur};
use crate::error::Error;
use crate::uheader::picture::refs_fit;
use crate::uheader::{Dpb, RefSlot};

verus! {

/// get_relative_dist(): `a - b` as a signed number of `bits` bits.
pub open spec fn relative_dist(a: u64, b: u64, bits: nat) -> int {
    let d = (a - b) % pow2(bits) as int;
    if d >= pow2((bits - 1) as nat) {
        d - pow2(bits)
    } else {
        d
    }
}

/// The order hints of the references.
pub open spec fn ref_hints(slots: Seq<RefSlot>, refs: Seq<u8>) -> Seq<u64> {
    Seq::new(refs.len(), |i: int| slots[refs[i] as int].order_hint)
}

/// The forward reference picked so far: the hints before `cur`, each taken over
/// the one picked before it where it is closer.
pub open spec fn forward_hint(hints: Seq<u64>, cur: u64, bits: nat) -> Option<u64>
    decreases hints.len(),
{
    if hints.len() == 0 {
        None
    } else {
        let picked = forward_hint(hints.drop_last(), cur, bits);
        let hint = hints.last();
        if relative_dist(hint, cur, bits) < 0 && (picked matches Some(fh) ==> relative_dist(
            hint,
            fh,
            bits,
        ) > 0) {
            Some(hint)
        } else {
            picked
        }
    }
}

/// skipModeAllowed: there is a forward reference, and a backward one or a
/// second one before it.
pub open spec fn skip_mode_allowed(hints: Seq<u64>, cur: u64, bits: nat) -> bool {
    match forward_hint(hints, cur, bits) {
        None => false,
        Some(fh) => {
            ||| exists|i: int| 0 <= i < hints.len() && relative_dist(#[trigger] hints[i], cur, bits) > 0
            ||| exists|i: int| 0 <= i < hints.len() && relative_dist(#[trigger] hints[i], fh, bits) < 0
        },
    }
}

/// skip_mode_params() of a frame with compound references.
pub open spec fn skip_mode_at(c: Cur, hints: Seq<u64>, cur: u64, bits: nat) -> Cur {
    if skip_mode_allowed(hints, cur, bits) {
        c.flag().1
    } else {
        c
    }
}

fn get_relative_dist(a: u64, b: u64, bits: usize) -> (d: i64)
    requires
        1 <= bits <= 63,
    ensures
        d == relative_dist(a, b, bits as nat),
{
    proof {
        bitio::lemma_one_shl((bits - 1) as u64);
        bitio::lemma_pow2_monotone((bits - 1) as nat, 62);
        lemma2_to64_rest();
        lemma_pow2_unfold(bits as nat);
        lemma_pow2_pos((bits - 1) as nat);
    }
    let m: u64 = 1u64 << (bits - 1);
    let all: u64 = 2 * m;
    let d: u64 = if a >= b {
        (a - b) % all
    } else {
        let back: u64 = (b - a) % all;
        proof {
            lemma_mod_negated((b - a) as int, all as int);
        }
        if back == 0 {
            0
        } else {
            all - back
        }
    };
    if d >= m {
        -((all - d) as i64)
    } else {
        d as i64
    }
}

proof fn lemma_mod_negated(x: int, n: int)
    requires
        x >= 0,
        n > 0,
    ensures
        (-x) % n == if x % n == 0 {
            0
        } else {
            n - x % n
        },
{
    let q = x / n;
    let k = x % n;
    vstd::arithmetic::div_mod::lemma_fundamental_div_mod(x, n);
    if k == 0 {
        assert(-x == n * (-q) + 0) by (nonlinear_arith)
            requires
                x == n * q + k,
                k == 0,
        ;
        vstd::arithmetic::div_mod::lemma_fundamental_div_mod_converse(-x, n, -q, 0);
    } else {
        assert(-x == n * (-q - 1) + (n - k)) by (nonlinear_arith)
            requires
                x == n * q + k,
        ;
        vstd::arithmetic::div_mod::lemma_fundamental_div_mod_converse(-x, n, -q - 1, n - k);
    }
}

/// The order hints of the references.
fn hints_of(dpb: &Dpb, refs: &Vec<u8>) -> (r: Vec<u64>)
    requires
        crate::uheader::slots_wf(dpb@),
        refs_fit(refs@),
    ensures
        r@ == ref_hints(dpb@, refs@),
{
    let mut out: Vec<u64> = Vec::new();
    while out.len() < refs.len()
        invariant
            out@.len() <= refs@.len(),
            crate::uheader::slots_wf(dpb@),
            refs_fit(refs@),
            forall|i: int|
                0 <= i < out@.len() ==> out@[i] == dpb@[refs@[i] as int].order_hint,
        decreases refs@.len() - out@.len(),
    {
        let idx = refs[out.len()] as usize;
        out.push(dpb.slots[idx].order_hint);
    }
    assert(out@ =~= ref_hints(dpb@, refs@));
    out
}

fn allowed(hints: &Vec<u64>, cur: u64, bits: usize) -> (r: bool)
    requires
        1 <= bits <= 63,
    ensures
        r == skip_mode_allowed(hints@, cur, bits as nat),
{
    let mut forward: Option<u64> = None;
    let mut backward = false;
    let mut i: usize = 0;
    assert(hints@.take(0) =~= Seq::empty());
    while i < hints.len()
        invariant
            i <= hints@.len(),
            1 <= bits <= 63,
            forward == forward_hint(hints@.take(i as int), cur, bits as nat),
            backward == exists|j: int|
                0 <= j < i && relative_dist(#[trigger] hints@[j], cur, bits as nat) > 0,
        decreases hints@.len() - i,
    {
        let hint = hints[i];
        let d = get_relative_dist(hint, cur, bits);
        assert(hints@.take(i + 1).drop_last() =~= hints@.take(i as int));
        if d < 0 {
            let closer = match forward {
                None => true,
                Some(fh) => get_relative_dist(hint, fh, bits) > 0,
            };
            if closer {
                forward = Some(hint);
            }
        } else if d > 0 {
            backward = true;
        }
        assert(backward == exists|j: int|
            0 <= j < i + 1 && relative_dist(#[trigger] hints@[j], cur, bits as nat) > 0) by {
            if d > 0 {
                assert(relative_dist(hints@[i as int], cur, bits as nat) > 0);
            }
        }
        i = i + 1;
    }
    assert(hints@.take(i as int) =~= hints@);
    match forward {
        None => false,
        Some(fh) => {
            if backward {
                return true;
            }
            let mut k: usize = 0;
            while k < hints.len()
                invariant
                    k <= hints@.len(),
                    1 <= bits <= 63,
                    forall|j: int|
                        0 <= j < k ==> relative_dist(#[trigger] hints@[j], fh, bits as nat) >= 0,
                    forward_hint(hints@, cur, bits as nat) == Some(fh),
                decreases hints@.len() - k,
            {
                if get_relative_dist(hints[k], fh, bits) < 0 {
                    assert(relative_dist(hints@[k as int], fh, bits as nat) < 0);
                    return true;
                }
                k = k + 1;
            }
            false
        },
    }
}

pub(crate) fn skip_mode_params(
    r: &mut BitReader,
    dpb: &Dpb,
    refs: &Vec<u8>,
    order_hint: u64,
    bits: usize,
) -> (res: Result<(), Error>)
    requires
        crate::uheader::slots_wf(dpb@),
        refs_fit(refs@),
        1 <= bits <= 63,
    ensures
        bitio::skips(
            final(r)@,
            res,
            skip_mode_at(old(r)@, ref_hints(dpb@, refs@), order_hint, bits as nat),
        ),
{
    proof {
        bitio::lemma_reader_ok(*r);
    }
    let hints = hints_of(dpb, refs);
    if allowed(&hints, order_hint, bits) {
        r.flag()?;  // skip_mode_present
    }
    Ok(())
}

} // verus!
