//! A writer of uncompressed headers, field by field, and what the walk makes of
//! what it writes.

use vstd::arithmetic::power2::*;
use vstd::prelude::*;

use crate::bitio::{self, Cur};
use crate::fields::{self, flag, spelled, width, Field};
use crate::uheader::codes;

pub mod filters;
pub mod frame;
pub mod motion;
pub mod picture;
pub mod quant;
pub mod skip_mode;
pub mod tiles;
pub mod walk;

verus! {

/// Whether the bits start with the fields.
pub open spec fn fits(bits: Seq<bool>, t: Seq<Field>) -> bool {
    bits.len() <= usize::MAX && bitio::starts(bits, spelled(t))
}

/// The cursor behind the fields.
pub open spec fn behind(bits: Seq<bool>, t: Seq<Field>) -> Cur {
    Cur { bits, pos: width(t), err: None }
}

proof fn lemma_behind(bits: Seq<bool>, t: Seq<Field>)
    requires
        fits(bits, t),
    ensures
        behind(bits, t).seen() == spelled(t),
        width(t) <= bits.len(),
{
    fields::lemma_width(t);
}

/// A field reads back.
pub broadcast proof fn lemma_field(bits: Seq<bool>, t: Seq<Field>, n: nat, v: nat)
    requires
        #[trigger] fits(bits, t.push((n, v))),
        v < pow2(n),
        n <= 64,
    ensures
        fits(bits, t),
        behind(bits, t).f(n) == (v as u64, behind(bits, t.push((n, v)))),
        v <= u64::MAX,
{
    let u = t.push((n, v));
    assert(u.drop_last() =~= t);
    fields::lemma_spelled_push(t, (n, v));
    bitio::lemma_starts_append(bits, spelled(t), bitio::be_bits(n, v));
    lemma_behind(bits, t);
    bitio::lemma_pow2_monotone(n, 64);
    lemma2_to64_rest();
    bitio::f_reads_back(behind(bits, t), n, v as u64);
}

/// A flag reads back.
pub broadcast proof fn lemma_flag(bits: Seq<bool>, t: Seq<Field>, b: bool)
    requires
        #[trigger] fits(bits, t.push(flag(b))),
    ensures
        fits(bits, t),
        behind(bits, t).flag() == (b, behind(bits, t.push(flag(b)))),
{
    lemma2_to64();
    lemma_field(bits, t, 1, flag(b).1);
}

/// How what was written reads back.
pub broadcast group group_reads {
    lemma_field,
    lemma_flag,
}

// ---------- codes ----------

/// A sign and a magnitude, of `n` bits together.
pub open spec fn su(t: Seq<Field>, n: nat, v: int) -> Seq<Field> {
    t.push(flag(v < 0)).push(
        (
            (n - 1) as nat,
            if v < 0 {
                -v as nat
            } else {
                v as nat
            },
        ),
    )
}

pub proof fn lemma_su(bits: Seq<bool>, t: Seq<Field>, n: nat, v: int)
    requires
        fits(bits, su(t, n, v)),
        1 <= n <= 32,
        -pow2((n - 1) as nat) < v < pow2((n - 1) as nat),
    ensures
        fits(bits, t),
        codes::su_at(behind(bits, t), n) == (v as i64, behind(bits, su(t, n, v))),
        -0x8000_0000 <= v <= 0x8000_0000,
{
    broadcast use group_reads;

    reveal(codes::su_at);
    bitio::lemma_pow2_monotone((n - 1) as nat, 31);
    lemma2_to64();
}

/// A number below `n`: the smaller ones take a bit less than the larger.
pub open spec fn ns(t: Seq<Field>, n: nat, v: nat) -> Seq<Field> {
    let w = fields::exponent(n) + 1;
    let m = (pow2(w) - n) as nat;
    if v < m {
        t.push(((w - 1) as nat, v))
    } else {
        t.push(((w - 1) as nat, (v + m) / 2)).push((1, (v + m) % 2))
    }
}

pub proof fn lemma_ns(bits: Seq<bool>, t: Seq<Field>, n: nat, v: nat)
    requires
        fits(bits, ns(t, n, v)),
        v < n <= 0x4000_0000,
    ensures
        fits(bits, t),
        codes::ns_at(behind(bits, t), n) == (v, behind(bits, ns(t, n, v))),
{
    broadcast use group_reads;

    reveal(codes::ns_at);
    fields::lemma_exponent(n);
    bitio::lemma_floor_log2(n);
    let w = fields::exponent(n) + 1;
    lemma2_to64();
    if w > 31 {
        bitio::lemma_pow2_monotone(31, (w - 1) as nat);
    }
    lemma_pow2_unfold(w);
    let m = (pow2(w) - n) as nat;
    assert(m <= pow2((w - 1) as nat));
    if v < m {
        assert(behind(bits, t).f((w - 1) as nat).0 == v);
    } else {
        let x = (v + m) / 2;
        assert(x < pow2((w - 1) as nat));
        assert(x >= m);
        assert(behind(bits, t).f((w - 1) as nat).0 == x);
        assert(2 * x - m + (v + m) % 2 == v);
    }
}

} // verus!
