//! The global motion fields.

use vstd::arithmetic::power2::*;
use vstd::prelude::*;

use crate::bitio::{self, Cur};
use crate::fields::{flag, Field};
use crate::uheader::codes;
use crate::uheader::writer::{self, behind, fits};

verus! {

/// A number below `syms` in a code that grows: after `i` escapes, which passed
/// over the first `mk` numbers, the next eight, eight, sixteen and so on take
/// as many bits as they need, and the last ones share what is left.
pub open spec fn subexp(t: Seq<Field>, i: nat, mk: nat, syms: nat, v: nat) -> Seq<Field>
    decreases syms - mk,
{
    let n = if i == 0 {
        3
    } else {
        i + 2
    };
    let a = pow2(n);
    if syms <= mk + 3 * a {
        writer::ns(t, (syms - mk) as nat, (v - mk) as nat)
    } else if v < mk + a {
        t.push(flag(false)).push((n, (v - mk) as nat))
    } else {
        proof {
            lemma_pow2_pos(n);
        }
        subexp(t.push(flag(true)), i + 1, mk + a, syms, v)
    }
}

proof fn lemma_subexp(bits: Seq<bool>, t: Seq<Field>, i: nat, mk: nat, syms: nat, v: nat)
    requires
        fits(bits, subexp(t, i, mk, syms, v)),
        mk <= v < syms <= 0x1_0000,
        i <= 14,
        mk < pow2(i + 3),
        i > 0 ==> mk >= pow2(i + 2),
    ensures
        fits(bits, t),
        codes::subexp_at(behind(bits, t), i, mk, syms).1 == behind(
            bits,
            subexp(t, i, mk, syms, v),
        ),
    decreases syms - mk,
{
    broadcast use writer::group_reads;

    let n = if i == 0 {
        3
    } else {
        (i + 2) as nat
    };
    let a = pow2(n);
    lemma_pow2_pos(n);
    assert(codes::subexp_bits(i) == n);
    if syms <= mk + 3 * a {
        writer::lemma_ns(bits, t, (syms - mk) as nat, (v - mk) as nat);
    } else if v < mk + a {
        bitio::lemma_pow2_monotone(n, 16);
        lemma2_to64();
    } else {
        lemma_pow2_unfold(i + 3);
        lemma_pow2_unfold((i + 4) as nat);
        lemma2_to64();
        if i == 14 {
            assert(mk + a >= 0x1_0000);
        }
        lemma_subexp(bits, t.push(flag(true)), i + 1, mk + a, syms, v);
    }
}

/// The motion of the whole frame against one reference: 0 for none, 1 for a
/// translation, 2 with rotation and zoom, 3 for any affine one; and the
/// parameters, each as a number that starts at the most negative.
pub struct Motion {
    pub model: nat,
    pub params: Seq<nat>,
}

/// How many bits the largest magnitude of parameter `i` has: a translation
/// alone is told more coarsely, and more so without high precision vectors.
pub open spec fn magnitude(model: nat, hp: bool, i: int) -> nat {
    if i < 2 && model == 1 {
        if hp {
            9
        } else {
            8
        }
    } else {
        12
    }
}

/// How many values parameter `i` can have: none, and each magnitude with
/// either sign.
pub open spec fn values(model: nat, hp: bool, i: int) -> nat {
    2 * pow2(magnitude(model, hp, i)) + 1
}

impl Motion {
    pub open spec fn valid(self, hp: bool) -> bool {
        &&& self.model < 4
        &&& self.params.len() == 6
        &&& forall|i: int|
            0 <= i < 6 ==> (#[trigger] self.params[i]) < values(self.model, hp, i)
    }
}

/// Parameter `i`.
pub open spec fn param(t: Seq<Field>, hp: bool, z: Motion, i: int) -> Seq<Field> {
    subexp(t, 0, 0, values(z.model, hp, i), z.params[i])
}

/// The fields of one motion: its model, the matrix and then the translation.
pub open spec fn motion(t: Seq<Field>, hp: bool, z: Motion) -> Seq<Field> {
    let t = t.push(flag(z.model > 0));
    if z.model == 0 {
        t
    } else {
        let t = t.push(flag(z.model == 2));
        let t = if z.model == 2 {
            t
        } else {
            t.push(flag(z.model == 1))
        };
        let t = if z.model >= 2 {
            param(param(t, hp, z, 2), hp, z, 3)
        } else {
            t
        };
        let t = if z.model == 3 {
            param(param(t, hp, z, 4), hp, z, 5)
        } else {
            t
        };
        param(param(t, hp, z, 0), hp, z, 1)
    }
}

/// The first `n` motions.
pub open spec fn motions(t: Seq<Field>, hp: bool, list: Seq<Motion>, n: nat) -> Seq<Field>
    decreases n,
{
    if n == 0 {
        t
    } else {
        motion(motions(t, hp, list, (n - 1) as nat), hp, list[n - 1])
    }
}

proof fn lemma_param(bits: Seq<bool>, t: Seq<Field>, hp: bool, z: Motion, i: int)
    requires
        fits(bits, param(t, hp, z, i)),
        z.valid(hp),
        z.model > 0,
        0 <= i < 6,
    ensures
        fits(bits, t),
        codes::global_param_at(behind(bits, t), z.model as u8, hp, i) == behind(
            bits,
            param(t, hp, z, i),
        ),
{
    reveal(codes::global_param_at);
    lemma2_to64();
    assert(codes::global_param_bits(z.model as u8, hp, i) == magnitude(z.model, hp, i));
    lemma_subexp(bits, t, 0, 0, values(z.model, hp, i), z.params[i]);
}

proof fn lemma_motion(bits: Seq<bool>, t: Seq<Field>, hp: bool, z: Motion)
    requires
        fits(bits, motion(t, hp, z)),
        z.valid(hp),
    ensures
        fits(bits, t),
        codes::global_motion_at(behind(bits, t), hp) == behind(bits, motion(t, hp, z)),
{
    broadcast use writer::group_reads;

    reveal(codes::global_motion_at);
    let t0 = t.push(flag(z.model > 0));
    if z.model > 0 {
        let t1 = t0.push(flag(z.model == 2));
        let t2 = if z.model == 2 {
            t1
        } else {
            t1.push(flag(z.model == 1))
        };
        let t3 = param(t2, hp, z, 2);
        let t4 = param(t3, hp, z, 3);
        let t5 = if z.model >= 2 {
            t4
        } else {
            t2
        };
        let t6 = param(t5, hp, z, 4);
        let t7 = param(t6, hp, z, 5);
        let t8 = if z.model == 3 {
            t7
        } else {
            t5
        };
        let t9 = param(t8, hp, z, 0);
        lemma_param(bits, t9, hp, z, 1);
        lemma_param(bits, t8, hp, z, 0);
        if z.model == 3 {
            lemma_param(bits, t6, hp, z, 5);
            lemma_param(bits, t5, hp, z, 4);
        }
        if z.model >= 2 {
            lemma_param(bits, t3, hp, z, 3);
            lemma_param(bits, t2, hp, z, 2);
        }
        assert(fits(bits, t2));
        assert(fits(bits, t1));
        assert(codes::gm_type_at(behind(bits, t)) == (z.model as u8, behind(bits, t2)));
    }
    assert(fits(bits, t0));
}

proof fn lemma_motions_n(bits: Seq<bool>, t: Seq<Field>, hp: bool, list: Seq<Motion>, n: nat)
    requires
        fits(bits, motions(t, hp, list, n)),
        n <= list.len(),
        forall|i: int| 0 <= i < list.len() ==> (#[trigger] list[i]).valid(hp),
    ensures
        fits(bits, t),
        bitio::times(behind(bits, t), n, |c: Cur| codes::global_motion_at(c, hp)) == behind(
            bits,
            motions(t, hp, list, n),
        ),
    decreases n,
{
    if n > 0 {
        lemma_motion(bits, motions(t, hp, list, (n - 1) as nat), hp, list[n - 1]);
        lemma_motions_n(bits, t, hp, list, (n - 1) as nat);
    }
}

pub proof fn lemma_motions(bits: Seq<bool>, t: Seq<Field>, hp: bool, list: Seq<Motion>)
    requires
        fits(bits, motions(t, hp, list, 7)),
        list.len() == 7,
        forall|i: int| 0 <= i < list.len() ==> (#[trigger] list[i]).valid(hp),
    ensures
        fits(bits, t),
        codes::global_motions_at(behind(bits, t), hp) == behind(bits, motions(t, hp, list, 7)),
{
    reveal(codes::global_motions_at);
    lemma_motions_n(bits, t, hp, list, 7);
}

} // verus!
