//! The loop filter, the directional enhancement and the restoration fields.

use vstd::arithmetic::power2::*;
use vstd::prelude::*;

use crate::bitio::{self, Cur};
use crate::fields::{flag, Field};
use crate::seq_header::SequenceHeader;
use crate::uheader::filters;
use crate::uheader::writer::{self, behind, fits};

verus! {

/// The deblocking filter: a level for the vertical and one for the horizontal
/// luma edges, one for each chroma plane, the sharpness, and what the levels
/// change by for the eight reference frames and the two prediction modes.
pub struct LoopFilter {
    pub level: (nat, nat),
    pub level_u: nat,
    pub level_v: nat,
    pub sharpness: nat,
    pub delta_enabled: bool,
    pub delta_update: bool,
    pub deltas: Seq<Option<int>>,
}

impl LoopFilter {
    pub open spec fn valid(self) -> bool {
        &&& self.level.0 < 64 && self.level.1 < 64 && self.level_u < 64 && self.level_v < 64
        &&& self.sharpness < 8
        &&& self.deltas.len() == 10
        &&& forall|i: int|
            0 <= i < 10 ==> ((#[trigger] self.deltas[i]) matches Some(v) ==> -64 < v < 64)
    }
}

/// A change, where there is one.
pub open spec fn change(t: Seq<Field>, v: Option<int>) -> Seq<Field> {
    match v {
        None => t.push(flag(false)),
        Some(v) => writer::su(t.push(flag(true)), 7, v),
    }
}

/// The first `n` changes.
pub open spec fn changes(t: Seq<Field>, list: Seq<Option<int>>, n: nat) -> Seq<Field>
    decreases n,
{
    if n == 0 {
        t
    } else {
        change(changes(t, list, (n - 1) as nat), list[n - 1])
    }
}

/// The fields of the deblocking filter: the chroma levels are there where there
/// is chroma and some luma edges are filtered.
pub open spec fn loop_filter(t: Seq<Field>, mono: bool, z: LoopFilter) -> Seq<Field> {
    let t = t.push((6, z.level.0)).push((6, z.level.1));
    let t = if !mono && (z.level.0 > 0 || z.level.1 > 0) {
        t.push((6, z.level_u)).push((6, z.level_v))
    } else {
        t
    };
    let t = t.push((3, z.sharpness)).push(flag(z.delta_enabled));
    if !z.delta_enabled {
        t
    } else {
        let t = t.push(flag(z.delta_update));
        if z.delta_update {
            changes(t, z.deltas, 10)
        } else {
            t
        }
    }
}

proof fn lemma_change(bits: Seq<bool>, t: Seq<Field>, v: Option<int>)
    requires
        fits(bits, change(t, v)),
        v matches Some(x) ==> -64 < x < 64,
    ensures
        fits(bits, t),
        filters::lf_delta_at(behind(bits, t)) == behind(bits, change(t, v)),
{
    broadcast use writer::group_reads;

    lemma2_to64();
    if let Some(x) = v {
        writer::lemma_su(bits, t.push(flag(true)), 7, x);
    }
}

proof fn lemma_changes(bits: Seq<bool>, t: Seq<Field>, list: Seq<Option<int>>, n: nat)
    requires
        fits(bits, changes(t, list, n)),
        n <= list.len(),
        forall|i: int|
            0 <= i < list.len() ==> ((#[trigger] list[i]) matches Some(v) ==> -64 < v < 64),
    ensures
        fits(bits, t),
        bitio::times(behind(bits, t), n, |c: Cur| filters::lf_delta_at(c)) == behind(
            bits,
            changes(t, list, n),
        ),
    decreases n,
{
    if n > 0 {
        lemma_change(bits, changes(t, list, (n - 1) as nat), list[n - 1]);
        lemma_changes(bits, t, list, (n - 1) as nat);
    }
}

pub proof fn lemma_loop_filter(bits: Seq<bool>, t: Seq<Field>, mono: bool, z: LoopFilter)
    requires
        fits(bits, loop_filter(t, mono, z)),
        z.valid(),
    ensures
        fits(bits, t),
        filters::loop_filter_at(behind(bits, t), mono, false) == behind(
            bits,
            loop_filter(t, mono, z),
        ),
{
    broadcast use writer::group_reads;

    reveal(filters::levels_at);
    reveal(filters::loop_filter_at);
    lemma2_to64();
    let t1 = t.push((6, z.level.0)).push((6, z.level.1));
    let t2 = if !mono && (z.level.0 > 0 || z.level.1 > 0) {
        t1.push((6, z.level_u)).push((6, z.level_v))
    } else {
        t1
    };
    let t3 = t2.push((3, z.sharpness)).push(flag(z.delta_enabled));
    let t4 = t3.push(flag(z.delta_update));
    if z.delta_enabled && z.delta_update {
        lemma_changes(bits, t4, z.deltas, 10);
    }
    assert(fits(bits, t3));
    assert(fits(bits, t1));
}

/// The directional enhancement filter: its damping and the strengths to choose
/// from, two for luma and two for chroma each.
pub struct Cdef {
    pub damping_minus_3: nat,
    pub choice_bits: nat,
    pub strengths: Seq<(nat, nat, nat, nat)>,
}

impl Cdef {
    pub open spec fn valid(self) -> bool {
        &&& self.damping_minus_3 < 4
        &&& self.choice_bits < 4
        &&& self.strengths.len() == pow2(self.choice_bits)
        &&& forall|i: int|
            0 <= i < self.strengths.len() ==> {
                let s = #[trigger] self.strengths[i];
                s.0 < 16 && s.1 < 4 && s.2 < 16 && s.3 < 4
            }
    }
}

/// One pair of strengths for luma and one for chroma, where there is chroma.
pub open spec fn strength(t: Seq<Field>, mono: bool, s: (nat, nat, nat, nat)) -> Seq<Field> {
    let t = t.push((4, s.0)).push((2, s.1));
    if mono {
        t
    } else {
        t.push((4, s.2)).push((2, s.3))
    }
}

/// The first `n` strengths.
pub open spec fn strengths(
    t: Seq<Field>,
    mono: bool,
    list: Seq<(nat, nat, nat, nat)>,
    n: nat,
) -> Seq<Field>
    decreases n,
{
    if n == 0 {
        t
    } else {
        strength(strengths(t, mono, list, (n - 1) as nat), mono, list[n - 1])
    }
}

/// The fields of the directional enhancement filter.
pub open spec fn cdef(t: Seq<Field>, mono: bool, z: Cdef) -> Seq<Field> {
    strengths(
        t.push((2, z.damping_minus_3)).push((2, z.choice_bits)),
        mono,
        z.strengths,
        z.strengths.len(),
    )
}

proof fn lemma_strengths(
    bits: Seq<bool>,
    t: Seq<Field>,
    mono: bool,
    list: Seq<(nat, nat, nat, nat)>,
    n: nat,
)
    requires
        fits(bits, strengths(t, mono, list, n)),
        n <= list.len(),
        forall|i: int|
            0 <= i < list.len() ==> {
                let s = #[trigger] list[i];
                s.0 < 16 && s.1 < 4 && s.2 < 16 && s.3 < 4
            },
    ensures
        fits(bits, t),
        bitio::times(behind(bits, t), n, |c: Cur| filters::cdef_strength_at(c, mono)) == behind(
            bits,
            strengths(t, mono, list, n),
        ),
    decreases n,
{
    if n > 0 {
        broadcast use writer::group_reads;

        lemma2_to64();
        let u = strengths(t, mono, list, (n - 1) as nat);
        let s = list[n - 1];
        assert(fits(bits, strength(u, mono, s)));
        assert(filters::cdef_strength_at(behind(bits, u), mono) == behind(
            bits,
            strength(u, mono, s),
        ));
        lemma_strengths(bits, t, mono, list, (n - 1) as nat);
    }
}

pub proof fn lemma_cdef(bits: Seq<bool>, t: Seq<Field>, mono: bool, z: Cdef)
    requires
        fits(bits, cdef(t, mono, z)),
        z.valid(),
    ensures
        fits(bits, t),
        filters::cdef_at(behind(bits, t), mono, false) == behind(bits, cdef(t, mono, z)),
{
    broadcast use writer::group_reads;

    reveal(filters::cdef_at);
    lemma2_to64();
    let t1 = t.push((2, z.damping_minus_3)).push((2, z.choice_bits));
    lemma_strengths(bits, t1, mono, z.strengths, z.strengths.len());
    assert(fits(bits, t1));
}

/// Loop restoration: a type for each plane and the sizes of its units.
pub struct Restoration {
    pub luma: nat,
    pub chroma: (nat, nat),
    pub unit_shift: bool,
    pub extra_shift: bool,
    pub chroma_shift: bool,
}

impl Restoration {
    pub open spec fn valid(self) -> bool {
        self.luma < 4 && self.chroma.0 < 4 && self.chroma.1 < 4
    }
}

/// The fields of loop restoration: unit sizes are there where a plane is
/// restored, a second bit of them where superblocks are small, and that of
/// chroma where it is subsampled both ways and restored.
pub open spec fn restoration(t: Seq<Field>, r: SequenceHeader, z: Restoration) -> Seq<Field> {
    let t = t.push((2, z.luma));
    let t = if r.mono_chrome {
        t
    } else {
        t.push((2, z.chroma.0)).push((2, z.chroma.1))
    };
    let chroma = !r.mono_chrome && (z.chroma.0 > 0 || z.chroma.1 > 0);
    if z.luma == 0 && !chroma {
        t
    } else {
        let t = t.push(flag(z.unit_shift));
        let t = if z.unit_shift && !r.use_128x128_superblock {
            t.push(flag(z.extra_shift))
        } else {
            t
        };
        if chroma && r.subsample_x && r.subsample_y {
            t.push(flag(z.chroma_shift))
        } else {
            t
        }
    }
}

pub proof fn lemma_restoration(bits: Seq<bool>, t: Seq<Field>, r: SequenceHeader, z: Restoration)
    requires
        fits(bits, restoration(t, r, z)),
        z.valid(),
    ensures
        fits(bits, t),
        filters::restoration_at(behind(bits, t), r@, false) == behind(bits, restoration(t, r, z)),
{
    broadcast use writer::group_reads;

    reveal(filters::restoration_at);
    reveal(filters::lr_types_at);
    lemma2_to64();
    let t1 = t.push((2, z.luma));
    let t2 = if r.mono_chrome {
        t1
    } else {
        t1.push((2, z.chroma.0)).push((2, z.chroma.1))
    };
    let chroma = !r.mono_chrome && (z.chroma.0 > 0 || z.chroma.1 > 0);
    if z.luma > 0 || chroma {
        let t3 = t2.push(flag(z.unit_shift));
        let t4 = if z.unit_shift && !r.use_128x128_superblock {
            t3.push(flag(z.extra_shift))
        } else {
            t3
        };
        assert(fits(bits, t4));
        assert(fits(bits, t3));
    }
    assert(fits(bits, t2));
    assert(fits(bits, t1));
}

} // verus!
