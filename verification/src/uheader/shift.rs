//! Reading the same bits at another place.
//!
//! Every part of the header is read the same way wherever its bits stand, and
//! under every sequence header that declares the same tools and sizes. What is
//! read depends on nothing behind the end of the header.

use vstd::prelude::*;
use vstd::arithmetic::power2::*;

use crate::bitio::{self, Cur};
use crate::frame_header;
use crate::seq_header::Header;
use crate::uheader::codes::{self, REFS_PER_FRAME};
use crate::uheader::picture;
use crate::uheader::quant::{self, MAX_SEGMENTS, SEG_LVL_MAX};
use crate::uheader::tiles::{self, TileGrid};
use crate::uheader::{self, filters, skip_mode, Kind, Picture, RefSlot, NUM_REF_FRAMES};

verus! {

/// Two bit strings that agree, `k` bits apart: the bits of `a` from `from` to
/// `end` stand in `b` `k` bits later.
pub struct Shift {
    pub a: Seq<bool>,
    pub b: Seq<bool>,
    pub from: nat,
    pub end: nat,
    pub k: nat,
}

impl Shift {
    pub open spec fn agrees(self) -> bool {
        &&& self.end <= self.a.len()
        &&& self.end + self.k <= self.b.len()
        &&& self.end + self.k <= usize::MAX
        &&& forall|i: int| self.from <= i < self.end ==> #[trigger] self.a[i] == self.b[i + self.k]
    }

    /// Whether reading is still in front of the end.
    pub open spec fn live(self, c: Cur) -> bool {
        c.err is None && c.pos <= self.end
    }

    /// Whether both cursors stand at the same place.
    pub open spec fn in_step(self, c: Cur, d: Cur) -> bool {
        &&& self.agrees()
        &&& c.bits == self.a
        &&& d.bits == self.b
        &&& self.from <= c.pos
        &&& self.live(c)
        &&& d.err is None
        &&& d.pos == c.pos + self.k
    }
}

/// Whether `c1` can come from reading at `c`: it is not in front of it nor
/// behind the last bit, and a failure stays.
pub open spec fn steady(c: Cur, c1: Cur) -> bool {
    &&& c1.bits == c.bits
    &&& c1.pos >= c.pos
    &&& c.pos <= usize::MAX ==> c1.pos <= usize::MAX
    &&& c.pos <= c.bits.len() ==> c1.pos <= c.bits.len()
    &&& c.err is Some ==> c1.err is Some
}

/// Whether a sequence header declares the same tools and sizes.
pub open spec fn alike(x: Header, y: Header) -> bool {
    &&& x.reduced == y.reduced
    &&& x.size == y.size
    &&& x.ids == y.ids
    &&& x.tools == y.tools
    &&& x.depth == y.depth
    &&& x.chroma == y.chroma
    &&& x.film_grain == y.film_grain
}

// ---------- fields ----------

pub broadcast proof fn f_steady(c: Cur, n: nat)
    ensures
        steady(c, (#[trigger] c.f(n)).1),
{
}

pub broadcast proof fn f_in_step(s: Shift, c: Cur, d: Cur, n: nat)
    requires
        #[trigger] s.in_step(c, d),
        s.live((#[trigger] c.f(n)).1),
    ensures
        c.f(n).0 == d.f(n).0,
        s.in_step(c.f(n).1, d.f(n).1),
{
    assert(c.bits.subrange(c.pos as int, (c.pos + n) as int) =~= d.bits.subrange(
        d.pos as int,
        (d.pos + n) as int,
    ));
}

pub broadcast proof fn flag_steady(c: Cur)
    ensures
        steady(c, (#[trigger] c.flag()).1),
{
}

pub broadcast proof fn flag_in_step(s: Shift, c: Cur, d: Cur)
    requires
        #[trigger] s.in_step(c, d),
        s.live((#[trigger] c.flag()).1),
    ensures
        c.flag().0 == d.flag().0,
        s.in_step(c.flag().1, d.flag().1),
{
    f_in_step(s, c, d, 1);
}

pub broadcast group group_fields {
    f_steady,
    f_in_step,
    flag_steady,
    flag_in_step,
}

/// Whether a piece of syntax reads forward only.
pub open spec fn steadily(step: spec_fn(Cur) -> Cur) -> bool {
    forall|c: Cur| steady(c, #[trigger] step(c))
}

/// Whether a piece of syntax keeps both cursors at the same place.
pub open spec fn stepwise(s: Shift, step: spec_fn(Cur) -> Cur) -> bool {
    forall|c: Cur, d: Cur|
        #![trigger s.in_step(c, d), step(c)]
        s.in_step(c, d) && s.live(step(c)) ==> s.in_step(step(c), step(d))
}

pub proof fn lemma_times_steady(c: Cur, n: nat, step: spec_fn(Cur) -> Cur)
    requires
        steadily(step),
    ensures
        steady(c, bitio::times(c, n, step)),
    decreases n,
{
    if n > 0 {
        lemma_times_steady(c, (n - 1) as nat, step);
        assert(steady(bitio::times(c, (n - 1) as nat, step), bitio::times(c, n, step)));
    }
}

pub proof fn lemma_times_in_step(s: Shift, c: Cur, d: Cur, n: nat, step: spec_fn(Cur) -> Cur)
    requires
        s.in_step(c, d),
        steadily(step),
        stepwise(s, step),
        s.live(bitio::times(c, n, step)),
    ensures
        s.in_step(bitio::times(c, n, step), bitio::times(d, n, step)),
    decreases n,
{
    if n > 0 {
        let c1 = bitio::times(c, (n - 1) as nat, step);
        assert(steady(c1, step(c1)));
        lemma_times_in_step(s, c, d, (n - 1) as nat, step);
    }
}

// ---------- codes ----------

pub broadcast proof fn su_steady(c: Cur, n: nat)
    ensures
        steady(c, (#[trigger] codes::su_at(c, n)).1),
{
    broadcast use group_fields;

    reveal(codes::su_at);
}

pub broadcast proof fn su_in_step(s: Shift, c: Cur, d: Cur, n: nat)
    requires
        #[trigger] s.in_step(c, d),
        s.live((#[trigger] codes::su_at(c, n)).1),
    ensures
        codes::su_at(c, n).0 == codes::su_at(d, n).0,
        s.in_step(codes::su_at(c, n).1, codes::su_at(d, n).1),
{
    broadcast use group_fields;

    reveal(codes::su_at);
}

pub broadcast proof fn ns_steady(c: Cur, n: nat)
    ensures
        steady(c, (#[trigger] codes::ns_at(c, n)).1),
{
    broadcast use group_fields;

    reveal(codes::ns_at);
}

pub broadcast proof fn ns_in_step(s: Shift, c: Cur, d: Cur, n: nat)
    requires
        #[trigger] s.in_step(c, d),
        s.live((#[trigger] codes::ns_at(c, n)).1),
    ensures
        codes::ns_at(c, n).0 == codes::ns_at(d, n).0,
        s.in_step(codes::ns_at(c, n).1, codes::ns_at(d, n).1),
{
    broadcast use group_fields;

    reveal(codes::ns_at);
}

proof fn lemma_subexp_steady(c: Cur, i: nat, mk: nat, num_syms: nat)
    ensures
        steady(c, codes::subexp_at(c, i, mk, num_syms).1),
    decreases num_syms - mk,
{
    broadcast use {group_fields, ns_steady};

    let a = pow2(codes::subexp_bits(i));
    lemma_pow2_pos(codes::subexp_bits(i));
    if num_syms > mk + 3 * a && c.flag().0 {
        lemma_subexp_steady(c.flag().1, i + 1, mk + a, num_syms);
    }
}

proof fn lemma_subexp_in_step(s: Shift, c: Cur, d: Cur, i: nat, mk: nat, num_syms: nat)
    requires
        s.in_step(c, d),
        s.live(codes::subexp_at(c, i, mk, num_syms).1),
    ensures
        codes::subexp_at(c, i, mk, num_syms).0 == codes::subexp_at(d, i, mk, num_syms).0,
        s.in_step(
            codes::subexp_at(c, i, mk, num_syms).1,
            codes::subexp_at(d, i, mk, num_syms).1,
        ),
    decreases num_syms - mk,
{
    broadcast use {group_fields, ns_steady, ns_in_step};

    let a = pow2(codes::subexp_bits(i));
    lemma_pow2_pos(codes::subexp_bits(i));
    if num_syms > mk + 3 * a && c.flag().0 {
        lemma_subexp_steady(c.flag().1, i + 1, mk + a, num_syms);
        lemma_subexp_in_step(s, c.flag().1, d.flag().1, i + 1, mk + a, num_syms);
    }
}

pub broadcast proof fn global_param_steady(c: Cur, t: u8, hp: bool, idx: int)
    ensures
        steady(c, #[trigger] codes::global_param_at(c, t, hp, idx)),
{
    reveal(codes::global_param_at);
    lemma_subexp_steady(c, 0, 0, 2 * pow2(codes::global_param_bits(t, hp, idx)) + 1);
}

pub broadcast proof fn global_param_in_step(s: Shift, c: Cur, d: Cur, t: u8, hp: bool, idx: int)
    requires
        #[trigger] s.in_step(c, d),
        s.live(#[trigger] codes::global_param_at(c, t, hp, idx)),
    ensures
        s.in_step(codes::global_param_at(c, t, hp, idx), codes::global_param_at(d, t, hp, idx)),
{
    reveal(codes::global_param_at);
    lemma_subexp_in_step(s, c, d, 0, 0, 2 * pow2(codes::global_param_bits(t, hp, idx)) + 1);
}

proof fn lemma_gm_type_steady(c: Cur)
    ensures
        steady(c, codes::gm_type_at(c).1),
{
    broadcast use group_fields;

}

proof fn lemma_gm_type_in_step(s: Shift, c: Cur, d: Cur)
    requires
        s.in_step(c, d),
        s.live(codes::gm_type_at(c).1),
    ensures
        codes::gm_type_at(c).0 == codes::gm_type_at(d).0,
        s.in_step(codes::gm_type_at(c).1, codes::gm_type_at(d).1),
{
    broadcast use group_fields;

}

proof fn lemma_global_motion_steady(c: Cur, hp: bool)
    ensures
        steady(c, codes::global_motion_at(c, hp)),
{
    broadcast use global_param_steady;

    reveal(codes::global_motion_at);
    lemma_gm_type_steady(c);
}

proof fn lemma_global_motion_in_step(s: Shift, c: Cur, d: Cur, hp: bool)
    requires
        s.in_step(c, d),
        s.live(codes::global_motion_at(c, hp)),
    ensures
        s.in_step(codes::global_motion_at(c, hp), codes::global_motion_at(d, hp)),
{
    broadcast use {global_param_steady, global_param_in_step};

    reveal(codes::global_motion_at);
    lemma_gm_type_in_step(s, c, d);
}

pub broadcast proof fn global_motions_steady(c: Cur, hp: bool)
    ensures
        steady(c, #[trigger] codes::global_motions_at(c, hp)),
{
    reveal(codes::global_motions_at);
    let step = |c: Cur| codes::global_motion_at(c, hp);
    assert forall|c: Cur| steady(c, #[trigger] step(c)) by {
        lemma_global_motion_steady(c, hp);
    }
    lemma_times_steady(c, REFS_PER_FRAME as nat, step);
}

pub broadcast proof fn global_motions_in_step(s: Shift, c: Cur, d: Cur, hp: bool)
    requires
        #[trigger] s.in_step(c, d),
        s.live(#[trigger] codes::global_motions_at(c, hp)),
    ensures
        s.in_step(codes::global_motions_at(c, hp), codes::global_motions_at(d, hp)),
{
    reveal(codes::global_motions_at);
    let step = |c: Cur| codes::global_motion_at(c, hp);
    assert forall|c: Cur| steady(c, #[trigger] step(c)) by {
        lemma_global_motion_steady(c, hp);
    }
    assert forall|c: Cur, d: Cur|
        #![trigger s.in_step(c, d), step(c)]
        s.in_step(c, d) && s.live(step(c)) implies s.in_step(step(c), step(d)) by {
        lemma_global_motion_in_step(s, c, d, hp);
    }
    lemma_times_in_step(s, c, d, REFS_PER_FRAME as nat, step);
}

// ---------- filters ----------

pub broadcast proof fn lf_delta_steady(c: Cur)
    ensures
        steady(c, #[trigger] filters::lf_delta_at(c)),
{
    broadcast use {group_fields, su_steady};

}

pub broadcast proof fn lf_delta_in_step(s: Shift, c: Cur, d: Cur)
    requires
        #[trigger] s.in_step(c, d),
        s.live(#[trigger] filters::lf_delta_at(c)),
    ensures
        s.in_step(filters::lf_delta_at(c), filters::lf_delta_at(d)),
{
    broadcast use {group_fields, su_steady, su_in_step};

}

pub broadcast proof fn levels_steady(c: Cur, mono: bool)
    ensures
        steady(c, #[trigger] filters::levels_at(c, mono)),
{
    broadcast use {group_fields};

    reveal(filters::levels_at);
    let step = |c: Cur| filters::lf_delta_at(c);
    assert forall|c: Cur| steady(c, #[trigger] step(c)) by {
        lf_delta_steady(c);
    }
    assert forall|c: Cur| steady(c, #[trigger] bitio::times(c, 10, step)) by {
        lemma_times_steady(c, 10, step);
    }
}

pub broadcast proof fn levels_in_step(s: Shift, c: Cur, d: Cur, mono: bool)
    requires
        #[trigger] s.in_step(c, d),
        s.live(#[trigger] filters::levels_at(c, mono)),
    ensures
        s.in_step(filters::levels_at(c, mono), filters::levels_at(d, mono)),
{
    broadcast use {group_fields};

    reveal(filters::levels_at);
    let step = |c: Cur| filters::lf_delta_at(c);
    assert forall|c: Cur| steady(c, #[trigger] step(c)) by {
        lf_delta_steady(c);
    }
    assert forall|c: Cur, d: Cur|
        #![trigger s.in_step(c, d), step(c)]
        s.in_step(c, d) && s.live(step(c)) implies s.in_step(step(c), step(d)) by {
        lf_delta_in_step(s, c, d);
    }
    assert forall|c: Cur| steady(c, #[trigger] bitio::times(c, 10, step)) by {
        lemma_times_steady(c, 10, step);
    }
    assert forall|c: Cur, d: Cur|
        #![trigger s.in_step(c, d), bitio::times(c, 10, step)]
        s.in_step(c, d) && s.live(bitio::times(c, 10, step)) implies s.in_step(
        bitio::times(c, 10, step),
        bitio::times(d, 10, step),
    ) by {
        lemma_times_in_step(s, c, d, 10, step);
    }
}

pub broadcast proof fn loop_filter_steady(c: Cur, mono: bool, skip: bool)
    ensures
        steady(c, #[trigger] filters::loop_filter_at(c, mono, skip)),
{
    broadcast use {group_fields, levels_steady};

}

pub broadcast proof fn loop_filter_in_step(s: Shift, c: Cur, d: Cur, mono: bool, skip: bool)
    requires
        #[trigger] s.in_step(c, d),
        s.live(#[trigger] filters::loop_filter_at(c, mono, skip)),
    ensures
        s.in_step(filters::loop_filter_at(c, mono, skip), filters::loop_filter_at(d, mono, skip)),
{
    broadcast use {group_fields, levels_steady, levels_in_step};

}

pub broadcast proof fn cdef_strength_steady(c: Cur, mono: bool)
    ensures
        steady(c, #[trigger] filters::cdef_strength_at(c, mono)),
{
    broadcast use {group_fields};

}

pub broadcast proof fn cdef_strength_in_step(s: Shift, c: Cur, d: Cur, mono: bool)
    requires
        #[trigger] s.in_step(c, d),
        s.live(#[trigger] filters::cdef_strength_at(c, mono)),
    ensures
        s.in_step(filters::cdef_strength_at(c, mono), filters::cdef_strength_at(d, mono)),
{
    broadcast use {group_fields};

}

pub broadcast proof fn cdef_steady(c: Cur, mono: bool, skip: bool)
    ensures
        steady(c, #[trigger] filters::cdef_at(c, mono, skip)),
{
    broadcast use {group_fields};

    reveal(filters::cdef_at);
    let step = |c: Cur| filters::cdef_strength_at(c, mono);
    assert forall|c: Cur| steady(c, #[trigger] step(c)) by {
        cdef_strength_steady(c, mono);
    }
    if !skip {
        let c2 = c.f(2).1.f(2);
        lemma_times_steady(c2.1, pow2(c2.0 as nat), step);
    }
}

pub broadcast proof fn cdef_in_step(s: Shift, c: Cur, d: Cur, mono: bool, skip: bool)
    requires
        #[trigger] s.in_step(c, d),
        s.live(#[trigger] filters::cdef_at(c, mono, skip)),
    ensures
        s.in_step(filters::cdef_at(c, mono, skip), filters::cdef_at(d, mono, skip)),
{
    broadcast use {group_fields};

    reveal(filters::cdef_at);
    let step = |c: Cur| filters::cdef_strength_at(c, mono);
    assert forall|c: Cur| steady(c, #[trigger] step(c)) by {
        cdef_strength_steady(c, mono);
    }
    assert forall|c: Cur, d: Cur|
        #![trigger s.in_step(c, d), step(c)]
        s.in_step(c, d) && s.live(step(c)) implies s.in_step(step(c), step(d)) by {
        cdef_strength_in_step(s, c, d, mono);
    }
    if !skip {
        let c2 = c.f(2).1.f(2);
        let d2 = d.f(2).1.f(2);
        lemma_times_steady(c2.1, pow2(c2.0 as nat), step);
        lemma_times_in_step(s, c2.1, d2.1, pow2(c2.0 as nat), step);
    }
}

pub broadcast proof fn lr_types_steady(c: Cur, mono: bool)
    ensures
        steady(c, (#[trigger] filters::lr_types_at(c, mono)).1),
{
    broadcast use {group_fields};

    reveal(filters::lr_types_at);
}

pub broadcast proof fn lr_types_in_step(s: Shift, c: Cur, d: Cur, mono: bool)
    requires
        #[trigger] s.in_step(c, d),
        s.live((#[trigger] filters::lr_types_at(c, mono)).1),
    ensures
        filters::lr_types_at(c, mono).0 == filters::lr_types_at(d, mono).0,
        s.in_step(filters::lr_types_at(c, mono).1, filters::lr_types_at(d, mono).1),
{
    broadcast use {group_fields};

    reveal(filters::lr_types_at);
}

pub broadcast proof fn restoration_steady(c: Cur, x: Header, skip: bool)
    ensures
        steady(c, #[trigger] filters::restoration_at(c, x, skip)),
{
    broadcast use {group_fields, lr_types_steady};

    reveal(filters::restoration_at);
}

pub broadcast proof fn restoration_in_step(s: Shift, c: Cur, d: Cur, x: Header, y: Header, skip: bool)
    requires
        #[trigger] s.in_step(c, d),
        #[trigger] alike(x, y),
        s.live(#[trigger] filters::restoration_at(c, x, skip)),
    ensures
        s.in_step(filters::restoration_at(c, x, skip), filters::restoration_at(d, y, skip)),
{
    broadcast use {group_fields, lr_types_steady, lr_types_in_step};

    reveal(filters::restoration_at);
}

// ---------- quantizer and segments ----------

pub broadcast proof fn delta_q_steady(c: Cur)
    ensures
        steady(c, (#[trigger] quant::delta_q_at(c)).1),
{
    broadcast use {group_fields, su_steady};

    reveal(quant::delta_q_at);
}

pub broadcast proof fn delta_q_in_step(s: Shift, c: Cur, d: Cur)
    requires
        #[trigger] s.in_step(c, d),
        s.live((#[trigger] quant::delta_q_at(c)).1),
    ensures
        quant::delta_q_at(c).0 == quant::delta_q_at(d).0,
        s.in_step(quant::delta_q_at(c).1, quant::delta_q_at(d).1),
{
    broadcast use {group_fields, su_steady, su_in_step};

    reveal(quant::delta_q_at);
}

pub broadcast proof fn chroma_deltas_steady(c: Cur, separate: bool)
    ensures
        steady(c, (#[trigger] quant::chroma_deltas_at(c, separate)).1),
{
    broadcast use {group_fields, delta_q_steady};

    reveal(quant::chroma_deltas_at);
}

pub broadcast proof fn chroma_deltas_in_step(s: Shift, c: Cur, d: Cur, separate: bool)
    requires
        #[trigger] s.in_step(c, d),
        s.live((#[trigger] quant::chroma_deltas_at(c, separate)).1),
    ensures
        quant::chroma_deltas_at(c, separate).0 == quant::chroma_deltas_at(d, separate).0,
        s.in_step(quant::chroma_deltas_at(c, separate).1, quant::chroma_deltas_at(d, separate).1),
{
    broadcast use {group_fields, delta_q_steady, delta_q_in_step};

    reveal(quant::chroma_deltas_at);
}

pub broadcast proof fn qmatrix_steady(c: Cur, separate: bool)
    ensures
        steady(c, #[trigger] quant::qmatrix_at(c, separate)),
{
    broadcast use {group_fields};

    reveal(quant::qmatrix_at);
}

pub broadcast proof fn qmatrix_in_step(s: Shift, c: Cur, d: Cur, separate: bool)
    requires
        #[trigger] s.in_step(c, d),
        s.live(#[trigger] quant::qmatrix_at(c, separate)),
    ensures
        s.in_step(quant::qmatrix_at(c, separate), quant::qmatrix_at(d, separate)),
{
    broadcast use {group_fields};

    reveal(quant::qmatrix_at);
}

pub broadcast proof fn quant_steady(c: Cur, x: Header)
    ensures
        steady(c, (#[trigger] quant::quant_at(c, x)).1),
{
    broadcast use {group_fields, delta_q_steady, chroma_deltas_steady, qmatrix_steady};

    reveal(quant::quant_at);
}

pub broadcast proof fn quant_in_step(s: Shift, c: Cur, d: Cur, x: Header, y: Header)
    requires
        #[trigger] s.in_step(c, d),
        #[trigger] alike(x, y),
        s.live((#[trigger] quant::quant_at(c, x)).1),
    ensures
        quant::quant_at(c, x).0 == quant::quant_at(d, y).0,
        s.in_step(quant::quant_at(c, x).1, quant::quant_at(d, y).1),
{
    broadcast use {group_fields, delta_q_steady, chroma_deltas_steady, qmatrix_steady, delta_q_in_step, chroma_deltas_in_step, qmatrix_in_step};

    reveal(quant::quant_at);
}

pub broadcast proof fn feature_steady(c: Cur, j: int)
    ensures
        steady(c, (#[trigger] quant::feature_at(c, j)).1),
{
    broadcast use {group_fields, su_steady};

    reveal(quant::feature_at);
}

pub broadcast proof fn feature_in_step(s: Shift, c: Cur, d: Cur, j: int)
    requires
        #[trigger] s.in_step(c, d),
        s.live((#[trigger] quant::feature_at(c, j)).1),
    ensures
        quant::feature_at(c, j).0 == quant::feature_at(d, j).0,
        s.in_step(quant::feature_at(c, j).1, quant::feature_at(d, j).1),
{
    broadcast use {group_fields, su_steady, su_in_step};

    reveal(quant::feature_at);
}

proof fn lemma_features_steady(c: Cur, j: nat)
    ensures
        steady(c, quant::features_at(c, j)),
    decreases SEG_LVL_MAX - j,
{
    broadcast use feature_steady;

    if j < SEG_LVL_MAX {
        lemma_features_steady(quant::feature_at(c, j as int).1, j + 1);
    }
}

proof fn lemma_features_in_step(s: Shift, c: Cur, d: Cur, j: nat)
    requires
        s.in_step(c, d),
        s.live(quant::features_at(c, j)),
    ensures
        s.in_step(quant::features_at(c, j), quant::features_at(d, j)),
    decreases SEG_LVL_MAX - j,
{
    broadcast use {feature_steady, feature_in_step};

    if j < SEG_LVL_MAX {
        let c1 = quant::feature_at(c, j as int).1;
        lemma_features_steady(c1, j + 1);
        lemma_features_in_step(s, c1, quant::feature_at(d, j as int).1, j + 1);
    }
}

proof fn lemma_segments_steady(c: Cur, n: nat)
    ensures
        steady(c, quant::segments_at(c, n).1),
    decreases n,
{
    broadcast use feature_steady;

    if n > 0 {
        lemma_segments_steady(c, (n - 1) as nat);
        let c1 = quant::segments_at(c, (n - 1) as nat).1;
        lemma_features_steady(quant::feature_at(c1, 0).1, 1);
    }
}

proof fn lemma_segments_in_step(s: Shift, c: Cur, d: Cur, n: nat)
    requires
        s.in_step(c, d),
        s.live(quant::segments_at(c, n).1),
    ensures
        quant::segments_at(c, n).0 == quant::segments_at(d, n).0,
        s.in_step(quant::segments_at(c, n).1, quant::segments_at(d, n).1),
    decreases n,
{
    broadcast use {feature_steady, feature_in_step};

    if n > 0 {
        let c1 = quant::segments_at(c, (n - 1) as nat).1;
        let d1 = quant::segments_at(d, (n - 1) as nat).1;
        let c2 = quant::feature_at(c1, 0).1;
        lemma_features_steady(c2, 1);
        lemma_segments_in_step(s, c, d, (n - 1) as nat);
        lemma_features_in_step(s, c2, quant::feature_at(d1, 0).1, 1);
    }
}

pub broadcast proof fn update_data_steady(c: Cur, no_primary: bool)
    ensures
        steady(c, (#[trigger] quant::update_data_at(c, no_primary)).1),
{
    broadcast use {group_fields};

    reveal(quant::update_data_at);
}

pub broadcast proof fn update_data_in_step(s: Shift, c: Cur, d: Cur, no_primary: bool)
    requires
        #[trigger] s.in_step(c, d),
        s.live((#[trigger] quant::update_data_at(c, no_primary)).1),
    ensures
        quant::update_data_at(c, no_primary).0 == quant::update_data_at(d, no_primary).0,
        s.in_step(quant::update_data_at(c, no_primary).1, quant::update_data_at(d, no_primary).1),
{
    broadcast use {group_fields};

    reveal(quant::update_data_at);
}

pub broadcast proof fn segmentation_steady(c: Cur, no_primary: bool)
    ensures
        steady(c, (#[trigger] quant::segmentation_at(c, no_primary)).1),
{
    broadcast use {group_fields, update_data_steady};

    reveal(quant::segmentation_at);
    let (enabled, c1) = c.flag();
    let c2 = quant::update_data_at(c1, no_primary).1;
    lemma_segments_steady(c2, MAX_SEGMENTS as nat);
}

pub broadcast proof fn segmentation_in_step(s: Shift, c: Cur, d: Cur, no_primary: bool)
    requires
        #[trigger] s.in_step(c, d),
        s.live((#[trigger] quant::segmentation_at(c, no_primary)).1),
    ensures
        quant::segmentation_at(c, no_primary).0 == quant::segmentation_at(d, no_primary).0,
        s.in_step(quant::segmentation_at(c, no_primary).1, quant::segmentation_at(d, no_primary).1),
{
    broadcast use {group_fields, update_data_steady, update_data_in_step};

    reveal(quant::segmentation_at);
    let (enabled, c1) = c.flag();
    let (update, c2) = quant::update_data_at(c1, no_primary);
    lemma_segments_steady(c2, MAX_SEGMENTS as nat);
    if enabled && update {
        let d2 = quant::update_data_at(d.flag().1, no_primary).1;
        lemma_segments_in_step(s, c2, d2, MAX_SEGMENTS as nat);
    }
}

pub broadcast proof fn deltas_steady(c: Cur, base_q_idx: u64, intrabc: bool)
    ensures
        steady(c, #[trigger] quant::deltas_at(c, base_q_idx, intrabc)),
{
    broadcast use {group_fields};

    reveal(quant::deltas_at);
}

pub broadcast proof fn deltas_in_step(s: Shift, c: Cur, d: Cur, base_q_idx: u64, intrabc: bool)
    requires
        #[trigger] s.in_step(c, d),
        s.live(#[trigger] quant::deltas_at(c, base_q_idx, intrabc)),
    ensures
        s.in_step(quant::deltas_at(c, base_q_idx, intrabc), quant::deltas_at(d, base_q_idx, intrabc)),
{
    broadcast use {group_fields};

    reveal(quant::deltas_at);
}

// ---------- tiles ----------

proof fn lemma_increments_steady(c: Cur, k: nat, max: nat)
    ensures
        steady(c, tiles::increments_at(c, k, max).1),
    decreases max - k,
{
    broadcast use group_fields;

    if k < max {
        lemma_increments_steady(c.flag().1, k + 1, max);
    }
}

proof fn lemma_increments_in_step(s: Shift, c: Cur, d: Cur, k: nat, max: nat)
    requires
        s.in_step(c, d),
        s.live(tiles::increments_at(c, k, max).1),
    ensures
        tiles::increments_at(c, k, max).0 == tiles::increments_at(d, k, max).0,
        s.in_step(tiles::increments_at(c, k, max).1, tiles::increments_at(d, k, max).1),
    decreases max - k,
{
    broadcast use group_fields;

    if k < max {
        lemma_increments_steady(c.flag().1, k + 1, max);
        if c.flag().0 {
            lemma_increments_in_step(s, c.flag().1, d.flag().1, k + 1, max);
        }
    }
}

/// What the tile sizes are after one more.
pub open spec fn wider(widest: nat, size: nat) -> nat {
    if size > widest {
        size
    } else {
        widest
    }
}

proof fn lemma_tile_sizes_steady(c: Cur, start: nat, total: nat, max: nat, widest: nat, n: nat)
    ensures
        steady(c, tiles::tile_sizes_at(c, start, total, max, widest, n).1),
    decreases
            if start < total {
                total - start
            } else {
                0
            },
{
    broadcast use ns_steady;

    if c.err is None && start < total {
        let (v, c1) = codes::ns_at(c, tiles::min_of((total - start) as nat, max));
        lemma_tile_sizes_steady(c1, start + v + 1, total, max, wider(widest, v + 1), n + 1);
    }
}

proof fn lemma_tile_sizes_in_step(
    s: Shift,
    c: Cur,
    d: Cur,
    start: nat,
    total: nat,
    max: nat,
    widest: nat,
    n: nat,
)
    requires
        s.in_step(c, d),
        s.live(tiles::tile_sizes_at(c, start, total, max, widest, n).1),
    ensures
        tiles::tile_sizes_at(c, start, total, max, widest, n).0 == tiles::tile_sizes_at(
            d,
            start,
            total,
            max,
            widest,
            n,
        ).0,
        s.in_step(
            tiles::tile_sizes_at(c, start, total, max, widest, n).1,
            tiles::tile_sizes_at(d, start, total, max, widest, n).1,
        ),
    decreases
            if start < total {
                total - start
            } else {
                0
            },
{
    broadcast use {ns_steady, ns_in_step};

    if start < total {
        let size = tiles::min_of((total - start) as nat, max);
        let (v, c1) = codes::ns_at(c, size);
        let d1 = codes::ns_at(d, size).1;
        lemma_tile_sizes_steady(c1, start + v + 1, total, max, wider(widest, v + 1), n + 1);
        lemma_tile_sizes_in_step(
            s,
            c1,
            d1,
            start + v + 1,
            total,
            max,
            wider(widest, v + 1),
            n + 1,
        );
    }
}

/// The fewest tile rows beside these tile columns.
pub open spec fn least_rows(grid: TileGrid, cols: nat) -> nat {
    if grid.min_log2_tiles > cols {
        (grid.min_log2_tiles - cols) as nat
    } else {
        0
    }
}

pub broadcast proof fn uniform_steady(c: Cur, grid: TileGrid)
    ensures
        steady(c, (#[trigger] tiles::uniform_at(c, grid)).1),
{
    broadcast use {group_fields};

    reveal(tiles::uniform_at);
    let min = grid.min_log2_tile_cols as nat;
    let max = grid.max_log2_tile_cols as nat;
    lemma_increments_steady(c, min, max);
    let (cols, c1) = tiles::increments_at(c, min, max);
    lemma_increments_steady(c1, least_rows(grid, cols), grid.max_log2_tile_rows as nat);
}

pub broadcast proof fn uniform_in_step(s: Shift, c: Cur, d: Cur, grid: TileGrid)
    requires
        #[trigger] s.in_step(c, d),
        s.live((#[trigger] tiles::uniform_at(c, grid)).1),
    ensures
        tiles::uniform_at(c, grid).0 == tiles::uniform_at(d, grid).0,
        s.in_step(tiles::uniform_at(c, grid).1, tiles::uniform_at(d, grid).1),
{
    broadcast use {group_fields};

    reveal(tiles::uniform_at);
    let min = grid.min_log2_tile_cols as nat;
    let max = grid.max_log2_tile_cols as nat;
    let (cols, c1) = tiles::increments_at(c, min, max);
    let rows = least_rows(grid, cols);
    lemma_increments_steady(c1, rows, grid.max_log2_tile_rows as nat);
    lemma_increments_in_step(s, c, d, min, max);
    let d1 = tiles::increments_at(d, min, max).1;
    lemma_increments_in_step(s, c1, d1, rows, grid.max_log2_tile_rows as nat);
}

pub broadcast proof fn explicit_steady(c: Cur, grid: TileGrid)
    ensures
        steady(c, (#[trigger] tiles::explicit_at(c, grid)).1),
{
    broadcast use {group_fields};

    reveal(tiles::explicit_at);
    let cols = grid.sb_cols as nat;
    let width = grid.max_tile_width_sb as nat;
    lemma_tile_sizes_steady(c, 0, cols, width, 0, 0);
    let ((widest, _), c1) = tiles::tile_sizes_at(c, 0, cols, width, 0, 0);
    let c2 = if widest == 0 {
        c1.fail(crate::error::Error::EmptyFrame)
    } else {
        c1
    };
    let height = tiles::max_tile_height(grid, widest);
    lemma_tile_sizes_steady(c2, 0, grid.sb_rows as nat, height, 0, 0);
}

pub broadcast proof fn explicit_in_step(s: Shift, c: Cur, d: Cur, grid: TileGrid)
    requires
        #[trigger] s.in_step(c, d),
        s.live((#[trigger] tiles::explicit_at(c, grid)).1),
    ensures
        tiles::explicit_at(c, grid).0 == tiles::explicit_at(d, grid).0,
        s.in_step(tiles::explicit_at(c, grid).1, tiles::explicit_at(d, grid).1),
{
    broadcast use {group_fields};

    reveal(tiles::explicit_at);
    let cols = grid.sb_cols as nat;
    let width = grid.max_tile_width_sb as nat;
    let ((widest, _), c1) = tiles::tile_sizes_at(c, 0, cols, width, 0, 0);
    let c2 = if widest == 0 {
        c1.fail(crate::error::Error::EmptyFrame)
    } else {
        c1
    };
    let height = tiles::max_tile_height(grid, widest);
    lemma_tile_sizes_steady(c2, 0, grid.sb_rows as nat, height, 0, 0);
    lemma_tile_sizes_in_step(s, c, d, 0, cols, width, 0, 0);
    let d1 = tiles::tile_sizes_at(d, 0, cols, width, 0, 0).1;
    lemma_tile_sizes_in_step(s, c1, d1, 0, grid.sb_rows as nat, height, 0, 0);
}

pub broadcast proof fn tile_info_steady(c: Cur, g: picture::Geometry, sb128: bool)
    ensures
        steady(c, #[trigger] tiles::tile_info_at(c, g, sb128)),
{
    broadcast use {group_fields, uniform_steady, explicit_steady};

    reveal(tiles::tile_info_at);
}

pub broadcast proof fn tile_info_in_step(s: Shift, c: Cur, d: Cur, g: picture::Geometry, sb128: bool)
    requires
        #[trigger] s.in_step(c, d),
        s.live(#[trigger] tiles::tile_info_at(c, g, sb128)),
    ensures
        s.in_step(tiles::tile_info_at(c, g, sb128), tiles::tile_info_at(d, g, sb128)),
{
    broadcast use {group_fields, uniform_steady, explicit_steady, uniform_in_step, explicit_in_step};

    reveal(tiles::tile_info_at);
}

// ---------- picture ----------

pub broadcast proof fn superres_steady(c: Cur, x: Header, upscaled: u64)
    ensures
        steady(c, (#[trigger] picture::superres_at(c, x, upscaled)).1),
{
    broadcast use {group_fields};

    reveal(picture::superres_at);
}

pub broadcast proof fn superres_in_step(s: Shift, c: Cur, d: Cur, x: Header, y: Header, upscaled: u64)
    requires
        #[trigger] s.in_step(c, d),
        #[trigger] alike(x, y),
        s.live((#[trigger] picture::superres_at(c, x, upscaled)).1),
    ensures
        picture::superres_at(c, x, upscaled).0 == picture::superres_at(d, y, upscaled).0,
        s.in_step(picture::superres_at(c, x, upscaled).1, picture::superres_at(d, y, upscaled).1),
{
    broadcast use {group_fields};

    reveal(picture::superres_at);
}

pub broadcast proof fn size_steady(c: Cur, x: Header, over: bool)
    ensures
        steady(c, (#[trigger] picture::size_at(c, x, over)).1),
{
    broadcast use {group_fields};

    reveal(picture::size_at);
}

pub broadcast proof fn size_in_step(s: Shift, c: Cur, d: Cur, x: Header, y: Header, over: bool)
    requires
        #[trigger] s.in_step(c, d),
        #[trigger] alike(x, y),
        s.live((#[trigger] picture::size_at(c, x, over)).1),
    ensures
        picture::size_at(c, x, over).0 == picture::size_at(d, y, over).0,
        s.in_step(picture::size_at(c, x, over).1, picture::size_at(d, y, over).1),
{
    broadcast use {group_fields};

    reveal(picture::size_at);
}

pub broadcast proof fn render_steady(c: Cur, width: u64, height: u64)
    ensures
        steady(c, (#[trigger] picture::render_at(c, width, height)).1),
{
    broadcast use {group_fields};

    reveal(picture::render_at);
}

pub broadcast proof fn render_in_step(s: Shift, c: Cur, d: Cur, width: u64, height: u64)
    requires
        #[trigger] s.in_step(c, d),
        s.live((#[trigger] picture::render_at(c, width, height)).1),
    ensures
        picture::render_at(c, width, height).0 == picture::render_at(d, width, height).0,
        s.in_step(picture::render_at(c, width, height).1, picture::render_at(d, width, height).1),
{
    broadcast use {group_fields};

    reveal(picture::render_at);
}

pub broadcast proof fn geometry_steady(c: Cur, x: Header, over: bool)
    ensures
        steady(c, (#[trigger] picture::geometry_at(c, x, over)).1),
{
    broadcast use {group_fields, size_steady, superres_steady, render_steady};

    reveal(picture::geometry_at);
}

pub broadcast proof fn geometry_in_step(s: Shift, c: Cur, d: Cur, x: Header, y: Header, over: bool)
    requires
        #[trigger] s.in_step(c, d),
        #[trigger] alike(x, y),
        s.live((#[trigger] picture::geometry_at(c, x, over)).1),
    ensures
        picture::geometry_at(c, x, over).0 == picture::geometry_at(d, y, over).0,
        s.in_step(picture::geometry_at(c, x, over).1, picture::geometry_at(d, y, over).1),
{
    broadcast use {group_fields, size_steady, superres_steady, render_steady, size_in_step, superres_in_step, render_in_step};

    reveal(picture::geometry_at);
}

proof fn lemma_found_ref_steady(c: Cur, i: nat)
    ensures
        steady(c, picture::found_ref_at(c, i).1),
    decreases REFS_PER_FRAME - i,
{
    broadcast use group_fields;

    if i < REFS_PER_FRAME {
        lemma_found_ref_steady(c.flag().1, i + 1);
    }
}

proof fn lemma_found_ref_in_step(s: Shift, c: Cur, d: Cur, i: nat)
    requires
        s.in_step(c, d),
        s.live(picture::found_ref_at(c, i).1),
    ensures
        picture::found_ref_at(c, i).0 == picture::found_ref_at(d, i).0,
        s.in_step(picture::found_ref_at(c, i).1, picture::found_ref_at(d, i).1),
    decreases REFS_PER_FRAME - i,
{
    broadcast use group_fields;

    if i < REFS_PER_FRAME {
        lemma_found_ref_steady(c.flag().1, i + 1);
        if !c.flag().0 {
            lemma_found_ref_in_step(s, c.flag().1, d.flag().1, i + 1);
        }
    }
}

pub broadcast proof fn size_with_refs_steady(c: Cur, x: Header, refs: Seq<u8>, slots: Seq<RefSlot>)
    ensures
        steady(c, (#[trigger] picture::size_with_refs_at(c, x, refs, slots)).1),
{
    broadcast use {group_fields, geometry_steady, superres_steady};

    reveal(picture::size_with_refs_at);
    lemma_found_ref_steady(c, 0);
}

pub broadcast proof fn size_with_refs_in_step(s: Shift, c: Cur, d: Cur, x: Header, y: Header, refs: Seq<u8>, slots: Seq<RefSlot>)
    requires
        #[trigger] s.in_step(c, d),
        #[trigger] alike(x, y),
        s.live((#[trigger] picture::size_with_refs_at(c, x, refs, slots)).1),
    ensures
        picture::size_with_refs_at(c, x, refs, slots).0 == picture::size_with_refs_at(d, y, refs, slots).0,
        s.in_step(picture::size_with_refs_at(c, x, refs, slots).1, picture::size_with_refs_at(d, y, refs, slots).1),
{
    broadcast use {group_fields, geometry_steady, superres_steady, geometry_in_step, superres_in_step};

    reveal(picture::size_with_refs_at);
    lemma_found_ref_steady(c, 0);
    let c1 = picture::found_ref_at(c, 0).1;
    if s.live(c1) {
        lemma_found_ref_in_step(s, c, d, 0);
    }
}

pub broadcast proof fn intra_steady(c: Cur, x: Header, p: frame_header::Prelude)
    ensures
        steady(c, (#[trigger] picture::intra_at(c, x, p)).1),
{
    broadcast use {group_fields, geometry_steady};

    reveal(picture::intra_at);
}

pub broadcast proof fn intra_in_step(s: Shift, c: Cur, d: Cur, x: Header, y: Header, p: frame_header::Prelude)
    requires
        #[trigger] s.in_step(c, d),
        #[trigger] alike(x, y),
        s.live((#[trigger] picture::intra_at(c, x, p)).1),
    ensures
        picture::intra_at(c, x, p).0 == picture::intra_at(d, y, p).0,
        s.in_step(picture::intra_at(c, x, p).1, picture::intra_at(d, y, p).1),
{
    broadcast use {group_fields, geometry_steady, geometry_in_step};

    reveal(picture::intra_at);
}

pub broadcast proof fn short_signaling_steady(c: Cur, x: Header)
    ensures
        steady(c, #[trigger] picture::short_signaling_at(c, x)),
{
    broadcast use {group_fields};

    reveal(picture::short_signaling_at);
}

pub broadcast proof fn short_signaling_in_step(s: Shift, c: Cur, d: Cur, x: Header, y: Header)
    requires
        #[trigger] s.in_step(c, d),
        #[trigger] alike(x, y),
        s.live(#[trigger] picture::short_signaling_at(c, x)),
    ensures
        s.in_step(picture::short_signaling_at(c, x), picture::short_signaling_at(d, y)),
{
    broadcast use {group_fields};

    reveal(picture::short_signaling_at);
}

pub broadcast proof fn ref_idx_steady(c: Cur, n: nat)
    ensures
        steady(c, (#[trigger] picture::ref_idx_at(c, n)).1),
    decreases n,
{
    broadcast use group_fields;

    if n > 0 {
        ref_idx_steady(c, (n - 1) as nat);
    }
}

pub broadcast proof fn ref_idx_in_step(s: Shift, c: Cur, d: Cur, n: nat)
    requires
        #[trigger] s.in_step(c, d),
        s.live((#[trigger] picture::ref_idx_at(c, n)).1),
    ensures
        picture::ref_idx_at(c, n).0 == picture::ref_idx_at(d, n).0,
        s.in_step(picture::ref_idx_at(c, n).1, picture::ref_idx_at(d, n).1),
    decreases n,
{
    broadcast use group_fields;

    if n > 0 {
        ref_idx_in_step(s, c, d, (n - 1) as nat);
    }
}

pub broadcast proof fn motion_steady(c: Cur, x: Header, p: frame_header::Prelude, resilient: bool)
    ensures
        steady(c, (#[trigger] picture::motion_at(c, x, p, resilient)).1),
{
    broadcast use {group_fields};

    reveal(picture::motion_at);
}

pub broadcast proof fn motion_in_step(s: Shift, c: Cur, d: Cur, x: Header, y: Header, p: frame_header::Prelude, resilient: bool)
    requires
        #[trigger] s.in_step(c, d),
        #[trigger] alike(x, y),
        s.live((#[trigger] picture::motion_at(c, x, p, resilient)).1),
    ensures
        picture::motion_at(c, x, p, resilient).0 == picture::motion_at(d, y, p, resilient).0,
        s.in_step(picture::motion_at(c, x, p, resilient).1, picture::motion_at(d, y, p, resilient).1),
{
    broadcast use {group_fields};

    reveal(picture::motion_at);
}

pub broadcast proof fn inter_steady(c: Cur, x: Header, p: frame_header::Prelude, resilient: bool, slots: Seq<RefSlot>)
    ensures
        steady(c, (#[trigger] picture::inter_at(c, x, p, resilient, slots)).1),
{
    broadcast use {group_fields, short_signaling_steady, ref_idx_steady, size_with_refs_steady, geometry_steady, motion_steady};

    reveal(picture::inter_at);
}

pub broadcast proof fn inter_in_step(s: Shift, c: Cur, d: Cur, x: Header, y: Header, p: frame_header::Prelude, resilient: bool, slots: Seq<RefSlot>)
    requires
        #[trigger] s.in_step(c, d),
        #[trigger] alike(x, y),
        s.live((#[trigger] picture::inter_at(c, x, p, resilient, slots)).1),
    ensures
        picture::inter_at(c, x, p, resilient, slots).0 == picture::inter_at(d, y, p, resilient, slots).0,
        s.in_step(picture::inter_at(c, x, p, resilient, slots).1, picture::inter_at(d, y, p, resilient, slots).1),
{
    broadcast use {group_fields, short_signaling_steady, ref_idx_steady, size_with_refs_steady, geometry_steady, motion_steady, short_signaling_in_step, ref_idx_in_step, size_with_refs_in_step, geometry_in_step, motion_in_step};

    reveal(picture::inter_at);
}

// ---------- the header behind the removal times ----------

pub broadcast proof fn refresh_steady(c: Cur, frame_type: u8, show: bool)
    ensures
        steady(c, (#[trigger] frame_header::refresh_at(c, frame_type, show)).1),
{
    broadcast use {group_fields};

}

pub broadcast proof fn refresh_in_step(s: Shift, c: Cur, d: Cur, frame_type: u8, show: bool)
    requires
        #[trigger] s.in_step(c, d),
        s.live((#[trigger] frame_header::refresh_at(c, frame_type, show)).1),
    ensures
        frame_header::refresh_at(c, frame_type, show).0 == frame_header::refresh_at(d, frame_type, show).0,
        s.in_step(frame_header::refresh_at(c, frame_type, show).1, frame_header::refresh_at(d, frame_type, show).1),
{
    broadcast use {group_fields};

}

pub broadcast proof fn refreshes_steady(c: Cur, x: Header, k: Kind)
    ensures
        steady(c, (#[trigger] uheader::refreshes_at(c, x, k)).1),
{
    broadcast use {group_fields, refresh_steady};

    reveal(uheader::refreshes_at);
    let bits = x.tools.inter.order_hint_bits as nat;
    let step = |c: Cur| c.f(bits).1;
    assert(steadily(step));
    let c1 = frame_header::refresh_at(c, k.frame_type, k.show_frame).1;
    lemma_times_steady(c1, NUM_REF_FRAMES as nat, step);
}

pub broadcast proof fn refreshes_in_step(s: Shift, c: Cur, d: Cur, x: Header, y: Header, k: Kind)
    requires
        #[trigger] s.in_step(c, d),
        #[trigger] alike(x, y),
        s.live((#[trigger] uheader::refreshes_at(c, x, k)).1),
    ensures
        uheader::refreshes_at(c, x, k).0 == uheader::refreshes_at(d, y, k).0,
        s.in_step(uheader::refreshes_at(c, x, k).1, uheader::refreshes_at(d, y, k).1),
{
    broadcast use {group_fields, refresh_steady, refresh_in_step};

    reveal(uheader::refreshes_at);
    let bits = x.tools.inter.order_hint_bits as nat;
    let step = |c: Cur| c.f(bits).1;
    assert(steadily(step));
    let c1 = frame_header::refresh_at(c, k.frame_type, k.show_frame).1;
    lemma_times_steady(c1, NUM_REF_FRAMES as nat, step);
    assert(stepwise(s, step));
    if s.live(bitio::times(c1, NUM_REF_FRAMES as nat, step)) {
        let d1 = frame_header::refresh_at(d, k.frame_type, k.show_frame).1;
        lemma_times_in_step(s, c1, d1, NUM_REF_FRAMES as nat, step);
    }
}

pub broadcast proof fn coding_steady(c: Cur, x: Header, p: frame_header::Prelude, z: Picture<Seq<u8>>)
    ensures
        steady(c, (#[trigger] uheader::coding_at(c, x, p, z)).1),
{
    broadcast use {group_fields, tile_info_steady, quant_steady, segmentation_steady, deltas_steady};

    reveal(uheader::coding_at);
}

pub broadcast proof fn coding_in_step(s: Shift, c: Cur, d: Cur, x: Header, y: Header, p: frame_header::Prelude, z: Picture<Seq<u8>>)
    requires
        #[trigger] s.in_step(c, d),
        #[trigger] alike(x, y),
        s.live((#[trigger] uheader::coding_at(c, x, p, z)).1),
    ensures
        uheader::coding_at(c, x, p, z).0 == uheader::coding_at(d, y, p, z).0,
        s.in_step(uheader::coding_at(c, x, p, z).1, uheader::coding_at(d, y, p, z).1),
{
    broadcast use {group_fields, tile_info_steady, quant_steady, segmentation_steady, deltas_steady, tile_info_in_step, quant_in_step, segmentation_in_step, deltas_in_step};

    reveal(uheader::coding_at);
}

pub broadcast proof fn filters_steady(c: Cur, x: Header, z: Picture<Seq<u8>>, lossless: bool)
    ensures
        steady(c, #[trigger] uheader::filters_at(c, x, z, lossless)),
{
    broadcast use {group_fields, loop_filter_steady, cdef_steady, restoration_steady};

    reveal(uheader::filters_at);
}

pub broadcast proof fn filters_in_step(s: Shift, c: Cur, d: Cur, x: Header, y: Header, z: Picture<Seq<u8>>, lossless: bool)
    requires
        #[trigger] s.in_step(c, d),
        #[trigger] alike(x, y),
        s.live(#[trigger] uheader::filters_at(c, x, z, lossless)),
    ensures
        s.in_step(uheader::filters_at(c, x, z, lossless), uheader::filters_at(d, y, z, lossless)),
{
    broadcast use {group_fields, loop_filter_steady, cdef_steady, restoration_steady, loop_filter_in_step, cdef_in_step, restoration_in_step};

    reveal(uheader::filters_at);
}

pub broadcast proof fn skip_mode_steady(c: Cur, hints: Seq<u64>, cur: u64, bits: nat)
    ensures
        steady(c, #[trigger] skip_mode::skip_mode_at(c, hints, cur, bits)),
{
    broadcast use {group_fields};

}

pub broadcast proof fn skip_mode_in_step(s: Shift, c: Cur, d: Cur, hints: Seq<u64>, cur: u64, bits: nat)
    requires
        #[trigger] s.in_step(c, d),
        s.live(#[trigger] skip_mode::skip_mode_at(c, hints, cur, bits)),
    ensures
        s.in_step(skip_mode::skip_mode_at(c, hints, cur, bits), skip_mode::skip_mode_at(d, hints, cur, bits)),
{
    broadcast use {group_fields};

}

pub broadcast proof fn tail_steady(c: Cur, x: Header, k: Kind, z: Picture<Seq<u8>>, order_hint: u64, slots: Seq<RefSlot>, lossless: bool)
    ensures
        steady(c, #[trigger] uheader::tail_at(c, x, k, z, order_hint, slots, lossless)),
{
    broadcast use {group_fields, skip_mode_steady, global_motions_steady};

    reveal(uheader::tail_at);
}

pub broadcast proof fn tail_in_step(s: Shift, c: Cur, d: Cur, x: Header, y: Header, k: Kind, z: Picture<Seq<u8>>, order_hint: u64, slots: Seq<RefSlot>, lossless: bool)
    requires
        #[trigger] s.in_step(c, d),
        #[trigger] alike(x, y),
        s.live(#[trigger] uheader::tail_at(c, x, k, z, order_hint, slots, lossless)),
    ensures
        s.in_step(uheader::tail_at(c, x, k, z, order_hint, slots, lossless), uheader::tail_at(d, y, k, z, order_hint, slots, lossless)),
{
    broadcast use {group_fields, skip_mode_steady, global_motions_steady, skip_mode_in_step, global_motions_in_step};

    reveal(uheader::tail_at);
}

} // verus!
