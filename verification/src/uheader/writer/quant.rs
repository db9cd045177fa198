//! The quantizer, segmentation and block delta fields.

use vstd::arithmetic::power2::*;
use vstd::prelude::*;

use crate::fields::{flag, Field};
use crate::seq_header::SequenceHeader;
use crate::uheader::quant;
use crate::uheader::writer::{self, behind, fits};

verus! {

/// The quantizer: its index, what it differs by for the coefficients of each
/// plane, and the matrices.
pub struct Quantizer {
    pub base: nat,
    pub y_dc: int,
    pub different: bool,
    pub u_dc: int,
    pub u_ac: int,
    pub v_dc: int,
    pub v_ac: int,
    pub matrices: Option<(nat, nat, nat)>,
}

impl Quantizer {
    pub open spec fn valid(self) -> bool {
        &&& self.base < 256
        &&& -64 < self.y_dc < 64
        &&& -64 < self.u_dc < 64
        &&& -64 < self.u_ac < 64
        &&& -64 < self.v_dc < 64
        &&& -64 < self.v_ac < 64
        &&& self.matrices matches Some(m) ==> m.0 < 16 && m.1 < 16 && m.2 < 16
    }

    /// Whether no plane differs.
    pub open spec fn flat(self, r: SequenceHeader) -> bool {
        &&& self.y_dc == 0
        &&& !r.mono_chrome ==> {
            &&& self.u_dc == 0 && self.u_ac == 0
            &&& r.separate_uv_delta_q && self.different ==> self.v_dc == 0 && self.v_ac == 0
        }
    }
}

/// A difference: whether there is one, and it.
pub open spec fn difference(t: Seq<Field>, v: int) -> Seq<Field> {
    if v == 0 {
        t.push(flag(false))
    } else {
        writer::su(t.push(flag(true)), 7, v)
    }
}

/// The fields of the quantizer.
pub open spec fn quantizer(t: Seq<Field>, r: SequenceHeader, z: Quantizer) -> Seq<Field> {
    let t = difference(t.push((8, z.base)), z.y_dc);
    let t = if r.mono_chrome {
        t
    } else {
        let t = if r.separate_uv_delta_q {
            t.push(flag(z.different))
        } else {
            t
        };
        let t = difference(difference(t, z.u_dc), z.u_ac);
        if r.separate_uv_delta_q && z.different {
            difference(difference(t, z.v_dc), z.v_ac)
        } else {
            t
        }
    };
    match z.matrices {
        None => t.push(flag(false)),
        Some(m) => {
            let t = t.push(flag(true)).push((4, m.0)).push((4, m.1));
            if r.separate_uv_delta_q {
                t.push((4, m.2))
            } else {
                t
            }
        },
    }
}

proof fn lemma_difference(bits: Seq<bool>, t: Seq<Field>, v: int)
    requires
        fits(bits, difference(t, v)),
        -64 < v < 64,
    ensures
        fits(bits, t),
        quant::delta_q_at(behind(bits, t)) == (v as i64, behind(bits, difference(t, v))),
{
    broadcast use writer::group_reads;

    reveal(quant::delta_q_at);
    lemma2_to64();
    if v != 0 {
        writer::lemma_su(bits, t.push(flag(true)), 7, v);
    }
}

pub proof fn lemma_quantizer(bits: Seq<bool>, t: Seq<Field>, r: SequenceHeader, z: Quantizer)
    requires
        fits(bits, quantizer(t, r, z)),
        z.valid(),
    ensures
        fits(bits, t),
        quant::quant_at(behind(bits, t), r@).1 == behind(bits, quantizer(t, r, z)),
        ({
            let q = quant::quant_at(behind(bits, t), r@).0;
            &&& q.base_q_idx == z.base
            &&& z.flat(r) <==> q.delta_q_y_dc == 0 && q.delta_q_u_dc == 0 && q.delta_q_u_ac == 0
                && q.delta_q_v_dc == 0 && q.delta_q_v_ac == 0
        }),
{
    broadcast use writer::group_reads;

    reveal(quant::quant_at);
    reveal(quant::chroma_deltas_at);
    reveal(quant::qmatrix_at);
    lemma2_to64();
    let t0 = t.push((8, z.base));
    let t1 = difference(t0, z.y_dc);
    let t2 = if r.separate_uv_delta_q {
        t1.push(flag(z.different))
    } else {
        t1
    };
    let t3 = difference(t2, z.u_dc);
    let t4 = difference(t3, z.u_ac);
    let t5 = difference(t4, z.v_dc);
    let t6 = difference(t5, z.v_ac);
    let u = if r.mono_chrome {
        t1
    } else if r.separate_uv_delta_q && z.different {
        t6
    } else {
        t4
    };
    if let Some(m) = z.matrices {
        let w = u.push(flag(true)).push((4, m.0)).push((4, m.1));
        assert(fits(bits, w));
    }
    assert(fits(bits, u));
    if !r.mono_chrome {
        if r.separate_uv_delta_q && z.different {
            lemma_difference(bits, t5, z.v_ac);
            lemma_difference(bits, t4, z.v_dc);
        }
        lemma_difference(bits, t3, z.u_ac);
        lemma_difference(bits, t2, z.u_dc);
    }
    assert(fits(bits, t1));
    lemma_difference(bits, t0, z.y_dc);
}

/// Segmentation: what is updated and the features of each segment.
pub struct Segmentation {
    pub enabled: bool,
    pub update_map: bool,
    pub temporal_update: bool,
    pub update_data: bool,
    pub features: Seq<Seq<Option<int>>>,
}

/// How many bits feature `j` has beside a sign.
pub open spec fn feature_width(j: int) -> nat {
    if j == 0 {
        8
    } else if j < 5 {
        6
    } else if j == 5 {
        3
    } else {
        0
    }
}

impl Segmentation {
    pub open spec fn valid(self) -> bool {
        &&& self.features.len() == 8
        &&& forall|s: int| 0 <= s < 8 ==> segment_valid(#[trigger] self.features[s])
    }

    /// What segment `s` changes the quantizer index by.
    pub open spec fn offset(self, no_primary: bool, s: int) -> int {
        if self.enabled && (no_primary || self.update_data) && self.features[s][0] is Some {
            self.features[s][0]->Some_0
        } else {
            0
        }
    }
}

/// Whether the eight features of a segment can be written: the first five have
/// signs.
pub open spec fn segment_valid(list: Seq<Option<int>>) -> bool {
    &&& list.len() == 8
    &&& forall|j: int|
        0 <= j < 8 ==> ((#[trigger] list[j]) matches Some(v) ==> {
            &&& -(pow2(feature_width(j)) as int) < v < pow2(feature_width(j))
            &&& j >= 5 ==> v >= 0
        })
}

/// Feature `j`, where it is enabled.
pub open spec fn feature(t: Seq<Field>, j: int, v: Option<int>) -> Seq<Field> {
    match v {
        None => t.push(flag(false)),
        Some(v) => if j < 5 {
            writer::su(t.push(flag(true)), feature_width(j) + 1, v)
        } else {
            t.push(flag(true)).push((feature_width(j), v as nat))
        },
    }
}

/// The first `n` features of a segment.
pub open spec fn features(t: Seq<Field>, list: Seq<Option<int>>, n: nat) -> Seq<Field>
    decreases n,
{
    if n == 0 {
        t
    } else {
        feature(features(t, list, (n - 1) as nat), n - 1, list[n - 1])
    }
}

/// The features of the first `n` segments.
pub open spec fn segments(t: Seq<Field>, list: Seq<Seq<Option<int>>>, n: nat) -> Seq<Field>
    decreases n,
{
    if n == 0 {
        t
    } else {
        features(segments(t, list, (n - 1) as nat), list[n - 1], 8)
    }
}

/// The fields of segmentation: without a frame to inherit from, everything is
/// updated.
pub open spec fn segmentation(t: Seq<Field>, no_primary: bool, z: Segmentation) -> Seq<Field> {
    let t = t.push(flag(z.enabled));
    if !z.enabled {
        t
    } else {
        let t = if no_primary {
            t
        } else {
            let t = t.push(flag(z.update_map));
            let t = if z.update_map {
                t.push(flag(z.temporal_update))
            } else {
                t
            };
            t.push(flag(z.update_data))
        };
        if no_primary || z.update_data {
            segments(t, z.features, 8)
        } else {
            t
        }
    }
}

proof fn lemma_feature(bits: Seq<bool>, t: Seq<Field>, j: int, list: Seq<Option<int>>)
    requires
        fits(bits, feature(t, j, list[j])),
        0 <= j < 8,
        segment_valid(list),
    ensures
        fits(bits, t),
        quant::feature_at(behind(bits, t), j).1 == behind(bits, feature(t, j, list[j])),
        j == 0 ==> quant::feature_at(behind(bits, t), 0).0 == (match list[0] {
            Some(v) => v,
            None => 0,
        }),
{
    broadcast use writer::group_reads;

    reveal(quant::feature_at);
    lemma2_to64();
    if let Some(v) = list[j] {
        let t1 = t.push(flag(true));
        if j < 5 {
            writer::lemma_su(bits, t1, feature_width(j) + 1, v);
        } else {
            assert(fits(bits, t1.push((feature_width(j), v as nat))));
        }
        assert(fits(bits, t1));
    }
}

/// The features behind the first one.
proof fn lemma_features(bits: Seq<bool>, t: Seq<Field>, list: Seq<Option<int>>, n: nat)
    requires
        fits(bits, features(t, list, 8)),
        1 <= n <= 8,
        segment_valid(list),
    ensures
        fits(bits, features(t, list, n)),
        quant::features_at(behind(bits, features(t, list, n)), n) == behind(
            bits,
            features(t, list, 8),
        ),
    decreases 8 - n,
{
    reveal(quant::features_at);
    if n < 8 {
        lemma_features(bits, t, list, n + 1);
        lemma_feature(bits, features(t, list, n), n as int, list);
    }
}

proof fn lemma_segment(bits: Seq<bool>, t: Seq<Field>, list: Seq<Option<int>>)
    requires
        fits(bits, features(t, list, 8)),
        segment_valid(list),
    ensures
        fits(bits, t),
        quant::segment_at(behind(bits, t)).1 == behind(bits, features(t, list, 8)),
        quant::segment_at(behind(bits, t)).0 == (match list[0] {
            Some(v) => v,
            None => 0,
        }),
{
    reveal(quant::segment_at);
    lemma_features(bits, t, list, 1);
    assert(features(t, list, 0) == t);
    assert(features(t, list, 1) == feature(features(t, list, 0), 0, list[0]));
    lemma_feature(bits, t, 0, list);
}

proof fn lemma_segments(bits: Seq<bool>, t: Seq<Field>, list: Seq<Seq<Option<int>>>, n: nat)
    requires
        fits(bits, segments(t, list, n)),
        n <= 8,
        list.len() == 8,
        forall|s: int| 0 <= s < 8 ==> segment_valid(#[trigger] list[s]),
    ensures
        fits(bits, t),
        ({
            let (offsets, c) = quant::segments_at(behind(bits, t), n);
            &&& c == behind(bits, segments(t, list, n))
            &&& offsets.len() == n
            &&& forall|s: int|
                0 <= s < n ==> #[trigger] offsets[s] == (match list[s][0] {
                    Some(v) => v,
                    None => 0,
                })
        }),
    decreases n,
{
    reveal(quant::segments_at);
    if n > 0 {
        lemma_segment(bits, segments(t, list, (n - 1) as nat), list[n - 1]);
        lemma_segments(bits, t, list, (n - 1) as nat);
    }
}

pub proof fn lemma_segmentation(
    bits: Seq<bool>,
    t: Seq<Field>,
    no_primary: bool,
    z: Segmentation,
)
    requires
        fits(bits, segmentation(t, no_primary, z)),
        z.valid(),
    ensures
        fits(bits, t),
        ({
            let (offsets, c) = quant::segmentation_at(behind(bits, t), no_primary);
            &&& c == behind(bits, segmentation(t, no_primary, z))
            &&& offsets.len() == 8
            &&& forall|s: int|
                0 <= s < 8 ==> #[trigger] offsets[s] == z.offset(no_primary, s)
        }),
{
    broadcast use writer::group_reads;

    reveal(quant::segmentation_at);
    reveal(quant::update_data_at);
    let t1 = t.push(flag(z.enabled));
    let t2 = if no_primary {
        t1
    } else {
        let u = t1.push(flag(z.update_map));
        let u = if z.update_map {
            u.push(flag(z.temporal_update))
        } else {
            u
        };
        u.push(flag(z.update_data))
    };
    if z.enabled {
        if no_primary || z.update_data {
            lemma_segments(bits, t2, z.features, 8);
        }
        assert(fits(bits, t2));
    }
    assert(fits(bits, t1));
}

/// What blocks may change: the quantizer index and the filter levels.
pub struct Deltas {
    pub q_present: bool,
    pub q_res: nat,
    pub lf_present: bool,
    pub lf_res: nat,
    pub lf_multi: bool,
}

impl Deltas {
    pub open spec fn valid(self) -> bool {
        self.q_res < 4 && self.lf_res < 4
    }
}

/// The fields of what blocks may change.
pub open spec fn deltas(t: Seq<Field>, base: nat, intrabc: bool, z: Deltas) -> Seq<Field> {
    if base == 0 {
        t
    } else {
        let t = t.push(flag(z.q_present));
        if !z.q_present {
            t
        } else {
            let t = t.push((2, z.q_res));
            if intrabc {
                t
            } else {
                let t = t.push(flag(z.lf_present));
                if z.lf_present {
                    t.push((2, z.lf_res)).push(flag(z.lf_multi))
                } else {
                    t
                }
            }
        }
    }
}

pub proof fn lemma_deltas(bits: Seq<bool>, t: Seq<Field>, base: u64, intrabc: bool, z: Deltas)
    requires
        fits(bits, deltas(t, base as nat, intrabc, z)),
        z.valid(),
    ensures
        fits(bits, t),
        quant::deltas_at(behind(bits, t), base, intrabc) == behind(
            bits,
            deltas(t, base as nat, intrabc, z),
        ),
{
    broadcast use writer::group_reads;

    reveal(quant::deltas_at);
    lemma2_to64();
}

} // verus!
