//! The frame size and the reference fields.

use vstd::arithmetic::power2::*;
use vstd::prelude::*;

use crate::fields::{flag, Field};
use crate::seq_header::SequenceHeader;
use crate::uheader::picture::{self, Geometry};
use crate::uheader::writer::{self, behind, fits};
use crate::uheader::RefSlot;

verus! {

/// The size of a frame in pixels: as it is shown to other frames, how much its
/// width is reduced for coding, and as it is meant to be displayed.
pub struct Size {
    pub width: nat,
    pub height: nat,
    pub denominator: Option<nat>,
    pub display: Option<(nat, nat)>,
}

impl Size {
    pub open spec fn valid(self, r: SequenceHeader) -> bool {
        &&& 1 <= self.width <= 65536
        &&& 1 <= self.height <= 65536
        &&& self.denominator matches Some(d) ==> r.enable_superres && 9 <= d <= 16
        &&& self.display matches Some(d) ==> 1 <= d.0 <= 65536 && 1 <= d.1 <= 65536
    }

    /// The width that is coded: eighths of the full one, rounded.
    pub open spec fn coded_width(self) -> nat {
        match self.denominator {
            Some(d) => (self.width * 8 + d / 2) / d,
            None => self.width,
        }
    }

    /// The size to display.
    pub open spec fn displayed(self) -> (nat, nat) {
        match self.display {
            Some(d) => d,
            None => (self.width, self.height),
        }
    }
}

/// How much the width is reduced, where that is allowed.
pub open spec fn reduction(t: Seq<Field>, r: SequenceHeader, z: Size) -> Seq<Field> {
    if !r.enable_superres {
        t
    } else {
        match z.denominator {
            None => t.push(flag(false)),
            Some(d) => t.push(flag(true)).push((3, (d - 9) as nat)),
        }
    }
}

/// The fields of a size of its own: width and height where they are not the
/// sequence's, the reduction, and the size to display where it is another.
pub open spec fn size(t: Seq<Field>, r: SequenceHeader, over: bool, z: Size) -> Seq<Field> {
    let t = if over {
        t.push(((r.frame_width_bits_minus_1 + 1) as nat, (z.width - 1) as nat)).push(
            ((r.frame_height_bits_minus_1 + 1) as nat, (z.height - 1) as nat),
        )
    } else {
        t
    };
    let t = reduction(t, r, z);
    match z.display {
        None => t.push(flag(false)),
        Some(d) => t.push(flag(true)).push((16, (d.0 - 1) as nat)).push((16, (d.1 - 1) as nat)),
    }
}

/// Whether the size can be told: in the bits that the sequence gives it, or as
/// the sequence's.
pub open spec fn told(r: SequenceHeader, over: bool, z: Size) -> bool {
    if over {
        &&& z.width <= pow2((r.frame_width_bits_minus_1 + 1) as nat)
        &&& z.height <= pow2((r.frame_height_bits_minus_1 + 1) as nat)
    } else {
        z.width == r.max_frame_width && z.height == r.max_frame_height
    }
}

/// Whether the walk made out the size.
pub open spec fn made_out(g: Geometry, z: Size) -> bool {
    &&& g.frame_width == z.coded_width()
    &&& g.frame_height == z.height
    &&& g.upscaled_width == z.width
    &&& g.render_width == z.displayed().0
    &&& g.render_height == z.displayed().1
}

pub proof fn lemma_reduction(bits: Seq<bool>, t: Seq<Field>, r: SequenceHeader, z: Size)
    requires
        fits(bits, reduction(t, r, z)),
        z.valid(r),
    ensures
        fits(bits, t),
        picture::superres_at(behind(bits, t), r@, z.width as u64) == (
            z.coded_width() as u64,
            behind(bits, reduction(t, r, z)),
        ),
        z.coded_width() <= z.width,
{
    broadcast use writer::group_reads;

    reveal(picture::superres_at);
    lemma2_to64();
    let w = z.width;
    if let Some(d) = z.denominator {
        assert(0 <= (w * 8 + d / 2) / d <= w) by (nonlinear_arith)
            requires
                9 <= d <= 16,
                1 <= w,
        ;
    } else {
        assert((w * 8 + 4) / 8 == w);
    }
}

proof fn lemma_size_at(bits: Seq<bool>, t: Seq<Field>, r: SequenceHeader, over: bool, z: Size)
    requires
        r@.canonical(),
        z.valid(r),
        told(r, over, z),
        over ==> fits(
            bits,
            t.push(((r.frame_width_bits_minus_1 + 1) as nat, (z.width - 1) as nat)).push(
                ((r.frame_height_bits_minus_1 + 1) as nat, (z.height - 1) as nat),
            ),
        ),
    ensures
        over ==> fits(bits, t),
        picture::size_at(behind(bits, t), r@, over) == (
            (z.width as u64, z.height as u64),
            behind(
                bits,
                if over {
                    t.push(((r.frame_width_bits_minus_1 + 1) as nat, (z.width - 1) as nat)).push(
                        ((r.frame_height_bits_minus_1 + 1) as nat, (z.height - 1) as nat),
                    )
                } else {
                    t
                },
            ),
        ),
{
    broadcast use writer::group_reads;

    reveal(picture::size_at);
    assert(r@.size == r.size());
}

pub proof fn lemma_size(bits: Seq<bool>, t: Seq<Field>, r: SequenceHeader, over: bool, z: Size)
    requires
        r@.canonical(),
        fits(bits, size(t, r, over, z)),
        z.valid(r),
        told(r, over, z),
    ensures
        fits(bits, t),
        picture::geometry_at(behind(bits, t), r@, over).1 == behind(bits, size(t, r, over, z)),
        made_out(picture::geometry_at(behind(bits, t), r@, over).0, z),
        z.coded_width() <= 65536,
{
    broadcast use writer::group_reads;

    reveal(picture::geometry_at);
    reveal(picture::render_at);
    lemma2_to64();
    let t1 = if over {
        t.push(((r.frame_width_bits_minus_1 + 1) as nat, (z.width - 1) as nat)).push(
            ((r.frame_height_bits_minus_1 + 1) as nat, (z.height - 1) as nat),
        )
    } else {
        t
    };
    let t2 = reduction(t1, r, z);
    assert(fits(bits, t2));
    lemma_reduction(bits, t1, r, z);
    lemma_size_at(bits, t, r, over, z);
}

/// The zero bits of references whose size is not taken, the first `n`.
pub open spec fn passed(t: Seq<Field>, n: nat) -> Seq<Field>
    decreases n,
{
    if n == 0 {
        t
    } else {
        passed(t, (n - 1) as nat).push(flag(false))
    }
}

/// The fields of a size that may be taken from a reference.
pub open spec fn size_with_refs(
    t: Seq<Field>,
    r: SequenceHeader,
    taken: Option<nat>,
    z: Size,
) -> Seq<Field> {
    match taken {
        Some(i) => reduction(passed(t, i).push(flag(true)), r, z),
        None => size(passed(t, 7), r, true, z),
    }
}

pub proof fn lemma_passed(bits: Seq<bool>, t: Seq<Field>, n: nat)
    requires
        fits(bits, passed(t, n)),
    ensures
        fits(bits, t),
    decreases n,
{
    broadcast use writer::group_reads;

    if n > 0 {
        lemma_passed(bits, t, (n - 1) as nat);
    }
}

/// From reference `k` on.
proof fn lemma_found(bits: Seq<bool>, t: Seq<Field>, taken: Option<nat>, k: nat)
    requires
        taken matches Some(i) ==> k <= i < 7 && fits(bits, passed(t, i).push(flag(true))),
        taken is None ==> k <= 7 && fits(bits, passed(t, 7)),
    ensures
        fits(bits, passed(t, k)),
        picture::found_ref_at(behind(bits, passed(t, k)), k) == (
            taken,
            behind(
                bits,
                match taken {
                    Some(i) => passed(t, i).push(flag(true)),
                    None => passed(t, 7),
                },
            ),
        ),
    decreases 7 - k,
{
    broadcast use writer::group_reads;

    let last = match taken {
        Some(i) => i,
        None => 7,
    };
    if k < last {
        lemma_found(bits, t, taken, k + 1);
        assert(passed(t, k + 1) == passed(t, k).push(flag(false)));
    }
}

pub proof fn lemma_size_with_refs(
    bits: Seq<bool>,
    t: Seq<Field>,
    r: SequenceHeader,
    refs: Seq<u8>,
    slots: Seq<RefSlot>,
    taken: Option<nat>,
    z: Size,
)
    requires
        r@.canonical(),
        fits(bits, size_with_refs(t, r, taken, z)),
        z.valid(r),
        taken is None ==> told(r, true, z),
        taken matches Some(i) ==> {
            let slot = slots[refs[i as int] as int];
            &&& i < 7
            &&& z.width == slot.upscaled_width
            &&& z.height == slot.frame_height
            &&& z.displayed() == (slot.render_width as nat, slot.render_height as nat)
        },
    ensures
        fits(bits, t),
        picture::size_with_refs_at(behind(bits, t), r@, refs, slots).1 == behind(
            bits,
            size_with_refs(t, r, taken, z),
        ),
        made_out(picture::size_with_refs_at(behind(bits, t), r@, refs, slots).0, z),
        z.coded_width() <= 65536,
{
    broadcast use writer::group_reads;

    reveal(picture::size_with_refs_at);
    match taken {
        Some(i) => {
            lemma_reduction(bits, passed(t, i).push(flag(true)), r, z);
        },
        None => {
            lemma_size(bits, passed(t, 7), r, true, z);
        },
    }
    lemma_found(bits, t, taken, 0);
    assert(passed(t, 0) == t);
}

/// The first `n` reference slots.
pub open spec fn references(t: Seq<Field>, refs: Seq<nat>, n: nat) -> Seq<Field>
    decreases n,
{
    if n == 0 {
        t
    } else {
        references(t, refs, (n - 1) as nat).push((3, refs[n - 1]))
    }
}

pub proof fn lemma_references(bits: Seq<bool>, t: Seq<Field>, refs: Seq<nat>, n: nat)
    requires
        fits(bits, references(t, refs, n)),
        n <= refs.len(),
        forall|i: int| 0 <= i < refs.len() ==> #[trigger] refs[i] < 8,
    ensures
        fits(bits, t),
        picture::ref_idx_at(behind(bits, t), n).1 == behind(bits, references(t, refs, n)),
        picture::ref_idx_at(behind(bits, t), n).0.len() == n,
        forall|i: int|
            0 <= i < n ==> #[trigger] picture::ref_idx_at(behind(bits, t), n).0[i] == refs[i],
    decreases n,
{
    broadcast use writer::group_reads;

    lemma2_to64();
    if n > 0 {
        assert(fits(bits, references(t, refs, (n - 1) as nat)));
        lemma_references(bits, t, refs, (n - 1) as nat);
    }
}

} // verus!
