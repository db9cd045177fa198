//! The tile layout fields.

use vstd::arithmetic::power2::*;
use vstd::prelude::*;

use crate::bitio;
use crate::fields::{flag, Field};
use crate::uheader::picture::Geometry;
use crate::uheader::tiles;
use crate::uheader::writer::{self, behind, fits};

verus! {

/// Whether `k` doublings, and no fewer, take `blk` to `target`.
pub open spec fn doublings(blk: nat, target: nat, k: nat) -> bool {
    &&& blk * pow2(k) >= target
    &&& k > 0 ==> blk * pow2((k - 1) as nat) < target
}

/// How many doublings take `blk` to `target`.
pub open spec fn log2_up(blk: nat, target: nat) -> nat {
    choose|k: nat| doublings(blk, target, k)
}

/// How many superblocks cover so many pixels: blocks of four pixels come in
/// pairs, and 32 or 16 of them make a superblock.
pub open spec fn superblocks(pixels: nat, sb128: bool) -> nat {
    let blocks = 2 * ((pixels + 7) / 8);
    if sb128 {
        (blocks + 31) / 32
    } else {
        (blocks + 15) / 16
    }
}

/// The smaller of two numbers.
pub open spec fn least(a: nat, b: nat) -> nat {
    if a <= b {
        a
    } else {
        b
    }
}

/// The larger of two numbers.
pub open spec fn most(a: nat, b: nat) -> nat {
    if a >= b {
        a
    } else {
        b
    }
}

/// What a frame of `cols` by `rows` superblocks allows: tiles are at most 4096
/// pixels wide, cover at most 4096 by 2304 pixels, and there are at most 64 in
/// each direction.
pub struct Limits {
    pub cols: nat,
    pub rows: nat,
    pub max_width: nat,
    pub min_cols_log2: nat,
    pub max_cols_log2: nat,
    pub max_rows_log2: nat,
    pub min_log2: nat,
}

pub open spec fn limits(width: nat, height: nat, sb128: bool) -> Limits {
    let cols = superblocks(width, sb128);
    let rows = superblocks(height, sb128);
    let side: nat = if sb128 {
        128
    } else {
        64
    };
    let max_width = 4096nat / side;
    let max_area = (4096nat * 2304nat) / (side * side);
    Limits {
        cols,
        rows,
        max_width,
        min_cols_log2: log2_up(max_width, cols),
        max_cols_log2: log2_up(1, least(cols, 64)),
        max_rows_log2: log2_up(1, least(rows, 64)),
        min_log2: most(log2_up(max_width, cols), log2_up(max_area, rows * cols)),
    }
}

/// A tile layout: uniform, told by two exponents, or explicit, told by the size
/// of each column and row in superblocks.
pub struct Layout {
    pub uniform: bool,
    pub cols_log2: nat,
    pub rows_log2: nat,
    pub widths: Seq<nat>,
    pub heights: Seq<nat>,
    pub context_tile: nat,
    pub size_bytes_minus_1: nat,
}

/// The sum of the first `n` sizes.
pub open spec fn sum(list: Seq<nat>, n: int) -> nat
    decreases n,
{
    if n <= 0 {
        0
    } else {
        sum(list, n - 1) + list[n - 1]
    }
}

/// The largest of the first `n` sizes.
pub open spec fn largest(list: Seq<nat>, n: int) -> nat
    decreases n,
{
    if n <= 0 {
        0
    } else {
        most(largest(list, n - 1), list[n - 1])
    }
}

/// Whether the sizes make up `total`, none of them zero or above `max`.
pub open spec fn divides(list: Seq<nat>, total: nat, max: nat) -> bool {
    &&& sum(list, list.len() as int) == total
    &&& forall|i: int| 0 <= i < list.len() ==> 1 <= #[trigger] list[i] <= max
}

/// How high a tile may be where the widest column is `widest` superblocks wide.
pub open spec fn max_height(m: Limits, widest: nat) -> nat {
    let all = m.rows * m.cols;
    let area = if m.min_log2 > 0 {
        all / pow2(m.min_log2 + 1)
    } else {
        all
    };
    most(area / widest, 1)
}

impl Layout {
    /// The exponents of the number of columns and rows.
    pub open spec fn exponents(self) -> (nat, nat) {
        if self.uniform {
            (self.cols_log2, self.rows_log2)
        } else {
            (log2_up(1, self.widths.len()), log2_up(1, self.heights.len()))
        }
    }

    pub open spec fn valid(self, m: Limits) -> bool {
        let (cols, rows) = self.exponents();
        &&& if self.uniform {
            let min_rows = if m.min_log2 > cols {
                (m.min_log2 - cols) as nat
            } else {
                0
            };
            &&& m.min_cols_log2 <= cols <= most(m.min_cols_log2, m.max_cols_log2)
            &&& min_rows <= rows <= most(min_rows, m.max_rows_log2)
        } else {
            &&& self.widths.len() > 0
            &&& divides(self.widths, m.cols, m.max_width)
            &&& divides(
                self.heights,
                m.rows,
                max_height(m, largest(self.widths, self.widths.len() as int)),
            )
        }
        &&& cols + rows <= 64
        &&& self.context_tile < pow2(cols + rows)
        &&& self.size_bytes_minus_1 < 4
    }
}

/// `k` one bits.
pub open spec fn ones(t: Seq<Field>, k: nat) -> Seq<Field>
    decreases k,
{
    if k == 0 {
        t
    } else {
        ones(t, (k - 1) as nat).push(flag(true))
    }
}

/// A number from `low` up: a one bit for each step, and a zero bit where there
/// could be another.
pub open spec fn steps(t: Seq<Field>, low: nat, v: nat, high: nat) -> Seq<Field> {
    let t = ones(t, (v - low) as nat);
    if v < high {
        t.push(flag(false))
    } else {
        t
    }
}

/// The first `n` sizes, each below what is left and what is allowed.
pub open spec fn sizes(t: Seq<Field>, list: Seq<nat>, total: nat, max: nat, n: nat) -> Seq<Field>
    decreases n,
{
    if n == 0 {
        t
    } else {
        let left = (total - sum(list, n - 1)) as nat;
        writer::ns(
            sizes(t, list, total, max, (n - 1) as nat),
            least(left, max),
            (list[n - 1] - 1) as nat,
        )
    }
}

/// The fields of the tile layout.
pub open spec fn layout(t: Seq<Field>, m: Limits, z: Layout) -> Seq<Field> {
    let (cols, rows) = z.exponents();
    let t = t.push(flag(z.uniform));
    let t = if z.uniform {
        let t = steps(t, m.min_cols_log2, cols, m.max_cols_log2);
        let min_rows = if m.min_log2 > cols {
            (m.min_log2 - cols) as nat
        } else {
            0
        };
        steps(t, min_rows, rows, m.max_rows_log2)
    } else {
        let t = sizes(t, z.widths, m.cols, m.max_width, z.widths.len());
        let max = max_height(m, largest(z.widths, z.widths.len() as int));
        sizes(t, z.heights, m.rows, max, z.heights.len())
    };
    if cols > 0 || rows > 0 {
        t.push((cols + rows, z.context_tile)).push((2, z.size_bytes_minus_1))
    } else {
        t
    }
}

proof fn lemma_doublings_once(blk: nat, target: nat, a: nat, b: nat)
    requires
        doublings(blk, target, a),
        doublings(blk, target, b),
    ensures
        a == b,
{
    if a < b {
        bitio::lemma_pow2_monotone(a, (b - 1) as nat);
        assert(blk * pow2(a) <= blk * pow2((b - 1) as nat)) by (nonlinear_arith)
            requires
                pow2(a) <= pow2((b - 1) as nat),
        ;
    } else if b < a {
        bitio::lemma_pow2_monotone(b, (a - 1) as nat);
        assert(blk * pow2(b) <= blk * pow2((a - 1) as nat)) by (nonlinear_arith)
            requires
                pow2(b) <= pow2((a - 1) as nat),
        ;
    }
}

proof fn lemma_tile_log2(blk: nat, target: nat)
    requires
        blk > 0,
    ensures
        doublings(blk, target, tiles::tile_log2_of(blk, target)),
        log2_up(blk, target) == tiles::tile_log2_of(blk, target),
    decreases
            if blk < target {
                target - blk
            } else {
                0
            },
{
    let k = tiles::tile_log2_of(blk, target);
    lemma2_to64();
    if blk < target {
        lemma_tile_log2(2 * blk, target);
        let j = (k - 1) as nat;
        lemma_pow2_unfold(k);
        assert(blk * pow2(k) == 2 * blk * pow2(j)) by (nonlinear_arith)
            requires
                pow2(k) == 2 * pow2(j),
        ;
        if j > 0 {
            lemma_pow2_unfold(j);
            assert(blk * pow2(j) == 2 * blk * pow2((j - 1) as nat)) by (nonlinear_arith)
                requires
                    pow2(j) == 2 * pow2((j - 1) as nat),
            ;
        } else {
            assert(blk * pow2(0) == blk) by (nonlinear_arith)
                requires
                    pow2(0) == 1,
            ;
        }
    } else {
        assert(blk * pow2(0) == blk) by (nonlinear_arith)
            requires
                pow2(0) == 1,
        ;
    }
    assert(doublings(blk, target, k));
    lemma_doublings_once(blk, target, k, log2_up(blk, target));
}

/// Doublings are few.
proof fn lemma_log2_small(blk: nat, target: nat)
    requires
        blk > 0,
        target <= 0x1_0000_0000,
    ensures
        log2_up(blk, target) <= 32,
{
    lemma_tile_log2(blk, target);
    let k = log2_up(blk, target);
    lemma2_to64();
    if k > 32 {
        bitio::lemma_pow2_monotone(32, (k - 1) as nat);
        assert(blk * pow2((k - 1) as nat) >= pow2(32)) by (nonlinear_arith)
            requires
                blk >= 1,
                pow2((k - 1) as nat) >= pow2(32),
        ;
    }
}

proof fn lemma_grid(g: Geometry, sb128: bool)
    requires
        g.frame_width <= 65536,
        g.frame_height <= 65536,
    ensures
        ({
            let m = limits(g.frame_width as nat, g.frame_height as nat, sb128);
            let grid = tiles::grid_of(g, sb128);
            &&& grid.sb_cols == m.cols
            &&& grid.sb_rows == m.rows
            &&& grid.max_tile_width_sb == m.max_width
            &&& grid.min_log2_tile_cols == m.min_cols_log2
            &&& grid.max_log2_tile_cols == m.max_cols_log2
            &&& grid.max_log2_tile_rows == m.max_rows_log2
            &&& grid.min_log2_tiles == m.min_log2
            &&& m.cols <= 1024
            &&& m.rows <= 1024
            &&& m.max_width <= 64
        }),
{
    let m = limits(g.frame_width as nat, g.frame_height as nat, sb128);
    let w = (g.frame_width + 7) / 8;
    let h = (g.frame_height + 7) / 8;
    assert((8 * w + 127) / 128 == (2 * w + 31) / 32);
    assert((8 * w + 63) / 64 == (2 * w + 15) / 16);
    assert((8 * h + 127) / 128 == (2 * h + 31) / 32);
    assert((8 * h + 63) / 64 == (2 * h + 15) / 16);
    assert(m.rows * m.cols <= 1024 * 1024) by (nonlinear_arith)
        requires
            m.rows <= 1024,
            m.cols <= 1024,
    ;
    let side: nat = if sb128 {
        128
    } else {
        64
    };
    assert(side * side == if sb128 {
        16384nat
    } else {
        4096
    });
    let area = (4096nat * 2304nat) / (side * side);
    if sb128 {
        assert(area == 9_437_184nat / 16384);
    } else {
        assert(area == 9_437_184nat / 4096);
    }
    lemma_tile_log2(m.max_width, m.cols);
    lemma_tile_log2(area, m.rows * m.cols);
    lemma_tile_log2(1, least(m.cols, 64));
    lemma_tile_log2(1, least(m.rows, 64));
    lemma_log2_small(m.max_width, m.cols);
    lemma_log2_small(area, m.rows * m.cols);
    lemma_log2_small(1, least(m.cols, 64));
    lemma_log2_small(1, least(m.rows, 64));
}

proof fn lemma_ones(bits: Seq<bool>, t: Seq<Field>, k: nat)
    requires
        fits(bits, ones(t, k)),
    ensures
        fits(bits, t),
    decreases k,
{
    broadcast use writer::group_reads;

    if k > 0 {
        lemma_ones(bits, t, (k - 1) as nat);
    }
}

/// From step `k` on.
proof fn lemma_steps_from(bits: Seq<bool>, t: Seq<Field>, low: nat, v: nat, high: nat, k: nat)
    requires
        fits(bits, steps(t, low, v, high)),
        low <= k <= v,
        v <= most(low, high),
    ensures
        fits(bits, ones(t, (k - low) as nat)),
        tiles::increments_at(behind(bits, ones(t, (k - low) as nat)), k, high) == (
            v,
            behind(bits, steps(t, low, v, high)),
        ),
    decreases v - k,
{
    broadcast use writer::group_reads;

    if k < v {
        lemma_steps_from(bits, t, low, v, high, k + 1);
        assert(ones(t, (k + 1 - low) as nat) == ones(t, (k - low) as nat).push(flag(true)));
    }
}

proof fn lemma_steps(bits: Seq<bool>, t: Seq<Field>, low: nat, v: nat, high: nat)
    requires
        fits(bits, steps(t, low, v, high)),
        low <= v <= most(low, high),
    ensures
        fits(bits, t),
        tiles::increments_at(behind(bits, t), low, high) == (v, behind(bits, steps(t, low, v, high))),
{
    lemma_steps_from(bits, t, low, v, high, low);
    assert(ones(t, 0) == t);
}

proof fn lemma_sum(list: Seq<nat>, total: nat, max: nat, i: int)
    requires
        divides(list, total, max),
        0 <= i <= list.len(),
    ensures
        sum(list, i) <= total,
        sum(list, i) == total <==> i == list.len(),
        i < list.len() ==> list[i] <= total - sum(list, i),
    decreases list.len() - i,
{
    if i < list.len() {
        lemma_sum(list, total, max, i + 1);
    }
}

/// From size `i` on.
proof fn lemma_sizes_from(
    bits: Seq<bool>,
    t: Seq<Field>,
    list: Seq<nat>,
    total: nat,
    max: nat,
    i: nat,
)
    requires
        fits(bits, sizes(t, list, total, max, list.len())),
        divides(list, total, max),
        i <= list.len(),
        total <= 0x4000_0000,
    ensures
        fits(bits, sizes(t, list, total, max, i)),
        tiles::tile_sizes_at(
            behind(bits, sizes(t, list, total, max, i)),
            sum(list, i as int),
            total,
            max,
            largest(list, i as int),
            i,
        ) == (
            (largest(list, list.len() as int), list.len()),
            behind(bits, sizes(t, list, total, max, list.len())),
        ),
    decreases list.len() - i,
{
    lemma_sum(list, total, max, i as int);
    if i < list.len() {
        lemma_sizes_from(bits, t, list, total, max, i + 1);
        let left = (total - sum(list, i as int)) as nat;
        let n = least(left, max);
        assert(tiles::min_of(left, max) == n);
        writer::lemma_ns(
            bits,
            sizes(t, list, total, max, i),
            n,
            (list[i as int] - 1) as nat,
        );
        assert(largest(list, i + 1int) == if list[i as int] > largest(list, i as int) {
            list[i as int]
        } else {
            largest(list, i as int)
        });
        assert(sum(list, i + 1int) == sum(list, i as int) + list[i as int]);
    }
}

proof fn lemma_sizes(bits: Seq<bool>, t: Seq<Field>, list: Seq<nat>, total: nat, max: nat)
    requires
        fits(bits, sizes(t, list, total, max, list.len())),
        divides(list, total, max),
        total <= 0x4000_0000,
    ensures
        fits(bits, t),
        tiles::tile_sizes_at(behind(bits, t), 0, total, max, 0, 0) == (
            (largest(list, list.len() as int), list.len()),
            behind(bits, sizes(t, list, total, max, list.len())),
        ),
{
    lemma_sizes_from(bits, t, list, total, max, 0);
    assert(sizes(t, list, total, max, 0) == t);
}

pub proof fn lemma_layout(bits: Seq<bool>, t: Seq<Field>, g: Geometry, sb128: bool, z: Layout)
    requires
        g.frame_width <= 65536,
        g.frame_height <= 65536,
        fits(bits, layout(t, limits(g.frame_width as nat, g.frame_height as nat, sb128), z)),
        z.valid(limits(g.frame_width as nat, g.frame_height as nat, sb128)),
    ensures
        fits(bits, t),
        tiles::tile_info_at(behind(bits, t), g, sb128) == behind(
            bits,
            layout(t, limits(g.frame_width as nat, g.frame_height as nat, sb128), z),
        ),
{
    broadcast use writer::group_reads;

    reveal(tiles::tile_info_at);
    reveal(tiles::uniform_at);
    reveal(tiles::explicit_at);
    lemma2_to64();
    let m = limits(g.frame_width as nat, g.frame_height as nat, sb128);
    let grid = tiles::grid_of(g, sb128);
    lemma_grid(g, sb128);
    let (cols, rows) = z.exponents();
    let t1 = t.push(flag(z.uniform));
    if z.uniform {
        let min_rows = if m.min_log2 > cols {
            (m.min_log2 - cols) as nat
        } else {
            0
        };
        let t2 = steps(t1, m.min_cols_log2, cols, m.max_cols_log2);
        let t3 = steps(t2, min_rows, rows, m.max_rows_log2);
        assert(fits(bits, t3));
        lemma_steps(bits, t2, min_rows, rows, m.max_rows_log2);
        lemma_steps(bits, t1, m.min_cols_log2, cols, m.max_cols_log2);
    } else {
        let n = z.widths.len();
        let widest = largest(z.widths, n as int);
        let max = max_height(m, widest);
        assert(widest >= 1) by {
            assert(largest(z.widths, n as int) >= z.widths[n - 1]);
        }
        assert(max == tiles::max_tile_height(grid, widest)) by {
            assert(m.rows * m.cols == grid.sb_rows * grid.sb_cols);
        }
        let t2 = sizes(t1, z.widths, m.cols, m.max_width, n);
        let t3 = sizes(t2, z.heights, m.rows, max, z.heights.len());
        assert(fits(bits, t3));
        lemma_sizes(bits, t2, z.heights, m.rows, max);
        lemma_sizes(bits, t1, z.widths, m.cols, m.max_width);
        lemma_tile_log2(1, n);
        lemma_tile_log2(1, z.heights.len());
    }
    assert(fits(bits, t1));
}

} // verus!
