//! Tile layout of the uncompressed header.

use vstd::prelude::*;
use vstd::arithmetic::power2::*;

use crate::bitio::{self, BitReader, Cur};
use crate::error::Error;
use crate::uheader::codes;
use crate::uheader::picture::{Geometry, MAX_DIMENSION};

verus! {

pub const MAX_TILE_WIDTH: u64 = 4096;

pub const MAX_TILE_AREA: u64 = 9_437_184;  // 4096 * 2304

pub const MAX_TILE_COLS: u64 = 64;

pub const MAX_TILE_ROWS: u64 = 64;

/// The smallest `k` with `blk * 2^k >= target`.
pub open spec fn tile_log2_of(blk: nat, target: nat) -> nat
    decreases
            if blk < target {
                target - blk
            } else {
                0
            },
{
    if blk >= target || blk == 0 {
        0
    } else {
        1 + tile_log2_of(2 * blk, target)
    }
}

/// The frame in superblocks, and how its tiles are bounded.
#[derive(Debug, Clone, Copy, PartialEq, Eq, Structural)]
pub struct TileGrid {
    pub sb_cols: u64,
    pub sb_rows: u64,
    pub max_tile_width_sb: u64,
    pub min_log2_tile_cols: u32,
    pub max_log2_tile_cols: u32,
    pub max_log2_tile_rows: u32,
    pub min_log2_tiles: u32,
}

pub open spec fn min_of(a: nat, b: nat) -> nat {
    if a < b {
        a
    } else {
        b
    }
}

/// The number of superblocks, 128 or 64 pixels wide, that cover `pixels`,
/// which are counted in whole blocks of eight.
pub open spec fn sb_count(pixels: u64, sb128: bool) -> nat {
    let whole = 8 * ((pixels + 7) / 8);
    if sb128 {
        ((whole + 127) / 128) as nat
    } else {
        ((whole + 63) / 64) as nat
    }
}

pub open spec fn grid_of(g: Geometry, sb128: bool) -> TileGrid {
    let cols = sb_count(g.frame_width, sb128);
    let rows = sb_count(g.frame_height, sb128);
    let width = if sb128 {
        MAX_TILE_WIDTH as nat / 128
    } else {
        MAX_TILE_WIDTH as nat / 64
    };
    let area = if sb128 {
        MAX_TILE_AREA as nat / 16384
    } else {
        MAX_TILE_AREA as nat / 4096
    };
    let min_cols = tile_log2_of(width, cols);
    let min_area = tile_log2_of(area, rows * cols);
    TileGrid {
        sb_cols: cols as u64,
        sb_rows: rows as u64,
        max_tile_width_sb: width as u64,
        min_log2_tile_cols: min_cols as u32,
        max_log2_tile_cols: tile_log2_of(1, min_of(cols, MAX_TILE_COLS as nat)) as u32,
        max_log2_tile_rows: tile_log2_of(1, min_of(rows, MAX_TILE_ROWS as nat)) as u32,
        min_log2_tiles: (if min_cols > min_area {
            min_cols
        } else {
            min_area
        }) as u32,
    }
}

/// Increment bits from `k` on: each one bit adds one, up to `max`.
pub open spec fn increments_at(c: Cur, k: nat, max: nat) -> (nat, Cur)
    decreases max - k,
{
    if k >= max {
        (k, c)
    } else {
        let (more, c) = c.flag();
        if more {
            increments_at(c, k + 1, max)
        } else {
            (k, c)
        }
    }
}

/// Explicit tile sizes from superblock `start` to `total`, each at most `max`:
/// the largest, and how many tiles there are. `widest` and `n` are those of the
/// tiles before.
pub open spec fn tile_sizes_at(c: Cur, start: nat, total: nat, max: nat, widest: nat, n: nat) -> (
    (nat, nat),
    Cur,
)
    decreases
            if start < total {
                total - start
            } else {
                0
            },
{
    if c.err is Some || start >= total {
        ((widest, n), c)
    } else {
        let (v, c) = codes::ns_at(c, min_of((total - start) as nat, max));
        let size = v + 1;
        tile_sizes_at(
            c,
            start + size,
            total,
            max,
            if size > widest {
                size
            } else {
                widest
            },
            n + 1,
        )
    }
}

/// The tile layout under uniform_tile_spacing_flag: log2 of columns and rows.
#[verifier::opaque]
pub open spec fn uniform_at(c: Cur, grid: TileGrid) -> ((nat, nat), Cur) {
    let (cols, c) = increments_at(
        c,
        grid.min_log2_tile_cols as nat,
        grid.max_log2_tile_cols as nat,
    );
    let min_rows = if grid.min_log2_tiles > cols {
        (grid.min_log2_tiles - cols) as nat
    } else {
        0
    };
    let (rows, c) = increments_at(c, min_rows, grid.max_log2_tile_rows as nat);
    ((cols, rows), c)
}

/// The tallest tile allowed beside tiles `widest` superblocks wide.
pub open spec fn max_tile_height(grid: TileGrid, widest: nat) -> nat {
    let all = (grid.sb_rows * grid.sb_cols) as nat;
    let area = if grid.min_log2_tiles > 0 {
        all / pow2((grid.min_log2_tiles + 1) as nat)
    } else {
        all
    };
    if area / widest < 1 {
        1
    } else {
        area / widest
    }
}

/// The tile layout with explicit sizes: log2 of columns and rows.
#[verifier::opaque]
pub open spec fn explicit_at(c: Cur, grid: TileGrid) -> ((nat, nat), Cur) {
    let ((widest, cols), c) = tile_sizes_at(
        c,
        0,
        grid.sb_cols as nat,
        grid.max_tile_width_sb as nat,
        0,
        0,
    );
    let c = if widest == 0 {
        c.fail(Error::EmptyFrame)
    } else {
        c
    };
    let ((_, rows), c) = tile_sizes_at(
        c,
        0,
        grid.sb_rows as nat,
        max_tile_height(grid, widest),
        0,
        0,
    );
    ((tile_log2_of(1, cols), tile_log2_of(1, rows)), c)
}

/// tile_info().
#[verifier::opaque]
pub open spec fn tile_info_at(c: Cur, g: Geometry, sb128: bool) -> Cur {
    let grid = grid_of(g, sb128);
    let (uniform, c) = c.flag();
    let ((cols, rows), c) = if uniform {
        uniform_at(c, grid)
    } else {
        explicit_at(c, grid)
    };
    if cols > 0 || rows > 0 {
        let (_, c) = c.f(cols + rows);
        c.f(2).1
    } else {
        c
    }
}

proof fn lemma_increments_sticky(c: Cur, k: nat, max: nat)
    requires
        c.err is Some,
    ensures
        increments_at(c, k, max) == (k, c),
{
}

pub broadcast proof fn uniform_sticky(c: Cur, grid: TileGrid)
    requires
        c.err is Some,
    ensures
        (#[trigger] uniform_at(c, grid)).1 == c,
{
    reveal(uniform_at);
    lemma_increments_sticky(c, grid.min_log2_tile_cols as nat, grid.max_log2_tile_cols as nat);
}

pub broadcast proof fn explicit_sticky(c: Cur, grid: TileGrid)
    requires
        c.err is Some,
    ensures
        (#[trigger] explicit_at(c, grid)).1 == c,
{
    reveal(explicit_at);
}

pub broadcast proof fn tile_info_sticky(c: Cur, g: Geometry, sb128: bool)
    requires
        c.err is Some,
    ensures
        (#[trigger] tile_info_at(c, g, sb128)) == c,
{
    broadcast use {uniform_sticky, explicit_sticky};

    reveal(tile_info_at);
}

proof fn lemma_tile_log2_bound(blk: nat, target: nat, k: nat)
    requires
        blk > 0,
        target <= blk * pow2(k),
    ensures
        tile_log2_of(blk, target) <= k,
    decreases k,
{
    lemma2_to64();
    if blk < target {
        if k == 0 {
            assert(blk * 1 == blk);
        } else {
            let m = (k - 1) as nat;
            lemma_pow2_unfold(k);
            assert(blk * (2 * pow2(m)) == (2 * blk) * pow2(m)) by (nonlinear_arith);
            lemma_tile_log2_bound(2 * blk, target, m);
        }
    }
}

fn tile_log2(blk_size: u64, target: u64) -> (k: u32)
    requires
        blk_size > 0,
        target <= pow2(62),
    ensures
        k == tile_log2_of(blk_size as nat, target as nat),
        k <= 62,
{
    proof {
        lemma_pow2_pos(62);
        assert(1 * pow2(62) <= blk_size * pow2(62)) by (nonlinear_arith)
            requires
                blk_size >= 1,
        ;
        lemma_tile_log2_bound(blk_size as nat, target as nat, 62);
        lemma2_to64_rest();
    }
    let mut k: u32 = 0;
    let mut blk: u64 = blk_size;
    while blk < target
        invariant
            0 < blk,
            target <= pow2(62),
            pow2(62) < 0x8000_0000_0000_0000,
            k + tile_log2_of(blk as nat, target as nat) == tile_log2_of(
                blk_size as nat,
                target as nat,
            ),
            tile_log2_of(blk_size as nat, target as nat) <= 62,
        decreases
                if blk < target {
                    target - blk
                } else {
                    0
                },
    {
        blk = blk * 2;
        k = k + 1;
    }
    k
}

fn superblocks(pixels: u64, sb128: bool) -> (r: u64)
    requires
        pixels <= MAX_DIMENSION,
    ensures
        r == sb_count(pixels, sb128),
        r <= 0x8000_0000,
{
    let whole: u64 = 8 * ((pixels + 7) / 8);
    if sb128 {
        (whole + 127) / 128
    } else {
        (whole + 63) / 64
    }
}

fn tile_grid(g: Geometry, sb128: bool) -> (r: TileGrid)
    requires
        g.fits(),
    ensures
        r == grid_of(g, sb128),
        r.sb_cols <= 0x8000_0000,
        r.sb_rows <= 0x8000_0000,
        0 < r.max_tile_width_sb <= 64,
        r.min_log2_tile_cols <= 26,
        r.max_log2_tile_cols <= 6,
        r.max_log2_tile_rows <= 6,
        r.min_log2_tiles <= 62,
{
    let sb_cols = superblocks(g.frame_width, sb128);
    let sb_rows = superblocks(g.frame_height, sb128);
    let max_tile_width_sb: u64 = if sb128 {
        MAX_TILE_WIDTH / 128
    } else {
        MAX_TILE_WIDTH / 64
    };
    let max_tile_area_sb: u64 = if sb128 {
        MAX_TILE_AREA / 16384
    } else {
        MAX_TILE_AREA / 4096
    };
    proof {
        lemma2_to64();
        lemma2_to64_rest();
        assert(sb_rows * sb_cols <= 0x8000_0000 * 0x8000_0000) by (nonlinear_arith)
            requires
                sb_rows <= 0x8000_0000,
                sb_cols <= 0x8000_0000,
        ;
        assert(pow2(62) == 0x4000_0000_0000_0000);
        lemma_tile_log2_bound(max_tile_width_sb as nat, sb_cols as nat, 26);
        lemma_tile_log2_bound(1, min_of(sb_cols as nat, 64), 6);
        lemma_tile_log2_bound(1, min_of(sb_rows as nat, 64), 6);
    }
    let min_log2_tile_cols = tile_log2(max_tile_width_sb, sb_cols);
    let max_log2_tile_cols = tile_log2(
        1,
        if sb_cols < MAX_TILE_COLS {
            sb_cols
        } else {
            MAX_TILE_COLS
        },
    );
    let max_log2_tile_rows = tile_log2(
        1,
        if sb_rows < MAX_TILE_ROWS {
            sb_rows
        } else {
            MAX_TILE_ROWS
        },
    );
    let by_area = tile_log2(max_tile_area_sb, sb_rows * sb_cols);
    let min_log2_tiles: u32 = if min_log2_tile_cols > by_area {
        min_log2_tile_cols
    } else {
        by_area
    };
    TileGrid {
        sb_cols,
        sb_rows,
        max_tile_width_sb,
        min_log2_tile_cols,
        max_log2_tile_cols,
        max_log2_tile_rows,
        min_log2_tiles,
    }
}

fn increments(r: &mut BitReader, min: u32, max: u32) -> (res: Result<u32, Error>)
    ensures
        match res {
            Ok(k) => bitio::reads(
                final(r)@,
                Ok::<nat, Error>(k as nat),
                increments_at(old(r)@, min as nat, max as nat),
            ) && (k == min || k <= max),
            Err(e) => increments_at(old(r)@, min as nat, max as nat).1.err == Some(e),
        },
{
    broadcast use bitio::lemma_reader_ok;

    let ghost start = r@;
    let mut k: u32 = min;
    while k < max
        invariant
            start == old(r)@,
            k == min || k <= max,
            increments_at(start, min as nat, max as nat) == increments_at(
                r@,
                k as nat,
                max as nat,
            ),
        decreases max - k,
    {
        if !r.flag()? {
            return Ok(k);
        }
        k = k + 1;
    }
    Ok(k)
}

fn tile_sizes(r: &mut BitReader, total: u64, max: u64) -> (res: Result<(u64, u32), Error>)
    requires
        total <= 0x8000_0000,
        max > 0,
    ensures
        match res {
            Ok((widest, n)) => bitio::reads(
                final(r)@,
                Ok::<(nat, nat), Error>((widest as nat, n as nat)),
                tile_sizes_at(old(r)@, 0, total as nat, max as nat, 0, 0),
            ) && n <= total && widest <= total,
            Err(e) => tile_sizes_at(old(r)@, 0, total as nat, max as nat, 0, 0).1.err == Some(e),
        },
{
    broadcast use bitio::lemma_reader_ok;

    let ghost start = r@;
    let mut widest: u64 = 0;
    let mut at: u64 = 0;
    let mut n: u32 = 0;
    proof {
        lemma2_to64_rest();
        lemma2_to64();
    }
    while at < total
        invariant
            start == old(r)@,
            total <= 0x8000_0000,
            max > 0,
            pow2(62) > 0x8000_0000,
            n <= at <= total,
            widest <= total,
            tile_sizes_at(start, 0, total as nat, max as nat, 0, 0) == tile_sizes_at(
                r@,
                at as nat,
                total as nat,
                max as nat,
                widest as nat,
                n as nat,
            ),
        decreases total - at,
    {
        let left: u64 = total - at;
        proof {
            reveal_with_fuel(tile_sizes_at, 2);
            bitio::lemma_reader_ok(*r);
            assert(min_of((total - at) as nat, max as nat) == (if left < max {
                left
            } else {
                max
            }));
        }
        let v = codes::ns(
            r,
            if left < max {
                left
            } else {
                max
            },
        )?;
        let size: u64 = v + 1;
        if size > widest {
            widest = size;
        }
        at = at + size;
        n = n + 1;
    }
    Ok((widest, n))
}

fn uniform_tiles(r: &mut BitReader, grid: TileGrid) -> (res: Result<(u32, u32), Error>)
    requires
        grid.min_log2_tile_cols <= 26,
        grid.max_log2_tile_cols <= 6,
        grid.max_log2_tile_rows <= 6,
        grid.min_log2_tiles <= 62,
    ensures
        match res {
            Ok((cols, rows)) => bitio::reads(
                final(r)@,
                Ok::<(nat, nat), Error>((cols as nat, rows as nat)),
                uniform_at(old(r)@, grid),
            ) && cols <= 26 && rows <= 62,
            Err(e) => uniform_at(old(r)@, grid).1.err == Some(e),
        },
{
    proof {
        reveal(uniform_at);
    }
    let ghost c = r@;
    let res = increments(r, grid.min_log2_tile_cols, grid.max_log2_tile_cols);
    proof {
        let (k, c1) = increments_at(
            c,
            grid.min_log2_tile_cols as nat,
            grid.max_log2_tile_cols as nat,
        );
        if c1.err is Some {
            let min_rows = if grid.min_log2_tiles > k {
                (grid.min_log2_tiles - k) as nat
            } else {
                0
            };
            lemma_increments_sticky(c1, min_rows, grid.max_log2_tile_rows as nat);
        }
    }
    let cols = res?;
    let min_rows: u32 = if grid.min_log2_tiles > cols {
        grid.min_log2_tiles - cols
    } else {
        0
    };
    let rows = increments(r, min_rows, grid.max_log2_tile_rows)?;
    Ok((cols, rows))
}

fn explicit_tiles(r: &mut BitReader, grid: TileGrid) -> (res: Result<(u32, u32), Error>)
    requires
        grid.sb_cols <= 0x8000_0000,
        grid.sb_rows <= 0x8000_0000,
        0 < grid.max_tile_width_sb,
        grid.min_log2_tiles <= 62,
    ensures
        match res {
            Ok((cols, rows)) => bitio::reads(
                final(r)@,
                Ok::<(nat, nat), Error>((cols as nat, rows as nat)),
                explicit_at(old(r)@, grid),
            ) && cols <= 62 && rows <= 62,
            Err(e) => explicit_at(old(r)@, grid).1.err == Some(e),
        },
{
    proof {
        reveal(explicit_at);
        lemma2_to64();
        lemma2_to64_rest();
    }
    let (widest, cols) = tile_sizes(r, grid.sb_cols, grid.max_tile_width_sb)?;
    if widest == 0 {
        return Err(Error::EmptyFrame);
    }
    assert(grid.sb_rows * grid.sb_cols <= 0x8000_0000 * 0x8000_0000) by (nonlinear_arith)
        requires
            grid.sb_rows <= 0x8000_0000,
            grid.sb_cols <= 0x8000_0000,
    ;
    let all: u64 = grid.sb_rows * grid.sb_cols;
    let area: u64 = if grid.min_log2_tiles > 0 {
        let shift: u64 = grid.min_log2_tiles as u64 + 1;
        proof {
            vstd::bits::lemma_u64_shr_is_div(all, shift);
        }
        all >> shift
    } else {
        all
    };
    let fit: u64 = area / widest;
    let max_tile_height_sb: u64 = if fit < 1 {
        1
    } else {
        fit
    };
    let (_, rows) = tile_sizes(r, grid.sb_rows, max_tile_height_sb)?;
    Ok((tile_log2(1, cols as u64), tile_log2(1, rows as u64)))
}

pub(crate) fn tile_info(r: &mut BitReader, g: Geometry, sb128: bool) -> (res: Result<(), Error>)
    requires
        g.fits(),
    ensures
        bitio::skips(final(r)@, res, tile_info_at(old(r)@, g, sb128)),
{
    broadcast use {bitio::lemma_reader_ok, uniform_sticky, explicit_sticky};

    proof {
        reveal(tile_info_at);
    }
    let grid = tile_grid(g, sb128);
    let (cols, rows) = if r.flag()? {
        uniform_tiles(r, grid)?
    } else {
        explicit_tiles(r, grid)?
    };
    if cols > 0 || rows > 0 {
        r.f((cols + rows) as usize)?;  // context_update_tile_id
        r.f(2)?;  // tile_size_bytes_minus_1
    }
    Ok(())
}

} // verus!
