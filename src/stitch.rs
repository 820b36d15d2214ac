//! Placing tiles into one square canvas.

use vstd::prelude::*;
use crate::raster::{Raster, Rgb};

verus! {

/// The pixel of `bottom` at `(i, j)` once `top` is placed with its corner at
/// `(x, y)`.
pub open spec fn overlaid(bottom: Raster, top: Raster, x: int, y: int, i: int, j: int) -> Rgb {
    if top.contains(i - x, j - y) {
        top.pixel(i - x, j - y)
    } else {
        bottom.pixel(i, j)
    }
}

/// Places `top` onto `bottom` with its corner at `(x, y)`, replacing the pixels
/// it covers.
pub fn overlay(bottom: &mut Raster, top: &Raster, x: u32, y: u32)
    requires
        old(bottom).wf(),
        top.wf(),
        x as int + top.width as int <= old(bottom).width,
        y as int + top.height as int <= old(bottom).height,
    ensures
        final(bottom).wf(),
        final(bottom).width == old(bottom).width,
        final(bottom).height == old(bottom).height,
        forall|i: int, j: int|
            old(bottom).contains(i, j) ==> #[trigger] final(bottom).pixel(i, j) == overlaid(
                *old(bottom),
                *top,
                x as int,
                y as int,
                i,
                j,
            ),
{
    let mut b: u32 = 0;
    while b < top.height
        invariant
            bottom.wf(),
            top.wf(),
            bottom.width == old(bottom).width,
            bottom.height == old(bottom).height,
            b <= top.height,
            x as int + top.width as int <= bottom.width,
            y as int + top.height as int <= bottom.height,
            forall|i: int, j: int|
                old(bottom).contains(i, j) ==> #[trigger] bottom.pixel(i, j) == if j - y < b {
                    overlaid(*old(bottom), *top, x as int, y as int, i, j)
                } else {
                    old(bottom).pixel(i, j)
                },
        decreases top.height - b,
    {
        let mut a: u32 = 0;
        while a < top.width
            invariant
                bottom.wf(),
                top.wf(),
                bottom.width == old(bottom).width,
                bottom.height == old(bottom).height,
                b < top.height,
                a <= top.width,
                x as int + top.width as int <= bottom.width,
                y as int + top.height as int <= bottom.height,
                forall|i: int, j: int|
                    old(bottom).contains(i, j) ==> #[trigger] bottom.pixel(i, j) == if j - y < b || (j
                        - y == b && 0 <= i - x < a) {
                        overlaid(*old(bottom), *top, x as int, y as int, i, j)
                    } else {
                        old(bottom).pixel(i, j)
                    },
            decreases top.width - a,
        {
            let ghost prev = *bottom;
            let p = top.get_pixel(a, b);
            bottom.put_pixel(x + a, y + b, p);
            assert forall|i: int, j: int| old(bottom).contains(i, j) implies #[trigger] bottom.pixel(i, j)
                == if j - y < b || (j - y == b && 0 <= i - x < a + 1) {
                overlaid(*old(bottom), *top, x as int, y as int, i, j)
            } else {
                old(bottom).pixel(i, j)
            } by {
                assert(prev.contains(i, j));
            }
            a = a + 1;
        }
        b = b + 1;
    }
}

/// One decoded tile and its place `(x, y)` in the grid.
#[derive(Clone, Debug)]
pub struct Tile {
    pub x: u32,
    pub y: u32,
    pub image: Raster,
}

/// Whether tile `t`, of side `ts`, covers canvas pixel `(px, py)`.
pub open spec fn covers(t: Tile, ts: int, px: int, py: int) -> bool {
    t.x * ts <= px < t.x * ts + ts && t.y * ts <= py < t.y * ts + ts
}

/// Tiles of side `ts` for a grid of `n` by `n` cells: each lies in the grid,
/// has the tile size, and no two share a cell.
pub open spec fn valid_tiles(tiles: Seq<Tile>, n: int, ts: int) -> bool {
    &&& forall|k: int|
        0 <= k < tiles.len() ==> {
            let t = #[trigger] tiles[k];
            &&& t.x < n
            &&& t.y < n
            &&& t.image.wf()
            &&& t.image.width == ts
            &&& t.image.height == ts
        }
    &&& forall|k1: int, k2: int|
        0 <= k1 < tiles.len() && 0 <= k2 < tiles.len() && k1 != k2 ==> (#[trigger] tiles[k1].x
            != #[trigger] tiles[k2].x || tiles[k1].y != tiles[k2].y)
}

/// `r` is the `disk_dim`-square canvas with each tile of side `ts` at its
/// cell and black wherever no tile lies.
pub open spec fn is_stitch_of(r: Raster, tiles: Seq<Tile>, ts: int, disk_dim: int) -> bool {
    &&& r.wf()
    &&& r.width == disk_dim
    &&& r.height == disk_dim
    &&& forall|k: int, px: int, py: int|
        0 <= k < tiles.len() && r.contains(px, py) && covers(tiles[k], ts, px, py) ==> #[trigger] r.pixel(px, py)
            == #[trigger] tiles[k].image.pixel(px - tiles[k].x * ts, py - tiles[k].y * ts)
    &&& forall|px: int, py: int|
        r.contains(px, py) && (forall|k: int| 0 <= k < tiles.len() ==> !covers(#[trigger] tiles[k], ts, px, py))
            ==> #[trigger] r.pixel(px, py) == (0u8, 0u8, 0u8)
}

/// Two cells of side `ts` that share a pixel are the same cell.
proof fn lemma_cells_meet(a: int, b: int, ts: int, p: int)
    requires
        0 <= a,
        0 <= b,
        a * ts <= p < a * ts + ts,
        b * ts <= p < b * ts + ts,
    ensures
        a == b,
{
    if a < b {
        assert(a * ts + ts <= b * ts) by (nonlinear_arith)
            requires
                a + 1 <= b,
                0 <= a * ts + ts,
                a * ts <= p < a * ts + ts,
        ;
    } else if b < a {
        assert(b * ts + ts <= a * ts) by (nonlinear_arith)
            requires
                b + 1 <= a,
                b * ts <= p < b * ts + ts,
        ;
    }
}

/// A cell of a grid of `n` cells of side `d / n` ends within `d`.
proof fn lemma_cell_in_canvas(c: int, n: int, d: int)
    requires
        0 <= c < n,
        0 <= d,
    ensures
        0 <= c * (d / n),
        c * (d / n) + d / n <= n * (d / n),
        n * (d / n) <= d,
{
    let ts = d / n;
    assert(0 <= ts);
    assert(0 <= c * ts) by (nonlinear_arith)
        requires
            0 <= c,
            0 <= ts,
    ;
    assert(c * ts + ts <= n * ts) by (nonlinear_arith)
        requires
            c + 1 <= n,
            0 <= ts,
    ;
    assert(n * ts <= d) by (nonlinear_arith)
        requires
            ts == d / n,
            0 < n,
            0 <= d,
    ;
}

/// The side of one tile: the canvas side divided by the number of tiles per
/// side, rounded down.
pub fn tile_size(disk_dim: u32, tile_count: u32) -> (r: u32)
    requires
        tile_count >= 1,
    ensures
        r == disk_dim / tile_count,
{
    disk_dim / tile_count
}

/// Stitches the tiles of a `tile_count` by `tile_count` grid into a
/// `disk_dim`-square canvas: tile `(x, y)` goes to `(x * ts, y * ts)` where `ts`
/// is the tile size, and pixels that no tile covers stay black.
pub fn stitch(tiles: &Vec<Tile>, tile_count: u32, disk_dim: u32) -> (r: Raster)
    requires
        tile_count >= 1,
        3 * (disk_dim as int * disk_dim as int) <= usize::MAX,
        valid_tiles(tiles@, tile_count as int, (disk_dim / tile_count) as int),
    ensures
        is_stitch_of(r, tiles@, (disk_dim / tile_count) as int, disk_dim as int),
{
    let ts = tile_size(disk_dim, tile_count);
    let ghost tsi = ts as int;
    let mut canvas = Raster::new(disk_dim, disk_dim);
    let mut i: usize = 0;
    while i < tiles.len()
        invariant
            canvas.wf(),
            canvas.width == disk_dim,
            canvas.height == disk_dim,
            i <= tiles@.len(),
            tile_count >= 1,
            ts == disk_dim / tile_count,
            tsi == ts as int,
            valid_tiles(tiles@, tile_count as int, tsi),
            forall|k: int, px: int, py: int|
                0 <= k < i && canvas.contains(px, py) && covers(tiles@[k], tsi, px, py) ==> #[trigger] canvas.pixel(px, py)
                    == #[trigger] tiles@[k].image.pixel(px - tiles@[k].x * tsi, py - tiles@[k].y * tsi),
            forall|px: int, py: int|
                canvas.contains(px, py) && (forall|k: int| 0 <= k < i ==> !covers(#[trigger] tiles@[k], tsi, px, py))
                    ==> #[trigger] canvas.pixel(px, py) == (0u8, 0u8, 0u8),
        decreases tiles@.len() - i,
    {
        let t = &tiles[i];
        proof {
            lemma_cell_in_canvas(t.x as int, tile_count as int, disk_dim as int);
            lemma_cell_in_canvas(t.y as int, tile_count as int, disk_dim as int);
        }
        let ghost prev = canvas;
        overlay(&mut canvas, &t.image, t.x * ts, t.y * ts);
        assert forall|k: int, px: int, py: int|
            0 <= k < i + 1 && canvas.contains(px, py) && covers(tiles@[k], tsi, px, py) implies #[trigger] canvas.pixel(px, py)
                == #[trigger] tiles@[k].image.pixel(px - tiles@[k].x * tsi, py - tiles@[k].y * tsi) by {
            assert(prev.contains(px, py));
            if k < i && covers(tiles@[i as int], tsi, px, py) {
                lemma_cells_meet(tiles@[k].x as int, tiles@[i as int].x as int, tsi, px);
                lemma_cells_meet(tiles@[k].y as int, tiles@[i as int].y as int, tsi, py);
            }
        }
        assert forall|px: int, py: int|
            canvas.contains(px, py) && (forall|k: int| 0 <= k < i + 1 ==> !covers(#[trigger] tiles@[k], tsi, px, py))
                implies #[trigger] canvas.pixel(px, py) == (0u8, 0u8, 0u8) by {
            assert(prev.contains(px, py));
            assert(!covers(tiles@[i as int], tsi, px, py));
        }
        i = i + 1;
    }
    canvas
}

/// Whether `tiles` may be stitched as a grid of `n` by `n` cells of side
/// `tile_size`: each in the grid, of the tile size, and no two in one cell.
pub fn tiles_fit(tiles: &Vec<Tile>, n: u32, tile_size: u32) -> (r: bool)
    ensures
        r == valid_tiles(tiles@, n as int, tile_size as int),
{
    proof {
        assert(tile_size as int * tile_size as int <= 0x1_0000_0000 * 0x1_0000_0000) by (nonlinear_arith)
            requires
                tile_size <= 0x1_0000_0000,
        ;
    }
    let expected: u128 = 3 * (tile_size as u128 * tile_size as u128);
    let mut i: usize = 0;
    while i < tiles.len()
        invariant
            i <= tiles@.len(),
            expected == 3 * (tile_size as int * tile_size as int),
            forall|k: int|
                0 <= k < i ==> {
                    let t = #[trigger] tiles@[k];
                    &&& t.x < n
                    &&& t.y < n
                    &&& t.image.wf()
                    &&& t.image.width == tile_size
                    &&& t.image.height == tile_size
                },
            forall|k1: int, k2: int|
                0 <= k1 < i && 0 <= k2 < i && k1 != k2 ==> (#[trigger] tiles@[k1].x != #[trigger] tiles@[k2].x
                    || tiles@[k1].y != tiles@[k2].y),
        decreases tiles@.len() - i,
    {
        let t = &tiles[i];
        if t.x >= n || t.y >= n || t.image.width != tile_size || t.image.height != tile_size
            || t.image.data.len() as u128 != expected {
            return false;
        }
        let mut j: usize = 0;
        while j < i
            invariant
                i < tiles@.len(),
                j <= i,
                t == tiles@[i as int],
                forall|k: int| 0 <= k < j ==> (#[trigger] tiles@[k].x != t.x || tiles@[k].y != t.y),
            decreases i - j,
        {
            if tiles[j].x == t.x && tiles[j].y == t.y {
                assert(tiles@[j as int].x == tiles@[i as int].x);
                return false;
            }
            j = j + 1;
        }
        i = i + 1;
    }
    true
}

/// Every cell of an `n` by `n` grid, column by column: entry `k` is the cell
/// `(k / n, k % n)`.
pub fn grid_cells(n: u32) -> (r: Vec<(u32, u32)>)
    requires
        n as int * n as int <= usize::MAX,
    ensures
        r@.len() == n as int * n as int,
        forall|k: int| 0 <= k < r@.len() ==> #[trigger] r@[k] == ((k / n as int) as u32, (k % n as int) as u32),
{
    let mut cells: Vec<(u32, u32)> = Vec::new();
    let mut x: u32 = 0;
    while x < n
        invariant
            x <= n,
            n as int * n as int <= usize::MAX,
            cells@.len() == x as int * n as int,
            forall|k: int| 0 <= k < cells@.len() ==> #[trigger] cells@[k] == ((k / n as int) as u32, (k % n as int) as u32),
        decreases n - x,
    {
        let mut y: u32 = 0;
        while y < n
            invariant
                x < n,
                y <= n,
                n as int * n as int <= usize::MAX,
                cells@.len() == x as int * n as int + y,
                forall|k: int| 0 <= k < cells@.len() ==> #[trigger] cells@[k] == ((k / n as int) as u32, (k % n as int) as u32),
            decreases n - y,
        {
            proof {
                vstd::arithmetic::div_mod::lemma_fundamental_div_mod_converse(
                    x as int * n as int + y as int,
                    n as int,
                    x as int,
                    y as int,
                );
                assert(x as int * n as int + y < n as int * n as int) by (nonlinear_arith)
                    requires
                        x + 1 <= n,
                        y < n,
                ;
            }
            cells.push((x, y));
            y = y + 1;
        }
        proof {
            assert(x as int * n as int + n == (x + 1) as int * n as int) by (nonlinear_arith);
        }
        x = x + 1;
    }
    cells
}

/// Stitching does not depend on the order of the tiles: two canvases stitched
/// from the same tiles, listed in any order, are the same pixel for pixel.
pub proof fn lemma_stitch_order_independent(
    t1: Seq<Tile>,
    t2: Seq<Tile>,
    n: int,
    disk_dim: int,
    r1: Raster,
    r2: Raster,
)
    requires
        n >= 1,
        valid_tiles(t1, n, disk_dim / n),
        valid_tiles(t2, n, disk_dim / n),
        forall|t: Tile| t1.contains(t) <==> t2.contains(t),
        is_stitch_of(r1, t1, disk_dim / n, disk_dim),
        is_stitch_of(r2, t2, disk_dim / n, disk_dim),
    ensures
        r1.width == r2.width,
        r1.height == r2.height,
        forall|px: int, py: int| r1.contains(px, py) ==> #[trigger] r1.pixel(px, py) == r2.pixel(px, py),
{
    let ts = disk_dim / n;
    assert forall|px: int, py: int| r1.contains(px, py) implies #[trigger] r1.pixel(px, py) == r2.pixel(px, py) by {
        if exists|k: int| 0 <= k < t1.len() && covers(#[trigger] t1[k], ts, px, py) {
            let k = choose|k: int| 0 <= k < t1.len() && covers(#[trigger] t1[k], ts, px, py);
            assert(t1.contains(t1[k]));
            assert(t2.contains(t1[k]));
            let k2 = choose|k2: int| 0 <= k2 < t2.len() && t2[k2] == t1[k];
            assert(r2.pixel(px, py) == t2[k2].image.pixel(px - t2[k2].x * ts, py - t2[k2].y * ts));
        } else if exists|k: int| 0 <= k < t2.len() && covers(#[trigger] t2[k], ts, px, py) {
            let k = choose|k: int| 0 <= k < t2.len() && covers(#[trigger] t2[k], ts, px, py);
            assert(t2.contains(t2[k]));
            assert(t1.contains(t2[k]));
            let k1 = choose|k1: int| 0 <= k1 < t1.len() && t1[k1] == t2[k];
            assert(covers(t1[k1], ts, px, py));
        }
    }
}

/// Pixels beyond the last whole tile along either axis keep the canvas's
/// black fill.
pub proof fn lemma_stitch_margin_black(r: Raster, tiles: Seq<Tile>, n: int, disk_dim: int)
    requires
        n >= 1,
        disk_dim >= 0,
        valid_tiles(tiles, n, disk_dim / n),
        is_stitch_of(r, tiles, disk_dim / n, disk_dim),
    ensures
        r.width == disk_dim,
        r.height == disk_dim,
        forall|px: int, py: int|
            r.contains(px, py) && (px >= n * (disk_dim / n) || py >= n * (disk_dim / n)) ==> #[trigger] r.pixel(px, py)
                == (0u8, 0u8, 0u8),
{
    let ts = disk_dim / n;
    assert forall|px: int, py: int|
        r.contains(px, py) && (px >= n * ts || py >= n * ts) implies #[trigger] r.pixel(px, py) == (0u8, 0u8, 0u8) by {
        assert forall|k: int| 0 <= k < tiles.len() implies !covers(#[trigger] tiles[k], ts, px, py) by {
            lemma_cell_in_canvas(tiles[k].x as int, n, disk_dim);
            lemma_cell_in_canvas(tiles[k].y as int, n, disk_dim);
        }
    }
}

} // verus!
