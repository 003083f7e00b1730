//! Tiled memory layout: translating between linear indices and tiled
//! coordinates, for layouts that keep GPU-friendly locality.

use vstd::prelude::*;

verus! {

/// A tile's dimensions.
#[derive(Debug, Clone, Copy, PartialEq, Eq, Structural)]
pub struct TileConfig {
    pub width: usize,
    pub height: usize,
}

impl TileConfig {
    /// A common 8-by-8 tile for mobile GPUs.
    pub fn tile_8x8() -> (t: TileConfig)
        ensures
            t == (TileConfig { width: 8, height: 8 }),
    {
        TileConfig { width: 8, height: 8 }
    }

    /// A common 16-by-16 tile for mobile GPUs.
    pub fn tile_16x16() -> (t: TileConfig)
        ensures
            t == (TileConfig { width: 16, height: 16 }),
    {
        TileConfig { width: 16, height: 16 }
    }

    /// A common 32-by-32 tile for mobile GPUs.
    pub fn tile_32x32() -> (t: TileConfig)
        ensures
            t == (TileConfig { width: 32, height: 32 }),
    {
        TileConfig { width: 32, height: 32 }
    }

    /// A tile of the given dimensions.
    pub fn new(width: usize, height: usize) -> (t: TileConfig)
        ensures
            t == (TileConfig { width, height }),
    {
        TileConfig { width, height }
    }

    /// The number of cells a tile covers.
    pub fn area(&self) -> (r: usize)
        requires
            self.width * self.height <= usize::MAX,
        ensures
            r == self.width * self.height,
    {
        self.width * self.height
    }

    /// Whether the tile is square.
    pub fn is_square(&self) -> (r: bool)
        ensures
            r == (self.width == self.height),
    {
        self.width == self.height
    }
}

/// The tiled coordinates a linear index maps to.
pub open spec fn spec_linear_to_tiled(index: int, w: int, h: int, tw: int) -> (int, int) {
    let area = w * h;
    let tpr = tw / w;
    let ti = index / area;
    let wi = index % area;
    ((ti % tpr) * w + wi % w, (ti / tpr) * h + wi / w)
}

/// The linear index a pair of tiled coordinates maps to.
pub open spec fn spec_tiled_to_linear(x: int, y: int, w: int, h: int, tw: int) -> int {
    let tpr = tw / w;
    ((y / h) * tpr + x / w) * (w * h) + (y % h) * w + x % w
}

/// Convert a linear index to tiled coordinates.
pub fn linear_to_tiled(index: usize, tile: TileConfig, total_width: usize) -> (r: (usize, usize))
    requires
        tile.width > 0,
        tile.height > 0,
        tile.width <= total_width,
        tile.width * tile.height <= usize::MAX,
        spec_linear_to_tiled(index as int, tile.width as int, tile.height as int, total_width as int).0 <= usize::MAX,
        spec_linear_to_tiled(index as int, tile.width as int, tile.height as int, total_width as int).1 <= usize::MAX,
    ensures
        r.0 == spec_linear_to_tiled(
            index as int,
            tile.width as int,
            tile.height as int,
            total_width as int,
        ).0,
        r.1 == spec_linear_to_tiled(
            index as int,
            tile.width as int,
            tile.height as int,
            total_width as int,
        ).1,
{
    let w = tile.width;
    let h = tile.height;
    proof {
        assert(w * h >= 1) by (nonlinear_arith)
            requires
                w >= 1,
                h >= 1,
        ;
        assert(total_width as int / w as int >= 1) by (nonlinear_arith)
            requires
                w >= 1,
                total_width >= w,
        ;
    }
    let area = w * h;
    let tiles_per_row = total_width / w;
    let tile_index = index / area;
    let within_tile = index % area;

    let tile_row = tile_index / tiles_per_row;
    let tile_col = tile_index % tiles_per_row;

    let local_row = within_tile / w;
    let local_col = within_tile % w;

    proof {
        let gx = spec_linear_to_tiled(
            index as int,
            tile.width as int,
            tile.height as int,
            total_width as int,
        ).0;
        let gy = spec_linear_to_tiled(
            index as int,
            tile.width as int,
            tile.height as int,
            total_width as int,
        ).1;
        assert(tile_col * w + local_col == gx);
        assert(tile_row * h + local_row == gy);
    }
    let x = tile_col * w + local_col;
    let y = tile_row * h + local_row;

    (x, y)
}

/// Convert tiled coordinates to a linear index.
pub fn tiled_to_linear(x: usize, y: usize, tile: TileConfig, total_width: usize) -> (r: usize)
    requires
        tile.width > 0,
        tile.height > 0,
        tile.width * tile.height <= usize::MAX,
        spec_tiled_to_linear(x as int, y as int, tile.width as int, tile.height as int, total_width as int) <= usize::MAX,
    ensures
        r == spec_tiled_to_linear(
            x as int,
            y as int,
            tile.width as int,
            tile.height as int,
            total_width as int,
        ),
{
    let w = tile.width;
    let h = tile.height;
    let area = w * h;
    let tiles_per_row = total_width / w;

    let tile_col = x / w;
    let tile_row = y / h;

    let local_col = x % w;
    let local_row = y % h;

    proof {
        let g = spec_tiled_to_linear(
            x as int,
            y as int,
            w as int,
            h as int,
            total_width as int,
        );
        let ti = tile_row as int * tiles_per_row as int + tile_col as int;
        let wi = local_row as int * w as int + local_col as int;
        assert(w * h >= 1) by (nonlinear_arith)
            requires
                w >= 1,
                h >= 1,
        ;
        assert(g == ti * (area as int) + wi);
        assert(ti * (area as int) >= ti && wi >= 0) by (nonlinear_arith)
            requires
                area >= 1,
                ti >= 0,
                wi >= 0,
        ;
        assert(ti <= g);
        assert(tile_row as int * tiles_per_row as int <= ti);
    }
    let tile_index = tile_row * tiles_per_row + tile_col;
    let within_tile = local_row * w + local_col;

    tile_index * area + within_tile
}

} // verus!
