//! Splitting an output surface into tiles, and the layout of a tile's pixels.
//!
//! `split_surface` lays a grid of equal tiles over the surface. The grid is
//! described by the spec functions `grid_x`, `grid_y` and `grid_covers`, and
//! the lemmas below state what it covers: no pixel lies in two tiles, every
//! tile lies on the surface, and the whole surface is covered exactly when the
//! tile size divides it.
use vstd::prelude::*;

verus! {

/// The size of the tiles a surface is split into.
pub struct TileConfig {
    pub width: u32,
    pub height: u32,
}

impl TileConfig {
    pub fn new(width: u32, height: u32) -> (r: Self)
        ensures
            r.width == width,
            r.height == height,
    {
        Self { width, height }
    }
}

/// An axis-aligned rectangle of the surface with its own pixel buffer.
///
/// `(x, y)` is the tile's corner on the surface. The buffer holds one value
/// per pixel, column by column: local pixel `(i, j)` is at `i * height + j`.
pub struct Tile<P> {
    pub x: u32,
    pub y: u32,
    pub width: u32,
    pub height: u32,
    pub data: Vec<P>,
}

impl<P> Tile<P> {
    /// The buffer holds exactly one value per pixel.
    pub open spec fn wf(&self) -> bool {
        self.data@.len() == self.width * self.height
    }

    /// Position in the buffer of local pixel `(i, j)`.
    pub open spec fn index_of(&self, i: int, j: int) -> int {
        i * self.height + j
    }

    /// Every pixel of the buffer holds `fill`.
    pub open spec fn is_blank(&self, fill: P) -> bool {
        self.data@ == Seq::new((self.width * self.height) as nat, |_i: int| fill)
    }
}

impl<P: Copy> Tile<P> {
    /// A tile at `(x, y)` of `width` by `height` pixels, each set to `fill`.
    pub fn new(x: u32, y: u32, width: u32, height: u32, fill: P) -> (r: Self)
        requires
            width * height <= usize::MAX,
        ensures
            r.x == x,
            r.y == y,
            r.width == width,
            r.height == height,
            r.wf(),
            r.is_blank(fill),
    {
        let capacity = (width as usize) * (height as usize);
        let mut data: Vec<P> = Vec::with_capacity(capacity);
        let mut k: usize = 0;
        while k < capacity
            invariant
                k <= capacity,
                capacity == width * height,
                data@ == Seq::new(k as nat, |_i: int| fill),
            decreases capacity - k,
        {
            data.push(fill);
            k += 1;
            assert(data@ =~= Seq::new(k as nat, |_i: int| fill));
        }
        Self { x, y, width, height, data }
    }
}


impl<P> Tile<P> {
    /// The surface pixel that local pixel `(i, j)` is copied to.
    pub fn surface_point(&self, i: u32, j: u32) -> (r: (u32, u32))
        requires
            i < self.width,
            j < self.height,
            self.x + self.width <= u32::MAX,
            self.y + self.height <= u32::MAX,
        ensures
            r.0 == self.x + i,
            r.1 == self.y + j,
    {
        (self.x + i, self.y + j)
    }

    /// The image-plane row sampled for local row `j` of a tile on a surface
    /// `surface_height` pixels high. Surface rows run downward and image-plane
    /// rows upward, so the surface's top row shows the image's last row.
    pub fn image_row(&self, j: u32, surface_height: u32) -> (r: u32)
        requires
            j < self.height,
            self.y + self.height <= surface_height,
        ensures
            r == surface_height - (self.y + j + 1),
            r < surface_height,
    {
        surface_height - (self.y + j + 1)
    }
}

/// Position of local pixel `(i, j)` in a column-major buffer of `len`
/// values, `width` columns of `height` pixels each.
fn buffer_index(width: u32, height: u32, len: usize, i: u32, j: u32) -> (r: usize)
    requires
        i < width,
        j < height,
        len == width * height,
    ensures
        r == i * height + j,
        r < len,
{
    assert(i * height + j < width * height) by (nonlinear_arith)
        requires
            i < width,
            j < height,
    {
        assert((i + 1) * height <= width * height);
    }
    (i as usize) * (height as usize) + (j as usize)
}

impl<P: Copy> Tile<P> {
    /// The value of local pixel `(i, j)`.
    pub fn get(&self, i: u32, j: u32) -> (r: P)
        requires
            self.wf(),
            i < self.width,
            j < self.height,
        ensures
            r == self.data@[self.index_of(i as int, j as int)],
    {
        let index = buffer_index(self.width, self.height, self.data.len(), i, j);
        self.data[index]
    }

    /// Stores `value` as local pixel `(i, j)`; the rest of the tile is kept.
    pub fn set(&mut self, i: u32, j: u32, value: P)
        requires
            old(self).wf(),
            i < old(self).width,
            j < old(self).height,
        ensures
            final(self).wf(),
            final(self).x == old(self).x,
            final(self).y == old(self).y,
            final(self).width == old(self).width,
            final(self).height == old(self).height,
            final(self).data@ == old(self).data@.update(
                old(self).index_of(i as int, j as int),
                value,
            ),
    {
        let index = buffer_index(self.width, self.height, self.data.len(), i, j);
        self.data.set(index, value);
    }
}

/// Number of whole tiles of `tile_width` that fit across `width` pixels.
pub open spec fn grid_columns(width: int, tile_width: int) -> int {
    width / tile_width
}

/// Number of whole tiles of `tile_height` that fit down `height` pixels.
pub open spec fn grid_rows(height: int, tile_height: int) -> int {
    height / tile_height
}

/// Number of tiles in the grid over a `width` by `height` surface.
pub open spec fn grid_len(width: int, height: int, tile_width: int, tile_height: int) -> int {
    grid_columns(width, tile_width) * grid_rows(height, tile_height)
}

/// Left edge of the `k`-th tile of the grid; tiles are listed column by
/// column, `rows` tiles to a column.
pub open spec fn grid_x(k: int, rows: int, tile_width: int) -> int {
    (k / rows) * tile_width
}

/// Top edge of the `k`-th tile of the grid.
pub open spec fn grid_y(k: int, rows: int, tile_height: int) -> int {
    (k % rows) * tile_height
}

/// The `k`-th tile of the grid holds surface pixel `(px, py)`.
pub open spec fn grid_covers(
    k: int,
    rows: int,
    tile_width: int,
    tile_height: int,
    px: int,
    py: int,
) -> bool {
    &&& grid_x(k, rows, tile_width) <= px < grid_x(k, rows, tile_width) + tile_width
    &&& grid_y(k, rows, tile_height) <= py < grid_y(k, rows, tile_height) + tile_height
}

/// `t` is the blank `k`-th tile of the grid with `rows` tiles to a column.
pub open spec fn is_grid_tile<P>(
    t: Tile<P>,
    k: int,
    rows: int,
    tile_width: u32,
    tile_height: u32,
    fill: P,
) -> bool {
    &&& t.x == grid_x(k, rows, tile_width as int)
    &&& t.y == grid_y(k, rows, tile_height as int)
    &&& t.width == tile_width
    &&& t.height == tile_height
    &&& t.wf()
    &&& t.is_blank(fill)
}

/// Splits a `width` by `height` surface into a grid of `tile_width` by
/// `tile_height` tiles, column by column, each pixel set to `fill`.
///
/// Only whole tiles are made: where a dimension is not a multiple of the
/// tile's, the strip left over at the right or bottom edge gets no tile.
pub fn split_surface<P: Copy>(width: u32, height: u32, tile_width: u32, tile_height: u32, fill: P) -> (r: Vec<Tile<P>>)
    requires
        tile_width > 0,
        tile_height > 0,
        tile_width * tile_height <= usize::MAX,
    ensures
        r@.len() == grid_len(width as int, height as int, tile_width as int, tile_height as int),
        forall|k: int|
            0 <= k < r@.len() ==> #[trigger] is_grid_tile(
                r@[k],
                k,
                grid_rows(height as int, tile_height as int),
                tile_width,
                tile_height,
                fill,
            ),
{
    let tiles_col = width / tile_width;
    let tiles_row = height / tile_height;
    let ghost rows = tiles_row as int;
    let mut tiles: Vec<Tile<P>> = Vec::new();
    let mut x: u32 = 0;
    while x < tiles_col
        invariant
            x <= tiles_col,
            tiles_col == width / tile_width,
            tiles_row == height / tile_height,
            rows == tiles_row,
            tile_width > 0,
            tile_height > 0,
            tile_width * tile_height <= usize::MAX,
            tiles@.len() == x * rows,
            forall|k: int|
                0 <= k < tiles@.len() ==> #[trigger] is_grid_tile(
                    tiles@[k],
                    k,
                    rows,
                    tile_width,
                    tile_height,
                    fill,
                ),
        decreases tiles_col - x,
    {
        assert(x * tile_width < width) by (nonlinear_arith)
            requires
                x < tiles_col,
                tiles_col == width / tile_width,
                tile_width > 0,
        {
            assert(tiles_col * tile_width <= width);
            assert((x + 1) * tile_width <= tiles_col * tile_width);
        }
        let tile_x = x * tile_width;
        let mut y: u32 = 0;
        while y < tiles_row
            invariant
                x < tiles_col,
                y <= tiles_row,
                tiles_row == height / tile_height,
                rows == tiles_row,
                tile_x == x * tile_width,
                tile_width > 0,
                tile_height > 0,
                tile_width * tile_height <= usize::MAX,
                tiles@.len() == x * rows + y,
                forall|k: int|
                    0 <= k < tiles@.len() ==> #[trigger] is_grid_tile(
                        tiles@[k],
                        k,
                        rows,
                        tile_width,
                        tile_height,
                        fill,
                    ),
            decreases tiles_row - y,
        {
            assert(y * tile_height < height) by (nonlinear_arith)
                requires
                    y < tiles_row,
                    tiles_row == height / tile_height,
                    tile_height > 0,
            {
                assert(tiles_row * tile_height <= height);
                assert((y + 1) * tile_height <= tiles_row * tile_height);
            }
            let tile = Tile::new(tile_x, y * tile_height, tile_width, tile_height, fill);
            let ghost k = x * rows + y;
            assert(k / rows == x && k % rows == y) by (nonlinear_arith)
                requires
                    k == x * rows + y,
                    0 <= y < rows,
                    x >= 0,
            {
                vstd::arithmetic::div_mod::lemma_fundamental_div_mod_converse(k, rows, x as int, y as int);
            }
            tiles.push(tile);
            y += 1;
        }
        x += 1;
        assert(tiles@.len() == x * rows) by (nonlinear_arith)
            requires
                tiles@.len() == (x - 1) * rows + rows,
        {
        }
    }
    tiles
}

/// Index in the grid of the tile that would hold surface pixel `(px, py)`.
pub open spec fn grid_tile_at(px: int, py: int, rows: int, tile_width: int, tile_height: int) -> int {
    (px / tile_width) * rows + py / tile_height
}

/// A pixel of a grid tile determines that tile: it is the one at
/// `grid_tile_at`, and the pixel's row of tiles is a row of the grid.
proof fn lemma_grid_locate(k: int, rows: int, tile_width: int, tile_height: int, px: int, py: int)
    requires
        rows > 0,
        tile_width > 0,
        tile_height > 0,
        k >= 0,
        grid_covers(k, rows, tile_width, tile_height, px, py),
    ensures
        k == grid_tile_at(px, py, rows, tile_width, tile_height),
        px / tile_width == k / rows,
        0 <= py / tile_height < rows,
{
    let q = k / rows;
    let m = k % rows;
    vstd::arithmetic::div_mod::lemma_fundamental_div_mod(k, rows);
    vstd::arithmetic::div_mod::lemma_mod_pos_bound(k, rows);
    vstd::arithmetic::div_mod::lemma_fundamental_div_mod_converse(px, tile_width, q, px - q * tile_width);
    vstd::arithmetic::div_mod::lemma_fundamental_div_mod_converse(py, tile_height, m, py - m * tile_height);
    vstd::arithmetic::mul::lemma_mul_is_commutative(rows, q);
}

/// The grid has tiles only where it has rows of tiles, and the `k`-th tile
/// sits in a column of the grid.
proof fn lemma_grid_column(k: int, columns: int, rows: int)
    requires
        columns >= 0,
        rows >= 0,
        0 <= k < columns * rows,
    ensures
        rows > 0,
        0 <= k / rows < columns,
{
    if rows == 0 {
        assert(columns * rows == 0) by (nonlinear_arith)
            requires
                rows == 0,
        {
        }
    }
    vstd::arithmetic::div_mod::lemma_fundamental_div_mod(k, rows);
    vstd::arithmetic::div_mod::lemma_mod_pos_bound(k, rows);
    let q = k / rows;
    assert(0 <= q < columns) by (nonlinear_arith)
        requires
            k == rows * q + k % rows,
            0 <= k % rows < rows,
            0 <= k < columns * rows,
            rows > 0,
    {
    }
}

/// No pixel lies in two different tiles of the grid over a `width` by
/// `height` surface.
pub proof fn lemma_grid_disjoint(width: u32, height: u32, tile_width: u32, tile_height: u32)
    requires
        tile_width > 0,
        tile_height > 0,
    ensures
        forall|k1: int, k2: int, px: int, py: int|
            0 <= k1 < grid_len(width as int, height as int, tile_width as int, tile_height as int)
                && 0 <= k2 < grid_len(width as int, height as int, tile_width as int, tile_height as int)
                && #[trigger] grid_covers(
                k1,
                grid_rows(height as int, tile_height as int),
                tile_width as int,
                tile_height as int,
                px,
                py,
            ) && #[trigger] grid_covers(
                k2,
                grid_rows(height as int, tile_height as int),
                tile_width as int,
                tile_height as int,
                px,
                py,
            ) ==> k1 == k2,
{
    let columns = grid_columns(width as int, tile_width as int);
    let rows = grid_rows(height as int, tile_height as int);
    assert forall|k1: int, k2: int, px: int, py: int|
        0 <= k1 < grid_len(width as int, height as int, tile_width as int, tile_height as int)
            && 0 <= k2 < grid_len(width as int, height as int, tile_width as int, tile_height as int)
            && #[trigger] grid_covers(k1, rows, tile_width as int, tile_height as int, px, py)
            && #[trigger] grid_covers(k2, rows, tile_width as int, tile_height as int, px, py) implies k1
        == k2 by {
        lemma_grid_column(k1, columns, rows);
        lemma_grid_locate(k1, rows, tile_width as int, tile_height as int, px, py);
        lemma_grid_locate(k2, rows, tile_width as int, tile_height as int, px, py);
    }
}

/// Every pixel of every tile of the grid lies on the `width` by `height`
/// surface, inside the part of it that whole tiles fill.
pub proof fn lemma_grid_inside(width: u32, height: u32, tile_width: u32, tile_height: u32)
    requires
        tile_width > 0,
        tile_height > 0,
    ensures
        grid_columns(width as int, tile_width as int) * tile_width <= width,
        grid_rows(height as int, tile_height as int) * tile_height <= height,
        forall|k: int, px: int, py: int|
            0 <= k < grid_len(width as int, height as int, tile_width as int, tile_height as int)
                && #[trigger] grid_covers(
                k,
                grid_rows(height as int, tile_height as int),
                tile_width as int,
                tile_height as int,
                px,
                py,
            ) ==> 0 <= px < grid_columns(width as int, tile_width as int) * tile_width && 0 <= py
                < grid_rows(height as int, tile_height as int) * tile_height,
{
    let columns = grid_columns(width as int, tile_width as int);
    let rows = grid_rows(height as int, tile_height as int);
    let w = tile_width as int;
    let h = tile_height as int;
    vstd::arithmetic::div_mod::lemma_fundamental_div_mod(width as int, w);
    vstd::arithmetic::div_mod::lemma_mod_pos_bound(width as int, w);
    vstd::arithmetic::div_mod::lemma_fundamental_div_mod(height as int, h);
    vstd::arithmetic::div_mod::lemma_mod_pos_bound(height as int, h);
    vstd::arithmetic::mul::lemma_mul_is_commutative(columns, w);
    vstd::arithmetic::mul::lemma_mul_is_commutative(rows, h);
    assert forall|k: int, px: int, py: int|
        0 <= k < grid_len(width as int, height as int, w, h) && #[trigger] grid_covers(
            k,
            rows,
            w,
            h,
            px,
            py,
        ) implies 0 <= px < columns * w && 0 <= py < rows * h by {
        lemma_grid_column(k, columns, rows);
        lemma_grid_locate(k, rows, w, h, px, py);
        let q = k / rows;
        let m = py / h;
        assert(0 <= px < columns * w) by (nonlinear_arith)
            requires
                0 <= q < columns,
                q * w <= px < q * w + w,
                w > 0,
        {
            assert((q + 1) * w <= columns * w);
        }
        vstd::arithmetic::div_mod::lemma_fundamental_div_mod(py, h);
        vstd::arithmetic::div_mod::lemma_mod_pos_bound(k, rows);
        assert(0 <= py < rows * h) by (nonlinear_arith)
            requires
                0 <= m < rows,
                py == h * m + py % h,
                (k % rows) * h <= py,
                k % rows >= 0,
                0 <= py % h < h,
                h > 0,
        {
            assert((m + 1) * h <= rows * h);
        }
    }
}

/// Where the tile size divides both dimensions of the surface, every pixel of
/// the surface lies in a tile of the grid: the one at `grid_tile_at`.
pub proof fn lemma_grid_covers_surface(width: u32, height: u32, tile_width: u32, tile_height: u32)
    requires
        tile_width > 0,
        tile_height > 0,
        width % tile_width == 0,
        height % tile_height == 0,
    ensures
        forall|px: int, py: int|
            0 <= px < width && 0 <= py < height ==> {
                let k = #[trigger] grid_tile_at(
                    px,
                    py,
                    grid_rows(height as int, tile_height as int),
                    tile_width as int,
                    tile_height as int,
                );
                &&& 0 <= k < grid_len(width as int, height as int, tile_width as int, tile_height as int)
                &&& grid_covers(
                    k,
                    grid_rows(height as int, tile_height as int),
                    tile_width as int,
                    tile_height as int,
                    px,
                    py,
                )
            },
{
    let columns = grid_columns(width as int, tile_width as int);
    let rows = grid_rows(height as int, tile_height as int);
    let w = tile_width as int;
    let h = tile_height as int;
    vstd::arithmetic::div_mod::lemma_fundamental_div_mod(width as int, w);
    vstd::arithmetic::div_mod::lemma_fundamental_div_mod(height as int, h);
    assert forall|px: int, py: int| 0 <= px < width && 0 <= py < height implies {
        let k = #[trigger] grid_tile_at(px, py, rows, w, h);
        &&& 0 <= k < grid_len(width as int, height as int, w, h)
        &&& grid_covers(k, rows, w, h, px, py)
    } by {
        let q = px / w;
        let m = py / h;
        let k = q * rows + m;
        vstd::arithmetic::div_mod::lemma_fundamental_div_mod(px, w);
        vstd::arithmetic::div_mod::lemma_mod_pos_bound(px, w);
        vstd::arithmetic::div_mod::lemma_fundamental_div_mod(py, h);
        vstd::arithmetic::div_mod::lemma_mod_pos_bound(py, h);
        assert(0 <= q < columns && 0 <= m < rows) by (nonlinear_arith)
            requires
                px == w * q + px % w,
                0 <= px % w < w,
                py == h * m + py % h,
                0 <= py % h < h,
                0 <= px < w * columns,
                0 <= py < h * rows,
                w > 0,
                h > 0,
        {
            if q >= columns {
                assert(w * q >= w * columns);
            }
            if m >= rows {
                assert(h * m >= h * rows);
            }
            if q < 0 {
                assert(w * q <= -w);
            }
            if m < 0 {
                assert(h * m <= -h);
            }
        }
        assert(0 <= k < columns * rows) by (nonlinear_arith)
            requires
                0 <= q < columns,
                0 <= m < rows,
                k == q * rows + m,
        {
            assert((q + 1) * rows <= columns * rows);
        }
        vstd::arithmetic::div_mod::lemma_fundamental_div_mod_converse(k, rows, q, m);
        vstd::arithmetic::mul::lemma_mul_is_commutative(q, w);
        vstd::arithmetic::mul::lemma_mul_is_commutative(m, h);
    }
}

/// Where the tile size does not divide a dimension of a non-empty surface,
/// the strip left over at that edge gets no tile: the surface's last pixel
/// lies in no tile of the grid.
pub proof fn lemma_grid_leaves_remainder(width: u32, height: u32, tile_width: u32, tile_height: u32)
    requires
        tile_width > 0,
        tile_height > 0,
        width > 0,
        height > 0,
        width % tile_width != 0 || height % tile_height != 0,
    ensures
        forall|k: int|
            0 <= k < grid_len(width as int, height as int, tile_width as int, tile_height as int)
                ==> !#[trigger] grid_covers(
                k,
                grid_rows(height as int, tile_height as int),
                tile_width as int,
                tile_height as int,
                width - 1,
                height - 1,
            ),
{
    let w = tile_width as int;
    let h = tile_height as int;
    lemma_grid_inside(width, height, tile_width, tile_height);
    vstd::arithmetic::div_mod::lemma_fundamental_div_mod(width as int, w);
    vstd::arithmetic::div_mod::lemma_fundamental_div_mod(height as int, h);
    vstd::arithmetic::mul::lemma_mul_is_commutative(grid_columns(width as int, w), w);
    vstd::arithmetic::mul::lemma_mul_is_commutative(grid_rows(height as int, h), h);
}

} // verus!
