//! Downsampled analysis: the grid is partitioned into fixed-size square
//! blocks, per-direction particle counts and boundary counts are aggregated
//! per block, and each block is mapped to an RGB triple.

use vstd::prelude::*;
use vstd::arithmetic::div_mod::{
    lemma_div_is_ordered, lemma_fundamental_div_mod, lemma_fundamental_div_mod_converse_div,
};
use crate::cell::{is_boundary, particle_count, BOUNDARY, DOWN, FULL, LEFT, RIGHT, UP};
use crate::config::Config;
use crate::grid::{in_rect, Grid};

verus! {

/// Number of cells in the column [y0, y0 + h) at abscissa `x` whose value
/// has some bit of `mask` set (reading out-of-domain cells as the synthetic
/// boundary cell).
pub open spec fn flag_count_col(g: Grid, x: int, y0: int, h: int, mask: u8) -> int
    decreases h,
{
    if h <= 0 {
        0
    } else {
        flag_count_col(g, x, y0, h - 1, mask) + (if g.cell_at(x, y0 + h - 1) & mask != 0 {
            1int
        } else {
            0
        })
    }
}

/// Number of cells in the rectangle [x0, x0 + w) x [y0, y0 + h) whose value
/// has some bit of `mask` set.
pub open spec fn flag_count_rect(g: Grid, x0: int, y0: int, w: int, h: int, mask: u8) -> int
    decreases w,
{
    if w <= 0 {
        0
    } else {
        flag_count_rect(g, x0, y0, w - 1, h, mask) + flag_count_col(g, x0 + w - 1, y0, h, mask)
    }
}

/// Total number of directional particles in the rectangle: the four
/// per-direction counts summed.
pub open spec fn block_total(g: Grid, x0: int, y0: int, w: int, h: int) -> int {
    flag_count_rect(g, x0, y0, w, h, UP) + flag_count_rect(g, x0, y0, w, h, RIGHT)
        + flag_count_rect(g, x0, y0, w, h, DOWN) + flag_count_rect(g, x0, y0, w, h, LEFT)
}

/// Directional particles in one column, all four directions summed.
spec fn column_total(g: Grid, x: int, y0: int, h: int) -> int {
    flag_count_col(g, x, y0, h, UP) + flag_count_col(g, x, y0, h, RIGHT) + flag_count_col(
        g, x, y0, h, DOWN) + flag_count_col(g, x, y0, h, LEFT)
}

pub proof fn lemma_flag_count_col_bounds(g: Grid, x: int, y0: int, h: int, mask: u8)
    requires
        h >= 0,
    ensures
        0 <= flag_count_col(g, x, y0, h, mask) <= h,
    decreases h,
{
    if h > 0 {
        lemma_flag_count_col_bounds(g, x, y0, h - 1, mask);
    }
}

pub proof fn lemma_flag_count_rect_bounds(g: Grid, x0: int, y0: int, w: int, h: int, mask: u8)
    requires
        w >= 0,
        h >= 0,
    ensures
        0 <= flag_count_rect(g, x0, y0, w, h, mask) <= w * h,
    decreases w,
{
    if w > 0 {
        lemma_flag_count_rect_bounds(g, x0, y0, w - 1, h, mask);
        lemma_flag_count_col_bounds(g, x0 + w - 1, y0, h, mask);
        assert((w - 1) * h + h == w * h) by (nonlinear_arith);
    }
}

/// A single cell carrying the flag makes the column count positive.
proof fn lemma_flag_count_col_positive(g: Grid, x: int, y0: int, h: int, mask: u8, j: int)
    requires
        y0 <= j < y0 + h,
        g.cell_at(x, j) & mask != 0,
    ensures
        flag_count_col(g, x, y0, h, mask) >= 1,
    decreases h,
{
    if j == y0 + h - 1 {
        lemma_flag_count_col_bounds(g, x, y0, h - 1, mask);
    } else {
        lemma_flag_count_col_positive(g, x, y0, h - 1, mask, j);
    }
}

/// A single cell carrying the flag makes the rectangle count positive.
pub proof fn lemma_flag_count_rect_positive(
    g: Grid,
    x0: int,
    y0: int,
    w: int,
    h: int,
    mask: u8,
    i: int,
    j: int,
)
    requires
        x0 <= i < x0 + w,
        y0 <= j < y0 + h,
        g.cell_at(i, j) & mask != 0,
    ensures
        flag_count_rect(g, x0, y0, w, h, mask) >= 1,
    decreases w,
{
    if i == x0 + w - 1 {
        lemma_flag_count_col_positive(g, i, y0, h, mask, j);
        lemma_flag_count_rect_bounds(g, x0, y0, w - 1, h, mask);
    } else {
        lemma_flag_count_rect_positive(g, x0, y0, w - 1, h, mask, i, j);
        lemma_flag_count_col_bounds(g, x0 + w - 1, y0, h, mask);
    }
}

/// When every cell of the column carries the flag, the count is the height.
proof fn lemma_flag_count_col_all(g: Grid, x: int, y0: int, h: int, mask: u8)
    requires
        h >= 0,
        forall|j: int| y0 <= j < y0 + h ==> #[trigger] g.cell_at(x, j) & mask != 0,
    ensures
        flag_count_col(g, x, y0, h, mask) == h,
    decreases h,
{
    if h > 0 {
        lemma_flag_count_col_all(g, x, y0, h - 1, mask);
    }
}

/// When every cell of the rectangle carries the flag, the count is the area.
pub proof fn lemma_flag_count_rect_all(g: Grid, x0: int, y0: int, w: int, h: int, mask: u8)
    requires
        w >= 0,
        h >= 0,
        forall|i: int, j: int| x0 <= i < x0 + w && y0 <= j < y0 + h ==> #[trigger] g.cell_at(
            i, j) & mask != 0,
    ensures
        flag_count_rect(g, x0, y0, w, h, mask) == w * h,
    decreases w,
{
    if w > 0 {
        lemma_flag_count_rect_all(g, x0, y0, w - 1, h, mask);
        lemma_flag_count_col_all(g, x0 + w - 1, y0, h, mask);
        assert(flag_count_rect(g, x0, y0, w, h, mask) == flag_count_rect(g, x0, y0, w - 1, h,
            mask) + flag_count_col(g, x0 + w - 1, y0, h, mask));
        assert((w - 1) * h + h == w * h) by (nonlinear_arith);
    } else {
        assert(w * h == 0) by (nonlinear_arith)
            requires
                w == 0,
        ;
    }
}

/// When no cell of the column carries the flag, the count is zero.
proof fn lemma_flag_count_col_none(g: Grid, x: int, y0: int, h: int, mask: u8)
    requires
        h >= 0,
        forall|j: int| y0 <= j < y0 + h ==> #[trigger] g.cell_at(x, j) & mask == 0,
    ensures
        flag_count_col(g, x, y0, h, mask) == 0,
    decreases h,
{
    if h > 0 {
        lemma_flag_count_col_none(g, x, y0, h - 1, mask);
    }
}

/// When no cell of the rectangle carries the flag, the count is zero.
pub proof fn lemma_flag_count_rect_none(g: Grid, x0: int, y0: int, w: int, h: int, mask: u8)
    requires
        w >= 0,
        h >= 0,
        forall|i: int, j: int| x0 <= i < x0 + w && y0 <= j < y0 + h ==> #[trigger] g.cell_at(
            i, j) & mask == 0,
    ensures
        flag_count_rect(g, x0, y0, w, h, mask) == 0,
    decreases w,
{
    if w > 0 {
        lemma_flag_count_rect_none(g, x0, y0, w - 1, h, mask);
        lemma_flag_count_col_none(g, x0 + w - 1, y0, h, mask);
    }
}

/// Aggregate of one b x b tile of the grid: the per-direction particle
/// counts, the number of boundary-flagged cells, and the tile's position.
pub struct Block {
    pub up: usize,
    pub right: usize,
    pub down: usize,
    pub left: usize,
    pub boundary: usize,
    pub x: usize,
    pub y: usize,
    pub block_size: usize,
}

impl Block {
    /// Aggregate the tile whose corner cell is (block_size * x,
    /// block_size * y), counting each direction flag and the boundary flag
    /// over all member cells.
    pub fn new(x: usize, y: usize, block_size: usize, grid: &Grid) -> (b: Block)
        requires
            grid.wf(),
            block_size * (x + 1) <= isize::MAX,
            block_size * (y + 1) <= isize::MAX,
            block_size * block_size <= usize::MAX,
        ensures
            b.up == flag_count_rect(*grid, (block_size * x) as int, (block_size * y) as int,
                block_size as int, block_size as int, UP),
            b.right == flag_count_rect(*grid, (block_size * x) as int, (block_size * y) as int,
                block_size as int, block_size as int, RIGHT),
            b.down == flag_count_rect(*grid, (block_size * x) as int, (block_size * y) as int,
                block_size as int, block_size as int, DOWN),
            b.left == flag_count_rect(*grid, (block_size * x) as int, (block_size * y) as int,
                block_size as int, block_size as int, LEFT),
            b.boundary == flag_count_rect(*grid, (block_size * x) as int, (
                block_size * y) as int, block_size as int, block_size as int, BOUNDARY),
            b.x == x,
            b.y == y,
            b.block_size == block_size,
    {
        let b = block_size;
        proof {
            assert(b * x + b == b * (x + 1) && b * x <= b * (x + 1) && b * y + b == b * (y + 1)
                && b * y <= b * (y + 1)) by (nonlinear_arith);
        }
        let x0 = b * x;
        let y0 = b * y;
        let mut up: usize = 0;
        let mut right: usize = 0;
        let mut down: usize = 0;
        let mut left: usize = 0;
        let mut boundary: usize = 0;
        let mut cell_x = x0;
        while cell_x < x0 + b
            invariant
                grid.wf(),
                x0 == b * x,
                y0 == b * y,
                x0 + b <= isize::MAX,
                y0 + b <= isize::MAX,
                b * b <= usize::MAX,
                x0 <= cell_x <= x0 + b,
                up == flag_count_rect(*grid, x0 as int, y0 as int, cell_x - x0, b as int, UP),
                right == flag_count_rect(*grid, x0 as int, y0 as int, cell_x - x0, b as int,
                    RIGHT),
                down == flag_count_rect(*grid, x0 as int, y0 as int, cell_x - x0, b as int,
                    DOWN),
                left == flag_count_rect(*grid, x0 as int, y0 as int, cell_x - x0, b as int,
                    LEFT),
                boundary == flag_count_rect(*grid, x0 as int, y0 as int, cell_x - x0, b as int,
                    BOUNDARY),
            decreases x0 + b - cell_x,
        {
            let mut cell_y = y0;
            while cell_y < y0 + b
                invariant
                    grid.wf(),
                    x0 == b * x,
                    y0 == b * y,
                    x0 + b <= isize::MAX,
                    y0 + b <= isize::MAX,
                    b * b <= usize::MAX,
                    x0 <= cell_x < x0 + b,
                    y0 <= cell_y <= y0 + b,
                    up == flag_count_rect(*grid, x0 as int, y0 as int, cell_x - x0, b as int,
                        UP) + flag_count_col(*grid, cell_x as int, y0 as int, cell_y - y0, UP),
                    right == flag_count_rect(*grid, x0 as int, y0 as int, cell_x - x0,
                        b as int, RIGHT) + flag_count_col(*grid, cell_x as int, y0 as int,
                        cell_y - y0, RIGHT),
                    down == flag_count_rect(*grid, x0 as int, y0 as int, cell_x - x0, b as int,
                        DOWN) + flag_count_col(*grid, cell_x as int, y0 as int, cell_y - y0,
                        DOWN),
                    left == flag_count_rect(*grid, x0 as int, y0 as int, cell_x - x0, b as int,
                        LEFT) + flag_count_col(*grid, cell_x as int, y0 as int, cell_y - y0,
                        LEFT),
                    boundary == flag_count_rect(*grid, x0 as int, y0 as int, cell_x - x0,
                        b as int, BOUNDARY) + flag_count_col(*grid, cell_x as int, y0 as int,
                        cell_y - y0, BOUNDARY),
                decreases y0 + b - cell_y,
            {
                proof {
                    lemma_flag_count_rect_bounds(*grid, x0 as int, y0 as int, cell_x - x0,
                        b as int, UP);
                    lemma_flag_count_rect_bounds(*grid, x0 as int, y0 as int, cell_x - x0,
                        b as int, RIGHT);
                    lemma_flag_count_rect_bounds(*grid, x0 as int, y0 as int, cell_x - x0,
                        b as int, DOWN);
                    lemma_flag_count_rect_bounds(*grid, x0 as int, y0 as int, cell_x - x0,
                        b as int, LEFT);
                    lemma_flag_count_rect_bounds(*grid, x0 as int, y0 as int, cell_x - x0,
                        b as int, BOUNDARY);
                    lemma_flag_count_col_bounds(*grid, cell_x as int, y0 as int, cell_y - y0,
                        UP);
                    lemma_flag_count_col_bounds(*grid, cell_x as int, y0 as int, cell_y - y0,
                        RIGHT);
                    lemma_flag_count_col_bounds(*grid, cell_x as int, y0 as int, cell_y - y0,
                        DOWN);
                    lemma_flag_count_col_bounds(*grid, cell_x as int, y0 as int, cell_y - y0,
                        LEFT);
                    lemma_flag_count_col_bounds(*grid, cell_x as int, y0 as int, cell_y - y0,
                        BOUNDARY);
                    assert((cell_x - x0) * (b as int) + (cell_y - y0) < b * b) by (
                    nonlinear_arith)
                        requires
                            x0 <= cell_x < x0 + b,
                            y0 <= cell_y < y0 + b,
                    ;
                }
                let cell_in_block = grid.get(cell_x as isize, cell_y as isize);
                if cell_in_block & UP != 0 {
                    up = up + 1;
                }
                if cell_in_block & RIGHT != 0 {
                    right = right + 1;
                }
                if cell_in_block & DOWN != 0 {
                    down = down + 1;
                }
                if cell_in_block & LEFT != 0 {
                    left = left + 1;
                }
                if cell_in_block & BOUNDARY != 0 {
                    boundary = boundary + 1;
                }
                cell_y = cell_y + 1;
            }
            cell_x = cell_x + 1;
        }
        Block { up, right, down, left, boundary, x, y, block_size }
    }

    /// Total number of directional particles aggregated in this block.
    pub fn total_particles(self) -> (n: usize)
        requires
            self.up + self.right + self.down + self.left <= usize::MAX,
        ensures
            n == self.up + self.right + self.down + self.left,
    {
        self.up + self.right + self.down + self.left
    }
}

/// One output pixel, three bytes.
#[derive(Clone, Copy, PartialEq, Eq, Structural, Debug)]
pub struct RGB8 {
    pub red: u8,
    pub green: u8,
    pub blue: u8,
}

impl RGB8 {
    pub fn new(red: u8, green: u8, blue: u8) -> (c: RGB8)
        ensures
            c.red == red,
            c.green == green,
            c.blue == blue,
    {
        RGB8 { red, green, blue }
    }

    /// The three channels in image order.
    pub fn as_array(self) -> (a: [u8; 3])
        ensures
            a@.len() == 3,
            a@[0] == self.red,
            a@[1] == self.green,
            a@[2] == self.blue,
    {
        [self.red, self.green, self.blue]
    }

    /// The fixed colour of boundary blocks: black.
    pub fn boundary_colour() -> (c: RGB8)
        ensures
            c == (RGB8 { red: 0, green: 0, blue: 0 }),
    {
        RGB8 { red: 0, green: 0, blue: 0 }
    }
}

/// Grey level of a boundary-free b x b tile whose corner is (x0, y0):
/// 63 times the total particle count divided by the cell count, rounded to
/// the nearest integer (halves rounding up).
pub open spec fn density_intensity(g: Grid, x0: int, y0: int, b: int) -> int {
    (126 * block_total(g, x0, y0, b, b) + b * b) / (2 * (b * b))
}

/// The colour of the tile (block_x, block_y) under the density policy:
/// black as soon as the tile holds a boundary cell, otherwise the grey level
/// of its particle count replicated to all three channels.
pub open spec fn density_colour(g: Grid, block_x: int, block_y: int, b: int) -> RGB8 {
    if flag_count_rect(g, b * block_x, b * block_y, b, b, BOUNDARY) > 0 {
        RGB8 { red: 0, green: 0, blue: 0 }
    } else {
        RGB8 {
            red: density_intensity(g, b * block_x, b * block_y, b) as u8,
            green: density_intensity(g, b * block_x, b * block_y, b) as u8,
            blue: density_intensity(g, b * block_x, b * block_y, b) as u8,
        }
    }
}

/// The four per-direction rectangle counts lie between 0 and the area, so
/// the block total lies between 0 and four times the area.
proof fn lemma_block_total_bounds(g: Grid, x0: int, y0: int, w: int, h: int)
    requires
        w >= 0,
        h >= 0,
    ensures
        0 <= block_total(g, x0, y0, w, h) <= 4 * (w * h),
{
    lemma_flag_count_rect_bounds(g, x0, y0, w, h, UP);
    lemma_flag_count_rect_bounds(g, x0, y0, w, h, RIGHT);
    lemma_flag_count_rect_bounds(g, x0, y0, w, h, DOWN);
    lemma_flag_count_rect_bounds(g, x0, y0, w, h, LEFT);
}

/// Colour one block under the density (grey-scale) policy: black when the
/// block holds any boundary cell, otherwise the grey level of its particle
/// density.
pub fn block_colour_density_bw(block_x: usize, block_y: usize, grid: &Grid, config: &Config)
    -> (r: RGB8)
    requires
        grid.wf(),
        0 < config.downscale,
        config.downscale * (block_x + 1) <= isize::MAX,
        config.downscale * (block_y + 1) <= isize::MAX,
        505 * (config.downscale * config.downscale) <= usize::MAX,
    ensures
        r == density_colour(*grid, block_x as int, block_y as int, config.downscale as int),
        flag_count_rect(*grid, config.downscale * block_x, config.downscale * block_y,
            config.downscale as int, config.downscale as int, BOUNDARY) > 0 ==> r == (RGB8 {
            red: 0,
            green: 0,
            blue: 0,
        }),
{
    let d = config.downscale;
    proof {
        assert(d * d <= 505 * (d * d) && 4 * (d * d) <= 505 * (d * d)) by (nonlinear_arith)
            requires
                0 < d,
        ;
    }
    let block = Block::new(block_x, block_y, d, grid);
    if block.boundary > 0 {
        RGB8::boundary_colour()
    } else {
        let x0 = Ghost((d * block_x) as int);
        let y0 = Ghost((d * block_y) as int);
        proof {
            let t = (d as int) * (d as int);
            lemma_block_total_bounds(*grid, x0@, y0@, d as int, d as int);
            assert((d as int) * (d as int) > 0) by (nonlinear_arith)
                requires
                    0 < d,
            ;
            assert(0 <= 126 * block_total(*grid, x0@, y0@, d as int, d as int) + t <= 505 * t)
                by (nonlinear_arith)
                requires
                    t > 0,
                    0 <= block_total(*grid, x0@, y0@, d as int, d as int) <= 4 * t,
            ;
            lemma_div_is_ordered(126 * block_total(*grid, x0@, y0@, d as int, d as int) + t,
                505 * t, 2 * t);
            assert(505 * t == 252 * (2 * t) + t) by (nonlinear_arith);
            lemma_fundamental_div_mod_converse_div(505 * t, 2 * t, 252, t);
        }
        let total = block.total_particles();
        let val = ((126 * total + d * d) / (2 * (d * d))) as u8;
        RGB8::new(val, val, val)
    }
}

/// Count the directional particles in one block, unless the block holds a
/// boundary cell, in which case the block has no density reading at all.
pub fn count_particles_in_block(
    grid: &Grid,
    block_x: usize,
    block_y: usize,
    downscale: usize,
) -> (r: Option<usize>)
    requires
        grid.wf(),
        downscale * (block_x + 1) <= isize::MAX,
        downscale * (block_y + 1) <= isize::MAX,
        4 * (downscale * downscale) <= usize::MAX,
    ensures
        r is Some <==> flag_count_rect(*grid, (downscale * block_x) as int, (
            downscale * block_y) as int, downscale as int, downscale as int, BOUNDARY) == 0,
        r is Some ==> r->0 == block_total(*grid, (downscale * block_x) as int, (
            downscale * block_y) as int, downscale as int, downscale as int),
{
    let d = downscale;
    proof {
        assert(d * block_x + d == d * (block_x + 1) && d * block_y + d == d * (block_y + 1)
            && d * d <= 4 * (d * d)) by (nonlinear_arith);
    }
    let x0 = d * block_x;
    let y0 = d * block_y;
    let mut particles: usize = 0;
    let mut cell_x = x0;
    while cell_x < x0 + d
        invariant
            grid.wf(),
            d == downscale,
            x0 == d * block_x,
            y0 == d * block_y,
            x0 + d <= isize::MAX,
            y0 + d <= isize::MAX,
            4 * (d * d) <= usize::MAX,
            x0 <= cell_x <= x0 + d,
            particles == block_total(*grid, x0 as int, y0 as int, cell_x - x0, d as int),
            flag_count_rect(*grid, x0 as int, y0 as int, cell_x - x0, d as int, BOUNDARY) == 0,
        decreases x0 + d - cell_x,
    {
        let mut cell_y = y0;
        while cell_y < y0 + d
            invariant
                grid.wf(),
                d == downscale,
                x0 == d * block_x,
                y0 == d * block_y,
                x0 + d <= isize::MAX,
                y0 + d <= isize::MAX,
                4 * (d * d) <= usize::MAX,
                x0 <= cell_x < x0 + d,
                y0 <= cell_y <= y0 + d,
                particles == block_total(*grid, x0 as int, y0 as int, cell_x - x0, d as int)
                    + column_total(*grid, cell_x as int, y0 as int, cell_y - y0),
                flag_count_rect(*grid, x0 as int, y0 as int, cell_x - x0, d as int, BOUNDARY)
                    == 0,
                flag_count_col(*grid, cell_x as int, y0 as int, cell_y - y0, BOUNDARY) == 0,
            decreases y0 + d - cell_y,
        {
            let cell_in_block = grid.get(cell_x as isize, cell_y as isize);
            if cell_in_block & BOUNDARY != 0 {
                proof {
                    lemma_flag_count_rect_positive(*grid, x0 as int, y0 as int, d as int,
                        d as int, BOUNDARY, cell_x as int, cell_y as int);
                }
                return None;
            }
            proof {
                lemma_block_total_bounds(*grid, x0 as int, y0 as int, cell_x - x0, d as int);
                lemma_flag_count_col_bounds(*grid, cell_x as int, y0 as int, cell_y - y0, UP);
                lemma_flag_count_col_bounds(*grid, cell_x as int, y0 as int, cell_y - y0,
                    RIGHT);
                lemma_flag_count_col_bounds(*grid, cell_x as int, y0 as int, cell_y - y0,
                    DOWN);
                lemma_flag_count_col_bounds(*grid, cell_x as int, y0 as int, cell_y - y0,
                    LEFT);
                assert(4 * ((cell_x - x0) * (d as int)) + 4 * (cell_y - y0) + 4 <= 4 * (
                (d as int) * (d as int))) by (nonlinear_arith)
                    requires
                        x0 <= cell_x < x0 + d,
                        y0 <= cell_y < y0 + d,
                ;
                let c = grid.cell_at(cell_x as int, cell_y as int);
                assert(particle_count(c) == (if c & UP != 0 { 1int } else { 0 }) + (if c
                    & RIGHT != 0 { 1int } else { 0 }) + (if c & DOWN != 0 { 1int } else { 0 })
                    + (if c & LEFT != 0 { 1int } else { 0 })) by (bit_vector);
            }
            let n = particle_bits(cell_in_block);
            particles = particles + n;
            cell_y = cell_y + 1;
        }
        cell_x = cell_x + 1;
    }
    Some(particles)
}

/// Number of directional particles encoded in one cell value.
fn particle_bits(c: u8) -> (n: usize)
    ensures
        n == particle_count(c),
        n <= 4,
{
    proof {
        assert(particle_count(c) == (if c & 8 != 0 { 1int } else { 0 }) + (if c & 4 != 0 {
            1int
        } else {
            0
        }) + (if c & 2 != 0 { 1int } else { 0 }) + (if c & 1 != 0 { 1int } else { 0 })
            && 8u8 == UP && 4u8 == RIGHT && 2u8 == DOWN && 1u8 == LEFT) by (bit_vector);
    }
    let mut n: usize = 0;
    if c & UP != 0 {
        n = n + 1;
    }
    if c & RIGHT != 0 {
        n = n + 1;
    }
    if c & DOWN != 0 {
        n = n + 1;
    }
    if c & LEFT != 0 {
        n = n + 1;
    }
    n
}

/// Blocks are emitted one block-row after another in the output sequence.
proof fn lemma_block_order(nbx: int, by1: int, bx1: int, by2: int, bx2: int)
    by (nonlinear_arith)
    requires
        0 <= bx1 < nbx,
        0 <= by1,
        0 <= bx2,
        0 <= by2,
        by1 < by2 || (by1 == by2 && bx1 < bx2),
    ensures
        by1 * nbx + bx1 < by2 * nbx + bx2,
{
}

/// Render the whole grid under the density policy: one RGB triple per b x b
/// block, blocks emitted row-major, matching an image of width
/// grid-width / downscale and height grid-height / downscale. The downscale
/// must divide both grid dimensions.
pub fn generate_rgb_sequence(grid: &Grid, config: &Config) -> (out: Vec<u8>)
    requires
        grid.wf(),
        config.colouring is DensityBW,
        0 < config.downscale,
        grid.width % config.downscale == 0,
        grid.height % config.downscale == 0,
        grid.width <= isize::MAX,
        grid.height <= isize::MAX,
        505 * (config.downscale * config.downscale) <= usize::MAX,
    ensures
        out@.len() == 3 * ((grid.width / config.downscale) * (grid.height / config.downscale)),
        forall|bx: int, by: int| 0 <= bx < grid.width / config.downscale && 0 <= by
            < grid.height / config.downscale ==> {
            let k = 3 * (by * (grid.width / config.downscale) + bx);
            &&& out@[k] == (#[trigger] density_colour(*grid, bx, by,
                config.downscale as int)).red
            &&& out@[k + 1] == density_colour(*grid, bx, by, config.downscale as int).green
            &&& out@[k + 2] == density_colour(*grid, bx, by, config.downscale as int).blue
        },
{
    let d = config.downscale;
    let nbx = grid.width / d;
    let nby = grid.height / d;
    proof {
        lemma_fundamental_div_mod(grid.width as int, d as int);
        lemma_fundamental_div_mod(grid.height as int, d as int);
    }
    let mut out = Vec::<u8>::new();
    let mut block_y: usize = 0;
    while block_y < nby
        invariant
            grid.wf(),
            config.colouring is DensityBW,
            0 < d,
            d == config.downscale,
            nbx == grid.width / d,
            nby == grid.height / d,
            d * nbx == grid.width <= isize::MAX,
            d * nby == grid.height <= isize::MAX,
            505 * (d * d) <= usize::MAX,
            0 <= block_y <= nby,
            out@.len() == 3 * (block_y * nbx),
            forall|bx: int, by: int| 0 <= by < block_y && 0 <= bx < nbx ==> {
                let k = 3 * (by * nbx + bx);
                &&& out@[k] == (#[trigger] density_colour(*grid, bx, by, d as int)).red
                &&& out@[k + 1] == density_colour(*grid, bx, by, d as int).green
                &&& out@[k + 2] == density_colour(*grid, bx, by, d as int).blue
            },
        decreases nby - block_y,
    {
        let mut block_x: usize = 0;
        while block_x < nbx
            invariant
                grid.wf(),
                config.colouring is DensityBW,
                0 < d,
                d == config.downscale,
                nbx == grid.width / d,
                nby == grid.height / d,
                d * nbx == grid.width <= isize::MAX,
                d * nby == grid.height <= isize::MAX,
                505 * (d * d) <= usize::MAX,
                0 <= block_y < nby,
                0 <= block_x <= nbx,
                out@.len() == 3 * (block_y * nbx + block_x),
                forall|bx: int, by: int| (0 <= by < block_y && 0 <= bx < nbx) || (by == block_y
                    && 0 <= bx < block_x) ==> {
                    let k = 3 * (by * nbx + bx);
                    &&& out@[k] == (#[trigger] density_colour(*grid, bx, by, d as int)).red
                    &&& out@[k + 1] == density_colour(*grid, bx, by, d as int).green
                    &&& out@[k + 2] == density_colour(*grid, bx, by, d as int).blue
                },
            decreases nbx - block_x,
        {
            proof {
                assert(d * (block_x + 1) <= d * nbx && d * (block_y + 1) <= d * nby) by (
                nonlinear_arith)
                    requires
                        0 < d,
                        0 <= block_x < nbx,
                        0 <= block_y < nby,
                ;
            }
            let colour = block_colour_density_bw(block_x, block_y, grid, config);
            out.push(colour.red);
            out.push(colour.green);
            out.push(colour.blue);
            proof {
                assert forall|bx: int, by: int| (0 <= by < block_y && 0 <= bx < nbx) || (by
                    == block_y && 0 <= bx < block_x + 1) implies {
                    let k = 3 * (by * nbx + bx);
                    &&& out@[k] == (#[trigger] density_colour(*grid, bx, by, d as int)).red
                    &&& out@[k + 1] == density_colour(*grid, bx, by, d as int).green
                    &&& out@[k + 2] == density_colour(*grid, bx, by, d as int).blue
                } by {
                    if by < block_y || bx < block_x {
                        lemma_block_order(nbx as int, by, bx, block_y as int, block_x as int);
                    }
                }
            }
            block_x = block_x + 1;
        }
        proof {
            assert(3 * ((block_y + 1) * nbx) == 3 * (block_y * nbx + nbx)) by (
            nonlinear_arith);
        }
        block_y = block_y + 1;
    }
    proof {
        assert(nby * nbx == nbx * nby) by (nonlinear_arith);
    }
    out
}

/// A block containing at least one boundary cell renders exactly the
/// boundary colour under the density policy, regardless of the other cells'
/// occupancy.
pub proof fn lemma_boundary_block_renders_boundary(
    g: Grid,
    block_x: int,
    block_y: int,
    b: int,
    i: int,
    j: int,
)
    requires
        b > 0,
        in_rect(b * block_x, b * block_y, b, b, i, j),
        is_boundary(g.cell_at(i, j)),
    ensures
        density_colour(g, block_x, block_y, b) == (RGB8 { red: 0, green: 0, blue: 0 }),
{
    lemma_flag_count_rect_positive(g, b * block_x, b * block_y, b, b, BOUNDARY, i, j);
}

/// The density formula on a saturated block: a fully occupied b x b block
/// with no boundary cell renders the exact grey level 63 * 4, on every
/// channel.
pub proof fn lemma_density_formula_full_block(g: Grid, block_x: int, block_y: int, b: int)
    requires
        b > 0,
        forall|i: int, j: int| in_rect(b * block_x, b * block_y, b, b, i, j)
            ==> #[trigger] g.cell_at(i, j) == FULL,
    ensures
        density_colour(g, block_x, block_y, b) == (RGB8 { red: 252, green: 252, blue: 252 }),
{
    let x0 = b * block_x;
    let y0 = b * block_y;
    assert(FULL & UP != 0 && FULL & RIGHT != 0 && FULL & DOWN != 0 && FULL & LEFT != 0 && FULL
        & BOUNDARY == 0) by (bit_vector);
    assert forall|i: int, j: int| x0 <= i < x0 + b && y0 <= j < y0 + b implies #[trigger]
        g.cell_at(i, j) & UP != 0 by {
        assert(in_rect(x0, y0, b, b, i, j));
    }
    assert forall|i: int, j: int| x0 <= i < x0 + b && y0 <= j < y0 + b implies #[trigger]
        g.cell_at(i, j) & RIGHT != 0 by {
        assert(in_rect(x0, y0, b, b, i, j));
    }
    assert forall|i: int, j: int| x0 <= i < x0 + b && y0 <= j < y0 + b implies #[trigger]
        g.cell_at(i, j) & DOWN != 0 by {
        assert(in_rect(x0, y0, b, b, i, j));
    }
    assert forall|i: int, j: int| x0 <= i < x0 + b && y0 <= j < y0 + b implies #[trigger]
        g.cell_at(i, j) & LEFT != 0 by {
        assert(in_rect(x0, y0, b, b, i, j));
    }
    assert forall|i: int, j: int| x0 <= i < x0 + b && y0 <= j < y0 + b implies #[trigger]
        g.cell_at(i, j) & BOUNDARY == 0 by {
        assert(in_rect(x0, y0, b, b, i, j));
    }
    lemma_flag_count_rect_all(g, x0, y0, b, b, UP);
    lemma_flag_count_rect_all(g, x0, y0, b, b, RIGHT);
    lemma_flag_count_rect_all(g, x0, y0, b, b, DOWN);
    lemma_flag_count_rect_all(g, x0, y0, b, b, LEFT);
    lemma_flag_count_rect_none(g, x0, y0, b, b, BOUNDARY);
    assert(block_total(g, x0, y0, b, b) == 4 * (b * b));
    assert(b * b > 0) by (nonlinear_arith)
        requires
            b > 0,
    ;
    assert(126 * (4 * (b * b)) + b * b == 252 * (2 * (b * b)) + b * b) by (nonlinear_arith);
    lemma_fundamental_div_mod_converse_div(126 * (4 * (b * b)) + b * b, 2 * (b * b), 252,
        b * b);
    assert(density_intensity(g, x0, y0, b) == 252);
}

} // verus!
