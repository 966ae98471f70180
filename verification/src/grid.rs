//! The simulation domain: a flat row-major array of cells with sentinel
//! boundary reads outside the domain, region fills and boundary painting,
//! plus the stochastic source descriptor.

use vstd::prelude::*;
use rand::Rng;
use crate::cell::{Cell, BOUNDARY, DOWN, EMPTY, FULL, LEFT, RIGHT, UP};
use crate::config::Config;

verus! {

/// An occupation probability, as an exact ratio in [0, 1].
#[derive(Clone, Copy, PartialEq, Eq, Structural, Debug)]
pub struct Probability {
    pub numerator: u32,
    pub denominator: u32,
}

impl Probability {
    /// A valid probability: denominator positive, ratio at most one.
    pub open spec fn wf(self) -> bool {
        0 < self.denominator && self.numerator <= self.denominator
    }

    pub fn new(numerator: u32, denominator: u32) -> (p: Probability)
        requires
            0 < denominator,
            numerator <= denominator,
        ensures
            p.wf(),
            p.numerator == numerator,
            p.denominator == denominator,
    {
        Probability { numerator, denominator }
    }
}

/// A rectangular inflow region, rewritten stochastically every step.
pub struct Source {
    pub x: isize,
    pub y: isize,
    pub width: usize,
    pub height: usize,
    pub density: Probability,
}

impl Source {
    pub fn new(x: isize, y: isize, width: usize, height: usize, density: Probability) -> (s:
        Source)
        ensures
            s.x == x,
            s.y == y,
            s.width == width,
            s.height == height,
            s.density == density,
    {
        Source { x, y, width, height, density }
    }
}

/// Whether (i, j) lies in the rectangle of width `w` and height `h` whose
/// lower corner is (x0, y0).
pub open spec fn in_rect(x0: int, y0: int, w: int, h: int, i: int, j: int) -> bool {
    x0 <= i < x0 + w && y0 <= j < y0 + h
}

/// Relies on rand's `Rng::gen_ratio` on the thread-local generator: a
/// Bernoulli draw that is true with probability numerator/denominator,
/// guaranteed true when the ratio is one and false when the numerator is
/// zero, and panics only when the ratio is invalid.
#[verifier::external_body]
fn bernoulli(numerator: u32, denominator: u32) -> (r: bool)
    requires
        0 < denominator,
        numerator <= denominator,
    ensures
        numerator == denominator ==> r,
        numerator == 0 ==> !r,
{
    rand::thread_rng().gen_ratio(numerator, denominator)
}

/// Row-major indices stay inside the allocation.
proof fn lemma_index_bounds(w: int, h: int, x: int, y: int)
    by (nonlinear_arith)
    requires
        0 <= x < w,
        0 <= y < h,
    ensures
        0 <= y * w + x < w * h,
{
}

/// Row-major indexing is injective on in-range coordinates.
proof fn lemma_index_injective(w: int, h: int, x1: int, y1: int, x2: int, y2: int)
    by (nonlinear_arith)
    requires
        0 <= x1 < w,
        0 <= y1 < h,
        0 <= x2 < w,
        0 <= y2 < h,
        y1 * w + x1 == y2 * w + x2,
    ensures
        x1 == x2 && y1 == y2,
{
}

/// The simulation grid: `width * height` cells in row-major order.
pub struct Grid {
    pub grid: Vec<Cell>,
    pub width: usize,
    pub height: usize,
}

impl Grid {
    /// The allocation matches the declared dimensions.
    pub open spec fn wf(self) -> bool {
        &&& self.grid@.len() == self.width * self.height
        &&& self.width * self.height <= usize::MAX
    }

    /// The cell stored at (x, y), or the synthetic boundary cell for any
    /// coordinate outside the domain. Total over all integer coordinates.
    pub open spec fn cell_at(self, x: int, y: int) -> Cell {
        if 0 <= x < self.width && 0 <= y < self.height {
            self.grid@[y * self.width + x]
        } else {
            BOUNDARY
        }
    }

    /// Allocate a grid of the given dimensions, every cell empty.
    pub fn new(width: usize, height: usize) -> (g: Grid)
        requires
            width * height <= usize::MAX,
        ensures
            g.wf(),
            g.width == width,
            g.height == height,
            forall|i: int, j: int| #[trigger] g.cell_at(i, j) == if 0 <= i < width && 0 <= j
                < height { EMPTY } else { BOUNDARY },
    {
        let grid = vec![EMPTY; width * height];
        let g = Grid { grid, width, height };
        proof {
            assert forall|i: int, j: int| #[trigger] g.cell_at(i, j) == if 0 <= i < width && 0
                <= j < height { EMPTY } else { BOUNDARY } by {
                if 0 <= i < width && 0 <= j < height {
                    lemma_index_bounds(width as int, height as int, i, j);
                }
            }
        }
        g
    }

    /// Read the cell at (x, y); outside the domain this returns the
    /// synthetic boundary cell rather than failing.
    pub fn get(&self, x: isize, y: isize) -> (c: Cell)
        requires
            self.wf(),
        ensures
            c == self.cell_at(x as int, y as int),
    {
        if (x < 0) || (x as usize >= self.width) || (y < 0) || (y as usize >= self.height) {
            BOUNDARY
        } else {
            proof {
                lemma_index_bounds(self.width as int, self.height as int, x as int, y as int);
            }
            let index = y as usize * self.width + x as usize;
            self.grid[index]
        }
    }

    /// Write the cell at (x, y); the coordinate must be inside the domain.
    pub fn set(&mut self, x: isize, y: isize, value: Cell)
        requires
            old(self).wf(),
            0 <= x < old(self).width,
            0 <= y < old(self).height,
        ensures
            final(self).wf(),
            final(self).width == old(self).width,
            final(self).height == old(self).height,
            forall|i: int, j: int| #[trigger] final(self).cell_at(i, j) == if i == x && j == y {
                value
            } else {
                old(self).cell_at(i, j)
            },
    {
        proof {
            lemma_index_bounds(self.width as int, self.height as int, x as int, y as int);
        }
        let index = y as usize * self.width + x as usize;
        self.grid[index] = value;
        proof {
            let w = self.width as int;
            let h = self.height as int;
            assert forall|i: int, j: int| #[trigger] final(self).cell_at(i, j) == if i == x && j
                == y { value } else { old(self).cell_at(i, j) } by {
                if 0 <= i < w && 0 <= j < h {
                    lemma_index_bounds(w, h, i, j);
                    if j * w + i == y * w + x {
                        lemma_index_injective(w, h, i, j, x as int, y as int);
                    }
                }
            }
        }
    }

    /// Paint a rectangle of boundary cells, used for walls and obstacles.
    pub fn fill_boundary(&mut self, x_min: isize, y_min: isize, width: usize, height: usize)
        requires
            old(self).wf(),
            width > 0 && height > 0 ==> 0 <= x_min && x_min + width <= old(self).width && 0
                <= y_min && y_min + height <= old(self).height,
            width <= isize::MAX && x_min + width <= isize::MAX,
            height <= isize::MAX && y_min + height <= isize::MAX,
        ensures
            final(self).wf(),
            final(self).width == old(self).width,
            final(self).height == old(self).height,
            forall|i: int, j: int| #[trigger] final(self).cell_at(i, j) == if in_rect(
                x_min as int, y_min as int, width as int, height as int, i, j) {
                BOUNDARY
            } else {
                old(self).cell_at(i, j)
            },
    {
        let y_end: isize = y_min + height as isize;
        let x_end: isize = x_min + width as isize;
        let mut y: isize = y_min;
        while y < y_end
            invariant
                self.wf(),
                self.width == old(self).width,
                self.height == old(self).height,
                y_min <= y <= y_end,
                y_end == y_min + height,
                x_end == x_min + width,
                width > 0 && height > 0 ==> 0 <= x_min && x_min + width <= self.width && 0
                    <= y_min && y_min + height <= self.height,
                forall|i: int, j: int| #[trigger] self.cell_at(i, j) == if in_rect(
                    x_min as int, y_min as int, width as int, (y - y_min) as int, i, j) {
                    BOUNDARY
                } else {
                    old(self).cell_at(i, j)
                },
            decreases y_end - y,
        {
            let mut x: isize = x_min;
            while x < x_end
                invariant
                    self.wf(),
                    self.width == old(self).width,
                    self.height == old(self).height,
                    y_min <= y < y_end,
                    x_min <= x <= x_end,
                    y_end == y_min + height,
                    x_end == x_min + width,
                    width > 0 && height > 0 ==> 0 <= x_min && x_min + width <= self.width && 0
                        <= y_min && y_min + height <= self.height,
                    forall|i: int, j: int| #[trigger] self.cell_at(i, j) == if in_rect(
                        x_min as int, y_min as int, width as int, (y - y_min) as int, i, j)
                        || (y_min <= j <= y && j == y && x_min <= i < x) {
                        BOUNDARY
                    } else {
                        old(self).cell_at(i, j)
                    },
                decreases x_end - x,
            {
                self.set(x, y, BOUNDARY);
                x = x + 1;
            }
            y = y + 1;
        }
    }

    /// Rewrite a rectangle with stochastic cells: each of the four direction
    /// flags is drawn independently with the given probability, and any
    /// previous boundary flag in the region is cleared.
    pub fn fill_region(
        &mut self,
        x_min: isize,
        y_min: isize,
        width: usize,
        height: usize,
        probability: Probability,
    )
        requires
            old(self).wf(),
            probability.wf(),
            width > 0 && height > 0 ==> 0 <= x_min && x_min + width <= old(self).width && 0
                <= y_min && y_min + height <= old(self).height,
            width <= isize::MAX && x_min + width <= isize::MAX,
            height <= isize::MAX && y_min + height <= isize::MAX,
        ensures
            final(self).wf(),
            final(self).width == old(self).width,
            final(self).height == old(self).height,
            forall|i: int, j: int| !in_rect(x_min as int, y_min as int, width as int,
                height as int, i, j) ==> #[trigger] final(self).cell_at(i, j) == old(
                self).cell_at(i, j),
            forall|i: int, j: int| in_rect(x_min as int, y_min as int, width as int,
                height as int, i, j) ==> #[trigger] final(self).cell_at(i, j) < 16
                && final(self).cell_at(i, j) & BOUNDARY == 0,
            probability.numerator == probability.denominator ==> forall|i: int, j: int| in_rect(
                x_min as int, y_min as int, width as int, height as int, i, j)
                ==> #[trigger] final(self).cell_at(i, j) == FULL,
            probability.numerator == 0 ==> forall|i: int, j: int| in_rect(x_min as int,
                y_min as int, width as int, height as int, i, j) ==> #[trigger] final(
                self).cell_at(i, j) == EMPTY,
    {
        let y_end: isize = y_min + height as isize;
        let x_end: isize = x_min + width as isize;
        let mut y: isize = y_min;
        while y < y_end
            invariant
                self.wf(),
                self.width == old(self).width,
                self.height == old(self).height,
                probability.wf(),
                y_min <= y <= y_end,
                y_end == y_min + height,
                x_end == x_min + width,
                width > 0 && height > 0 ==> 0 <= x_min && x_min + width <= self.width && 0
                    <= y_min && y_min + height <= self.height,
                forall|i: int, j: int| !in_rect(x_min as int, y_min as int, width as int,
                    (y - y_min) as int, i, j) ==> #[trigger] self.cell_at(i, j) == old(
                    self).cell_at(i, j),
                forall|i: int, j: int| in_rect(x_min as int, y_min as int, width as int,
                    (y - y_min) as int, i, j) ==> #[trigger] self.cell_at(i, j) < 16
                    && self.cell_at(i, j) & BOUNDARY == 0,
                probability.numerator == probability.denominator ==> forall|i: int, j: int|
                    in_rect(x_min as int, y_min as int, width as int, (y - y_min) as int, i, j)
                    ==> #[trigger] self.cell_at(i, j) == FULL,
                probability.numerator == 0 ==> forall|i: int, j: int| in_rect(x_min as int,
                    y_min as int, width as int, (y - y_min) as int, i, j) ==> #[trigger]
                    self.cell_at(i, j) == EMPTY,
            decreases y_end - y,
        {
            let mut x: isize = x_min;
            while x < x_end
                invariant
                    self.wf(),
                    self.width == old(self).width,
                    self.height == old(self).height,
                    probability.wf(),
                    y_min <= y < y_end,
                    x_min <= x <= x_end,
                    y_end == y_min + height,
                    x_end == x_min + width,
                    width > 0 && height > 0 ==> 0 <= x_min && x_min + width <= self.width && 0
                        <= y_min && y_min + height <= self.height,
                    forall|i: int, j: int| !(in_rect(x_min as int, y_min as int, width as int,
                        (y - y_min) as int, i, j) || (j == y && x_min <= i < x))
                        ==> #[trigger] self.cell_at(i, j) == old(self).cell_at(i, j),
                    forall|i: int, j: int| (in_rect(x_min as int, y_min as int, width as int,
                        (y - y_min) as int, i, j) || (j == y && x_min <= i < x))
                        ==> #[trigger] self.cell_at(i, j) < 16 && self.cell_at(i, j) & BOUNDARY
                        == 0,
                    probability.numerator == probability.denominator ==> forall|i: int, j: int|
                        (in_rect(x_min as int, y_min as int, width as int, (y - y_min) as int,
                        i, j) || (j == y && x_min <= i < x)) ==> #[trigger] self.cell_at(i, j)
                        == FULL,
                    probability.numerator == 0 ==> forall|i: int, j: int| (in_rect(x_min as int,
                        y_min as int, width as int, (y - y_min) as int, i, j) || (j == y
                        && x_min <= i < x)) ==> #[trigger] self.cell_at(i, j) == EMPTY,
                decreases x_end - x,
            {
                let up = bernoulli(probability.numerator, probability.denominator);
                let right = bernoulli(probability.numerator, probability.denominator);
                let down = bernoulli(probability.numerator, probability.denominator);
                let left = bernoulli(probability.numerator, probability.denominator);
                let value = (if up { UP } else { EMPTY }) | (if right { RIGHT } else { EMPTY })
                    | (if down { DOWN } else { EMPTY }) | (if left { LEFT } else { EMPTY });
                proof {
                    let a: u8 = if up { UP } else { EMPTY };
                    let b: u8 = if right { RIGHT } else { EMPTY };
                    let c: u8 = if down { DOWN } else { EMPTY };
                    let d: u8 = if left { LEFT } else { EMPTY };
                    assert((a == 8 || a == 0) && (b == 4 || b == 0) && (c == 2 || c == 0) && (d
                        == 1 || d == 0) ==> (a | b | c | d) < 16 && (a | b | c | d) & 0b0001_0000
                        == 0) by (bit_vector);
                    assert(8u8 | 4 | 2 | 1 == 15) by (bit_vector);
                    assert(0u8 | 0 | 0 | 0 == 0) by (bit_vector);
                }
                self.set(x, y, value);
                x = x + 1;
            }
            y = y + 1;
        }
    }

    /// Paint the four one-cell-thick edges of the domain as boundary,
    /// closing the box described by the configuration.
    pub fn set_boundary_at_edge(&mut self, config: &Config)
        requires
            old(self).wf(),
            old(self).width == config.width,
            old(self).height == config.height,
            0 < config.width <= isize::MAX,
            0 < config.height <= isize::MAX,
        ensures
            final(self).wf(),
            final(self).width == old(self).width,
            final(self).height == old(self).height,
            forall|i: int, j: int| #[trigger] final(self).cell_at(i, j) == if 0 <= i
                < old(self).width && 0 <= j < old(self).height && (i == 0 || j == 0 || i
                == old(self).width - 1 || j == old(self).height - 1) {
                BOUNDARY
            } else {
                old(self).cell_at(i, j)
            },
    {
        self.fill_boundary(0, 0, 1, config.height);
        self.fill_boundary(0, 0, config.width, 1);
        self.fill_boundary(0, config.height as isize - 1, config.width, 1);
        self.fill_boundary(config.width as isize - 1, 0, 1, config.height);
    }
}

} // verus!
