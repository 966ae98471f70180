//! The per-step update: streaming (a gather of each direction's particle
//! from the opposite neighbour) followed by local collision resolution,
//! source re-injection, and the buffer-swapping step driver.

use vstd::prelude::*;
use crate::cell::{collide, particle_count, resolve_collisions, BOUNDARY, DOWN, EMPTY, FULL, LEFT,
    RIGHT, UP};
use crate::grid::{in_rect, Grid, Source};

verus! {

/// The streamed value of the cell at (x, y): the down-moving particle from
/// the neighbour above, the left-moving one from the right, the up-moving
/// one from below, the right-moving one from the left, plus the cell's own
/// boundary flag. Out-of-range neighbours contribute the synthetic boundary
/// cell, which carries no direction flags.
pub open spec fn stream(g: Grid, x: int, y: int) -> u8 {
    (g.cell_at(x, y + 1) & DOWN) | (g.cell_at(x + 1, y) & LEFT) | (g.cell_at(x, y - 1) & UP) | (
    g.cell_at(x - 1, y) & RIGHT) | (g.cell_at(x, y) & BOUNDARY)
}

/// One full update of the cell at (x, y): streaming, then collision.
pub open spec fn step_cell(g: Grid, x: int, y: int) -> u8 {
    collide(stream(g, x, y))
}

/// Compute the next grid from the current one: for every cell of the domain,
/// gather the four incoming particles, carry the boundary flag over, and
/// resolve collisions. Reads only `grid`, writes only `next_grid`.
pub fn propagate_grid(grid: &Grid, next_grid: &mut Grid)
    requires
        grid.wf(),
        old(next_grid).wf(),
        old(next_grid).width == grid.width,
        old(next_grid).height == grid.height,
        grid.width <= isize::MAX,
        grid.height <= isize::MAX,
    ensures
        final(next_grid).wf(),
        final(next_grid).width == grid.width,
        final(next_grid).height == grid.height,
        forall|x: int, y: int| 0 <= x < grid.width && 0 <= y < grid.height ==> #[trigger]
            final(next_grid).cell_at(x, y) == step_cell(*grid, x, y),
{
    let height: isize = grid.height as isize;
    let width: isize = grid.width as isize;
    let mut y: isize = 0;
    while y < height
        invariant
            grid.wf(),
            next_grid.wf(),
            next_grid.width == grid.width,
            next_grid.height == grid.height,
            width == grid.width,
            height == grid.height,
            0 <= y <= height,
            forall|i: int, j: int| 0 <= i < grid.width && 0 <= j < y ==> #[trigger]
                next_grid.cell_at(i, j) == step_cell(*grid, i, j),
        decreases height - y,
    {
        let mut x: isize = 0;
        while x < width
            invariant
                grid.wf(),
                next_grid.wf(),
                next_grid.width == grid.width,
                next_grid.height == grid.height,
                width == grid.width,
                height == grid.height,
                0 <= y < height,
                0 <= x <= width,
                forall|i: int, j: int| 0 <= i < grid.width && 0 <= j < y ==> #[trigger]
                    next_grid.cell_at(i, j) == step_cell(*grid, i, j),
                forall|i: int| 0 <= i < x ==> #[trigger] next_grid.cell_at(i, y as int)
                    == step_cell(*grid, i, y as int),
            decreases width - x,
        {
            let up = grid.get(x, y + 1) & DOWN;
            let right = grid.get(x + 1, y) & LEFT;
            let down = grid.get(x, y - 1) & UP;
            let left = grid.get(x - 1, y) & RIGHT;
            let next_state = up | right | down | left | (grid.get(x, y) & BOUNDARY);
            let next_state = resolve_collisions(next_state);
            next_grid.set(x, y, next_state);
            x = x + 1;
        }
        y = y + 1;
    }
}

/// Whether the cell (i, j) lies inside the rectangle of the source `s`.
pub open spec fn source_covers(s: Source, i: int, j: int) -> bool {
    in_rect(s.x as int, s.y as int, s.width as int, s.height as int, i, j)
}

/// Source `s[k]` is the last of the first `end` sources to cover (i, j).
pub open spec fn last_covering_source(s: Seq<Source>, end: int, i: int, j: int, k: int) -> bool {
    &&& 0 <= k < end
    &&& source_covers(s[k], i, j)
    &&& forall|k2: int| k < k2 < end ==> !source_covers(#[trigger] s[k2], i, j)
}

/// The source's rectangle may be written into grid `g` without failing.
pub open spec fn source_in_bounds(s: Source, g: Grid) -> bool {
    &&& s.density.wf()
    &&& s.width > 0 && s.height > 0 ==> 0 <= s.x && s.x + s.width <= g.width && 0 <= s.y && s.y
        + s.height <= g.height
    &&& s.width <= isize::MAX && s.x + s.width <= isize::MAX
    &&& s.height <= isize::MAX && s.y + s.height <= isize::MAX
}

/// Re-inject every source: each source's rectangle is rewritten with fresh
/// stochastic cells, so a cell covered by some source ends up holding only
/// direction flags, and a cell covered by none is untouched. A cell whose
/// last covering source draws with probability one (or zero) is known
/// exactly: it is full (or empty).
pub fn update_sources(grid: &mut Grid, sources: &[Source])
    requires
        old(grid).wf(),
        forall|k: int| 0 <= k < sources@.len() ==> source_in_bounds(#[trigger] sources@[k],
            *old(grid)),
    ensures
        final(grid).wf(),
        final(grid).width == old(grid).width,
        final(grid).height == old(grid).height,
        forall|i: int, j: int| (forall|k: int| 0 <= k < sources@.len() ==> !source_covers(
            #[trigger] sources@[k], i, j)) ==> #[trigger] final(grid).cell_at(i, j) == old(
            grid).cell_at(i, j),
        forall|i: int, j: int| 0 <= i < old(grid).width && 0 <= j < old(grid).height && (
            exists|k: int| 0 <= k < sources@.len() && source_covers(#[trigger] sources@[k], i,
            j)) ==> #[trigger] final(grid).cell_at(i, j) < 16,
        forall|i: int, j: int, k: int| 0 <= i < old(grid).width && 0 <= j < old(grid).height
            && #[trigger] last_covering_source(sources@, sources@.len() as int, i, j, k)
            && sources@[k].density.numerator == sources@[k].density.denominator ==> final(
            grid).cell_at(i, j) == FULL,
        forall|i: int, j: int, k: int| 0 <= i < old(grid).width && 0 <= j < old(grid).height
            && #[trigger] last_covering_source(sources@, sources@.len() as int, i, j, k)
            && sources@[k].density.numerator == 0 ==> final(grid).cell_at(i, j) == EMPTY,
{
    let mut n: usize = 0;
    while n < sources.len()
        invariant
            grid.wf(),
            grid.width == old(grid).width,
            grid.height == old(grid).height,
            0 <= n <= sources@.len(),
            forall|k: int| 0 <= k < sources@.len() ==> source_in_bounds(#[trigger] sources@[k],
                *old(grid)),
            forall|i: int, j: int| (forall|k: int| 0 <= k < n ==> !source_covers(#[trigger]
                sources@[k], i, j)) ==> #[trigger] grid.cell_at(i, j) == old(grid).cell_at(i,
                j),
            forall|i: int, j: int| 0 <= i < old(grid).width && 0 <= j < old(grid).height && (
                exists|k: int| 0 <= k < n && source_covers(#[trigger] sources@[k], i, j))
                ==> #[trigger] grid.cell_at(i, j) < 16,
            forall|i: int, j: int, k: int| 0 <= i < old(grid).width && 0 <= j
                < old(grid).height && #[trigger] last_covering_source(sources@, n as int, i, j,
                k) && sources@[k].density.numerator == sources@[k].density.denominator
                ==> grid.cell_at(i, j) == FULL,
            forall|i: int, j: int, k: int| 0 <= i < old(grid).width && 0 <= j
                < old(grid).height && #[trigger] last_covering_source(sources@, n as int, i, j,
                k) && sources@[k].density.numerator == 0 ==> grid.cell_at(i, j) == EMPTY,
        decreases sources@.len() - n,
    {
        let source = &sources[n];
        let ghost prev = *grid;
        grid.fill_region(source.x, source.y, source.width, source.height, source.density);
        proof {
            assert forall|i: int, j: int, k: int| 0 <= i < old(grid).width && 0 <= j
                < old(grid).height && #[trigger] last_covering_source(sources@, n + 1, i, j, k)
                && (sources@[k].density.numerator == sources@[k].density.denominator
                || sources@[k].density.numerator == 0) implies (
                sources@[k].density.numerator == sources@[k].density.denominator
                    ==> grid.cell_at(i, j) == FULL) && (sources@[k].density.numerator == 0
                    ==> grid.cell_at(i, j) == EMPTY) by {
                if k == n {
                    assert(source_covers(sources@[n as int], i, j));
                } else {
                    assert(!source_covers(sources@[n as int], i, j));
                    assert(last_covering_source(sources@, n as int, i, j, k));
                    assert(grid.cell_at(i, j) == prev.cell_at(i, j));
                }
            }
        }
        n = n + 1;
    }
}

/// One simulation step: re-inject the sources into the current grid, stream
/// and collide into the next grid, and swap the two buffers. Afterwards
/// `grid_b` holds the source-updated pre-step state and `grid_a` holds its
/// full update.
pub fn tick(grid_a: &mut Grid, grid_b: &mut Grid, sources: &[Source])
    requires
        old(grid_a).wf(),
        old(grid_b).wf(),
        old(grid_b).width == old(grid_a).width,
        old(grid_b).height == old(grid_a).height,
        old(grid_a).width <= isize::MAX,
        old(grid_a).height <= isize::MAX,
        forall|k: int| 0 <= k < sources@.len() ==> source_in_bounds(#[trigger] sources@[k],
            *old(grid_a)),
    ensures
        final(grid_a).wf(),
        final(grid_b).wf(),
        final(grid_a).width == old(grid_a).width,
        final(grid_a).height == old(grid_a).height,
        final(grid_b).width == old(grid_a).width,
        final(grid_b).height == old(grid_a).height,
        forall|i: int, j: int| (forall|k: int| 0 <= k < sources@.len() ==> !source_covers(
            #[trigger] sources@[k], i, j)) ==> #[trigger] final(grid_b).cell_at(i, j) == old(
            grid_a).cell_at(i, j),
        forall|i: int, j: int| 0 <= i < old(grid_a).width && 0 <= j < old(grid_a).height && (
            exists|k: int| 0 <= k < sources@.len() && source_covers(#[trigger] sources@[k], i,
            j)) ==> #[trigger] final(grid_b).cell_at(i, j) < 16,
        forall|i: int, j: int, k: int| 0 <= i < old(grid_a).width && 0 <= j < old(
            grid_a).height && #[trigger] last_covering_source(sources@, sources@.len() as int,
            i, j, k) && sources@[k].density.numerator == sources@[k].density.denominator
            ==> final(grid_b).cell_at(i, j) == FULL,
        forall|i: int, j: int, k: int| 0 <= i < old(grid_a).width && 0 <= j < old(
            grid_a).height && #[trigger] last_covering_source(sources@, sources@.len() as int,
            i, j, k) && sources@[k].density.numerator == 0 ==> final(grid_b).cell_at(i, j)
            == EMPTY,
        forall|x: int, y: int| 0 <= x < old(grid_a).width && 0 <= y < old(grid_a).height
            ==> #[trigger] final(grid_a).cell_at(x, y) == step_cell(*final(grid_b), x, y),
{
    update_sources(grid_a, sources);
    propagate_grid(grid_a, grid_b);
    core::mem::swap(grid_a, grid_b);
}

/// Streaming locality: a single rightward-moving particle in an otherwise
/// empty grid, away from the right edge, appears exactly one cell to the
/// right after one step and nowhere else.
pub proof fn lemma_streaming_locality(g: Grid, cx: int, cy: int)
    requires
        g.wf(),
        0 <= cx,
        cx + 1 < g.width,
        0 <= cy < g.height,
        g.cell_at(cx, cy) == RIGHT,
        forall|x: int, y: int| 0 <= x < g.width && 0 <= y < g.height && !(x == cx && y == cy)
            ==> #[trigger] g.cell_at(x, y) == EMPTY,
    ensures
        forall|x: int, y: int| 0 <= x < g.width && 0 <= y < g.height ==> #[trigger] step_cell(
            g, x, y) == if x == cx + 1 && y == cy { RIGHT } else { EMPTY },
{
    assert(4u8 & 16 == 0 && 0u8 & 16 == 0 && RIGHT == 4u8 && EMPTY == 0u8 && BOUNDARY == 16u8)
        by (bit_vector);
    assert forall|x: int, y: int| 0 <= x < g.width && 0 <= y < g.height implies #[trigger]
        step_cell(g, x, y) == if x == cx + 1 && y == cy { RIGHT } else { EMPTY } by {
        let a = g.cell_at(x, y + 1);
        let b = g.cell_at(x + 1, y);
        let c = g.cell_at(x, y - 1);
        let d = g.cell_at(x - 1, y);
        let e = g.cell_at(x, y);
        assert(a == EMPTY || a == RIGHT || a == BOUNDARY);
        assert(b == EMPTY || b == RIGHT || b == BOUNDARY);
        assert(c == EMPTY || c == RIGHT || c == BOUNDARY);
        assert(e == EMPTY || e == RIGHT);
        if x == cx + 1 && y == cy {
            assert(d == RIGHT);
            assert(((a & 2) | (b & 1) | (c & 8) | (4u8 & 4) | (e & 16)) == 4) by (bit_vector)
                requires
                    (a == 0 || a == 4 || a == 16) && (b == 0 || b == 4 || b == 16) && (c == 0
                        || c == 4 || c == 16) && (e == 0 || e == 4),
            ;
            assert(stream(g, x, y) == 4);
            assert(collide(4u8) == 4u8);
        } else {
            assert(d == EMPTY || d == BOUNDARY);
            assert(((a & 2) | (b & 1) | (c & 8) | (d & 4) | (e & 16)) == 0) by (bit_vector)
                requires
                    (a == 0 || a == 4 || a == 16) && (b == 0 || b == 4 || b == 16) && (c == 0
                        || c == 4 || c == 16) && (d == 0 || d == 16) && (e == 0 || e == 4),
            ;
            assert(stream(g, x, y) == 0);
            assert(collide(0u8) == 0u8);
        }
    }
}

/// Edge containment, first step: a rightward-moving particle immediately
/// left of a wall cell streams into the wall and is reflected there, so the
/// wall cell next holds a leftward-moving particle and keeps its boundary
/// flag. The particle never crosses the wall: every coordinate at or beyond
/// the domain's width reads as the synthetic boundary cell, which carries no
/// particle.
pub proof fn lemma_edge_reflects_incoming(g: Grid, y0: int)
    requires
        g.wf(),
        2 <= g.width,
        0 <= y0 < g.height,
        g.cell_at(g.width - 1, y0) == BOUNDARY,
        g.cell_at(g.width - 2, y0) == RIGHT,
        g.cell_at(g.width - 1, y0 + 1) & DOWN == 0,
        g.cell_at(g.width - 1, y0 - 1) & UP == 0,
    ensures
        step_cell(g, g.width - 1, y0) == (LEFT | BOUNDARY),
        forall|x: int, y: int| x >= g.width ==> particle_count(#[trigger] g.cell_at(x, y))
            == 0,
{
    let w = g.width as int;
    let a = g.cell_at(w - 1, y0 + 1);
    let c = g.cell_at(w - 1, y0 - 1);
    assert(g.cell_at(w, y0) == BOUNDARY);
    assert(((a & 2) | (16u8 & 1) | (c & 8) | (4u8 & 4) | (16u8 & 16)) == 20) by (bit_vector)
        requires
            a & 2 == 0 && c & 8 == 0,
    ;
    assert(stream(g, w - 1, y0) == 20) by {
        assert(a & DOWN == 0 && c & UP == 0);
    }
    assert(20u8 & 16 != 0 && ((20u8 & 8) >> 2 | (20u8 & 4) >> 2 | (20u8 & 2) << 2 | (20u8 & 1)
        << 2 | 16) == 17 && (LEFT | BOUNDARY) == 17u8) by (bit_vector);
    assert(collide(20u8) == 17u8);
    assert(particle_count(16u8) == 0) by (bit_vector);
}

/// Edge containment, second step: the leftward-moving particle held in the
/// wall cell streams back out, so the cell just inside the wall holds a
/// leftward-moving particle: the particle has re-entered the domain moving
/// back the way it came.
pub proof fn lemma_reflection_reenters(g: Grid, y0: int)
    requires
        g.wf(),
        2 <= g.width,
        0 <= y0 < g.height,
        g.cell_at(g.width - 1, y0) == (LEFT | BOUNDARY),
        g.cell_at(g.width - 2, y0) & BOUNDARY == 0,
        g.cell_at(g.width - 2, y0 + 1) & DOWN == 0,
        g.cell_at(g.width - 2, y0 - 1) & UP == 0,
        g.cell_at(g.width - 3, y0) & RIGHT == 0,
    ensures
        step_cell(g, g.width - 2, y0) == LEFT,
{
    let w = g.width as int;
    let a = g.cell_at(w - 2, y0 + 1);
    let b = g.cell_at(w - 1, y0);
    let c = g.cell_at(w - 2, y0 - 1);
    let d = g.cell_at(w - 3, y0);
    let e = g.cell_at(w - 2, y0);
    assert((LEFT | BOUNDARY) == 17u8) by (bit_vector);
    assert(((a & 2) | (17u8 & 1) | (c & 8) | (d & 4) | (e & 16)) == 1) by (bit_vector)
        requires
            a & 2 == 0 && c & 8 == 0 && d & 4 == 0 && e & 16 == 0,
    ;
    assert(stream(g, w - 2, y0) == 1);
    assert(1u8 & 16 == 0 && LEFT == 1u8) by (bit_vector);
    assert(collide(1u8) == 1u8);
}

} // verus!
