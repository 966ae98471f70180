use lgca::cell::{BOUNDARY, DOWN, EMPTY, FULL, LEFT, RIGHT, UP};
use lgca::config::{Colouring, Config};
use lgca::engine::{propagate_grid, tick, update_sources};
use lgca::grid::{Grid, Probability, Source};

fn particles_in_domain(g: &Grid) -> u32 {
    let mut n: u32 = 0;
    for y in 0..g.height as isize {
        for x in 0..g.width as isize {
            n += (g.get(x, y) & FULL).count_ones();
        }
    }
    n
}

#[test]
fn streaming_locality_single_rightward_particle() {
    let mut g = Grid::new(5, 5);
    g.set(2, 2, RIGHT);
    let mut next = Grid::new(5, 5);
    propagate_grid(&g, &mut next);
    for y in 0..5 {
        for x in 0..5 {
            if x == 3 && y == 2 {
                assert_eq!(next.get(x, y), RIGHT);
            } else {
                assert_eq!(next.get(x, y), EMPTY);
            }
        }
    }
}

#[test]
fn streaming_moves_each_direction_one_cell() {
    let mut g = Grid::new(7, 7);
    g.set(3, 3, FULL);
    let mut next = Grid::new(7, 7);
    propagate_grid(&g, &mut next);
    assert_eq!(next.get(3, 4), UP);
    assert_eq!(next.get(4, 3), RIGHT);
    assert_eq!(next.get(3, 2), DOWN);
    assert_eq!(next.get(2, 3), LEFT);
    assert_eq!(next.get(3, 3), EMPTY);
    assert_eq!(particles_in_domain(&next), 4);
}

#[test]
fn plain_edge_drops_outbound_particles() {
    let mut g = Grid::new(3, 3);
    g.set(2, 1, RIGHT);
    let mut next = Grid::new(3, 3);
    propagate_grid(&g, &mut next);
    assert_eq!(particles_in_domain(&next), 0);
}

#[test]
fn edge_containment_reflects_at_the_right_wall() {
    let config = Config::new(6, 5, 1, 1, 1, Colouring::DensityBW);
    let mut g = Grid::new(6, 5);
    g.set_boundary_at_edge(&config);
    g.set(4, 2, RIGHT);
    let mut next = Grid::new(6, 5);

    propagate_grid(&g, &mut next);
    assert_eq!(next.get(5, 2), BOUNDARY | LEFT);
    assert_eq!(next.get(4, 2), EMPTY);
    assert_eq!(particles_in_domain(&next), 1);

    let mut after = Grid::new(6, 5);
    propagate_grid(&next, &mut after);
    assert_eq!(after.get(5, 2), BOUNDARY);
    assert_eq!(after.get(4, 2), LEFT);
    assert_eq!(particles_in_domain(&after), 1);
}

#[test]
fn head_on_pair_swaps_after_meeting() {
    let mut g = Grid::new(5, 5);
    g.set(2, 1, UP);
    g.set(2, 3, DOWN);
    let mut next = Grid::new(5, 5);
    propagate_grid(&g, &mut next);
    assert_eq!(next.get(2, 2), LEFT | RIGHT);
    assert_eq!(particles_in_domain(&next), 2);
}

#[test]
fn update_sources_rewrites_only_the_source_regions() {
    let mut g = Grid::new(6, 6);
    g.set(5, 5, UP);
    let sources = vec![
        Source::new(0, 0, 2, 2, Probability::new(1, 1)),
        Source::new(3, 0, 1, 1, Probability::new(0, 1)),
    ];
    g.set(3, 0, FULL);
    update_sources(&mut g, &sources);
    for y in 0..2 {
        for x in 0..2 {
            assert_eq!(g.get(x, y), FULL);
        }
    }
    assert_eq!(g.get(3, 0), EMPTY);
    assert_eq!(g.get(5, 5), UP);
    assert_eq!(g.get(4, 4), EMPTY);
}

#[test]
fn tick_swaps_buffers_and_advances_one_step() {
    let mut a = Grid::new(5, 5);
    a.set(1, 1, RIGHT);
    let mut b = Grid::new(5, 5);
    let sources: Vec<Source> = Vec::new();
    tick(&mut a, &mut b, &sources);
    assert_eq!(b.get(1, 1), RIGHT);
    assert_eq!(a.get(2, 1), RIGHT);
    assert_eq!(a.get(1, 1), EMPTY);
    assert_eq!(particles_in_domain(&a), 1);
}
