use lgca::cell::{BOUNDARY, EMPTY, FULL, UP};
use lgca::config::{Colouring, Config};
use lgca::grid::{Grid, Probability, Source};

#[test]
fn new_grid_is_empty() {
    let g = Grid::new(4, 3);
    assert_eq!(g.width, 4);
    assert_eq!(g.height, 3);
    for y in 0..3 {
        for x in 0..4 {
            assert_eq!(g.get(x, y), EMPTY);
        }
    }
}

#[test]
fn out_of_range_reads_give_the_synthetic_boundary_cell() {
    let g = Grid::new(4, 3);
    assert_eq!(g.get(-1, 0), BOUNDARY);
    assert_eq!(g.get(0, -1), BOUNDARY);
    assert_eq!(g.get(4, 0), BOUNDARY);
    assert_eq!(g.get(0, 3), BOUNDARY);
    assert_eq!(g.get(-100, 100), BOUNDARY);
}

#[test]
fn set_then_get() {
    let mut g = Grid::new(4, 3);
    g.set(2, 1, UP);
    assert_eq!(g.get(2, 1), UP);
    assert_eq!(g.get(1, 2), EMPTY);
    assert_eq!(g.get(1, 1), EMPTY);
}

#[test]
fn fill_boundary_paints_exactly_the_rectangle() {
    let mut g = Grid::new(5, 5);
    g.fill_boundary(1, 2, 3, 2);
    for y in 0..5 {
        for x in 0..5 {
            let expected = (1..4).contains(&x) && (2..4).contains(&y);
            assert_eq!(g.get(x, y) == BOUNDARY && expected || g.get(x, y) == EMPTY && !expected, true);
        }
    }
}

#[test]
fn edge_boundary_closes_the_box() {
    let config = Config::new(4, 4, 2, 1, 1, Colouring::DensityBW);
    let mut g = Grid::new(4, 4);
    g.set(1, 1, UP);
    g.set_boundary_at_edge(&config);
    for y in 0..4 {
        for x in 0..4 {
            if x == 0 || y == 0 || x == 3 || y == 3 {
                assert_eq!(g.get(x, y), BOUNDARY);
            }
        }
    }
    assert_eq!(g.get(1, 1), UP);
    assert_eq!(g.get(2, 2), EMPTY);
}

#[test]
fn fill_region_with_probability_one_saturates() {
    let mut g = Grid::new(6, 4);
    g.fill_boundary(0, 0, 6, 4);
    g.fill_region(1, 1, 3, 2, Probability::new(1, 1));
    for y in 0..4 {
        for x in 0..6 {
            let inside = (1..4).contains(&x) && (1..3).contains(&y);
            if inside {
                assert_eq!(g.get(x, y), FULL);
            } else {
                assert_eq!(g.get(x, y), BOUNDARY);
            }
        }
    }
}

#[test]
fn fill_region_with_probability_zero_clears() {
    let mut g = Grid::new(3, 3);
    g.fill_boundary(0, 0, 3, 3);
    g.fill_region(0, 0, 3, 3, Probability::new(0, 7));
    for y in 0..3 {
        for x in 0..3 {
            assert_eq!(g.get(x, y), EMPTY);
        }
    }
}

#[test]
fn fill_region_cells_hold_only_direction_flags() {
    let mut g = Grid::new(8, 8);
    g.fill_region(0, 0, 8, 8, Probability::new(1, 2));
    for y in 0..8 {
        for x in 0..8 {
            assert!(g.get(x, y) < 16);
        }
    }
}

#[test]
fn probability_and_source_hold_their_fields() {
    let p = Probability::new(3, 4);
    assert_eq!(p.numerator, 3);
    assert_eq!(p.denominator, 4);
    let s = Source::new(-2, 5, 10, 20, p);
    assert_eq!(s.x, -2);
    assert_eq!(s.y, 5);
    assert_eq!(s.width, 10);
    assert_eq!(s.height, 20);
    assert_eq!(s.density, p);
}

#[test]
fn config_holds_its_fields() {
    let c = Config::new(8, 6, 2, 100, 10, Colouring::VelocityColour);
    assert_eq!(c.width, 8);
    assert_eq!(c.height, 6);
    assert_eq!(c.downscale, 2);
    assert_eq!(c.iterations, 100);
    assert_eq!(c.frameskip, 10);
    assert_eq!(c.colouring, Colouring::VelocityColour);
}
