use lgca::analysis::{
    block_colour_density_bw, count_particles_in_block, generate_rgb_sequence, Block, RGB8,
};
use lgca::cell::{BOUNDARY, DOWN, FULL, LEFT, RIGHT, UP};
use lgca::config::{Colouring, Config};
use lgca::grid::Grid;

#[test]
fn block_counts_each_flag() {
    let mut g = Grid::new(4, 4);
    g.set(0, 0, UP);
    g.set(1, 0, UP | RIGHT);
    g.set(0, 1, DOWN | LEFT);
    g.set(1, 1, BOUNDARY);
    let block = Block::new(0, 0, 2, &g);
    assert_eq!(block.up, 2);
    assert_eq!(block.right, 1);
    assert_eq!(block.down, 1);
    assert_eq!(block.left, 1);
    assert_eq!(block.boundary, 1);
    assert_eq!(block.x, 0);
    assert_eq!(block.y, 0);
    assert_eq!(block.block_size, 2);
    let far_block = Block::new(1, 1, 2, &g);
    assert_eq!(far_block.up + far_block.right + far_block.down + far_block.left, 0);
    assert_eq!(far_block.boundary, 0);
}

#[test]
fn block_total_particles_sums_directions() {
    let mut g = Grid::new(2, 2);
    g.set(0, 0, FULL);
    g.set(1, 1, UP | DOWN);
    let block = Block::new(0, 0, 2, &g);
    assert_eq!(block.total_particles(), 6);
}

#[test]
fn rgb8_new_and_as_array() {
    let c = RGB8::new(10, 20, 30);
    assert_eq!(c.red, 10);
    assert_eq!(c.green, 20);
    assert_eq!(c.blue, 30);
    assert_eq!(c.as_array(), [10, 20, 30]);
    assert_eq!(RGB8::boundary_colour(), RGB8::new(0, 0, 0));
}

#[test]
fn density_formula_on_a_saturated_block() {
    let mut g = Grid::new(3, 3);
    g.fill_boundary(0, 0, 3, 3);
    for y in 0..3 {
        for x in 0..3 {
            g.set(x, y, FULL);
        }
    }
    let config = Config::new(3, 3, 3, 1, 1, Colouring::DensityBW);
    let colour = block_colour_density_bw(0, 0, &g, &config);
    assert_eq!(colour, RGB8::new(252, 252, 252));
}

#[test]
fn density_formula_on_a_quarter_full_block() {
    let mut g = Grid::new(2, 2);
    g.set(0, 0, FULL);
    let config = Config::new(2, 2, 2, 1, 1, Colouring::DensityBW);
    let colour = block_colour_density_bw(0, 0, &g, &config);
    assert_eq!(colour, RGB8::new(63, 63, 63));
}

#[test]
fn density_formula_rounds_to_nearest() {
    let mut g = Grid::new(2, 2);
    g.set(0, 0, UP);
    let config = Config::new(2, 2, 2, 1, 1, Colouring::DensityBW);
    let colour = block_colour_density_bw(0, 0, &g, &config);
    assert_eq!(colour, RGB8::new(16, 16, 16));

    let mut g3 = Grid::new(2, 2);
    g3.set(0, 0, UP | DOWN | LEFT);
    let colour3 = block_colour_density_bw(0, 0, &g3, &config);
    assert_eq!(colour3, RGB8::new(47, 47, 47));
}

#[test]
fn one_boundary_cell_makes_the_block_render_boundary() {
    let mut g = Grid::new(2, 2);
    g.set(0, 0, FULL);
    g.set(1, 0, FULL);
    g.set(0, 1, FULL);
    g.set(1, 1, BOUNDARY);
    let config = Config::new(2, 2, 2, 1, 1, Colouring::DensityBW);
    let colour = block_colour_density_bw(0, 0, &g, &config);
    assert_eq!(colour, RGB8::new(0, 0, 0));
}

#[test]
fn count_particles_gives_the_total_without_boundary() {
    let mut g = Grid::new(2, 2);
    g.set(0, 0, FULL);
    g.set(1, 1, UP | LEFT);
    assert_eq!(count_particles_in_block(&g, 0, 0, 2), Some(6));
}

#[test]
fn count_particles_has_no_reading_on_boundary_blocks() {
    let mut g = Grid::new(2, 2);
    g.set(0, 0, FULL);
    g.set(1, 0, BOUNDARY);
    assert_eq!(count_particles_in_block(&g, 0, 0, 2), None);
}

#[test]
fn boundary_dominated_scenario_renders_all_blocks_black() {
    let config = Config::new(4, 4, 2, 1, 1, Colouring::DensityBW);
    let mut g = Grid::new(4, 4);
    g.set(1, 1, FULL);
    g.set(2, 1, FULL);
    g.set(1, 2, FULL);
    g.set(2, 2, FULL);
    g.set_boundary_at_edge(&config);
    let bytes = generate_rgb_sequence(&g, &config);
    assert_eq!(bytes, vec![0u8; 12]);
}

#[test]
fn rgb_sequence_emits_blocks_row_major() {
    let config = Config::new(4, 4, 2, 1, 1, Colouring::DensityBW);
    let mut g = Grid::new(4, 4);
    for y in 0..2 {
        for x in 2..4 {
            g.set(x, y, FULL);
        }
    }
    let bytes = generate_rgb_sequence(&g, &config);
    assert_eq!(bytes.len(), 12);
    assert_eq!(&bytes[0..3], &[0, 0, 0]);
    assert_eq!(&bytes[3..6], &[252, 252, 252]);
    assert_eq!(&bytes[6..12], &[0u8; 6]);
}
