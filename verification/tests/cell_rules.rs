use lgca::cell::{resolve_collisions, BOUNDARY, DOWN, EMPTY, FULL, LEFT, RIGHT, UP};

fn direction_bits(c: u8) -> u32 {
    (c & FULL).count_ones()
}

#[test]
fn head_on_swap() {
    assert_eq!(resolve_collisions(0b0101), 0b1010);
    assert_eq!(resolve_collisions(0b1010), 0b0101);
}

#[test]
fn non_head_on_patterns_pass_through() {
    for c in 0u8..16 {
        if c != 0b0101 && c != 0b1010 {
            assert_eq!(resolve_collisions(c), c);
        }
    }
}

#[test]
fn collision_conserves_mass_on_all_patterns() {
    for c in 0u8..16 {
        assert_eq!(direction_bits(resolve_collisions(c)), direction_bits(c));
    }
}

#[test]
fn collision_is_an_involution_on_all_patterns() {
    for c in 0u8..16 {
        assert_eq!(resolve_collisions(resolve_collisions(c)), c);
    }
}

#[test]
fn boundary_cell_reflects_each_direction() {
    assert_eq!(resolve_collisions(BOUNDARY | UP), BOUNDARY | DOWN);
    assert_eq!(resolve_collisions(BOUNDARY | DOWN), BOUNDARY | UP);
    assert_eq!(resolve_collisions(BOUNDARY | LEFT), BOUNDARY | RIGHT);
    assert_eq!(resolve_collisions(BOUNDARY | RIGHT), BOUNDARY | LEFT);
    assert_eq!(resolve_collisions(BOUNDARY), BOUNDARY);
    assert_eq!(resolve_collisions(BOUNDARY | FULL), BOUNDARY | FULL);
}

#[test]
fn boundary_reflection_is_self_inverse() {
    for flags in 0u8..16 {
        let c = BOUNDARY | flags;
        assert_eq!(resolve_collisions(resolve_collisions(c)), c);
    }
}

#[test]
fn cell_constants() {
    assert_eq!(EMPTY, 0);
    assert_eq!(FULL, UP | RIGHT | DOWN | LEFT);
    assert_eq!(UP & RIGHT, 0);
    assert_eq!(FULL & BOUNDARY, 0);
}
