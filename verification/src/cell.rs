//! Bit-level encoding of one lattice site: four direction flags plus a
//! boundary flag, and the local collision rule applied to a streamed value.

use vstd::prelude::*;

verus! {

/// One lattice site, encoded in the low five bits of a byte.
pub type Cell = u8;

/// All four direction flags set, boundary clear.
pub const FULL: u8 = 0b0000_1111;
/// Particle moving up.
pub const UP: u8 = 0b0000_1000;
/// Particle moving right.
pub const RIGHT: u8 = 0b0000_0100;
/// Particle moving down.
pub const DOWN: u8 = 0b0000_0010;
/// Particle moving left.
pub const LEFT: u8 = 0b0000_0001;
/// No flags set.
pub const EMPTY: u8 = 0b0000_0000;
/// Wall flag: the cell reflects particles instead of passing them on.
pub const BOUNDARY: u8 = 0b0001_0000;

/// Whether the boundary flag of `c` is set.
pub open spec fn is_boundary(c: u8) -> bool {
    c & BOUNDARY != 0
}

/// Number of directional particles held by `c` (the four low bits).
pub open spec fn particle_count(c: u8) -> int {
    (c & 1) + ((c >> 1) & 1) + ((c >> 2) & 1) + ((c >> 3) & 1)
}

/// Bounce-back reflection of a wall cell: each direction flag moves to its
/// opposite (up and down swap, left and right swap), the boundary flag is
/// re-asserted, and any stray high bits are dropped.
pub open spec fn reflect(c: u8) -> u8 {
    (c & UP) >> 2 | (c & RIGHT) >> 2 | (c & DOWN) << 2 | (c & LEFT) << 2 | BOUNDARY
}

/// The complete collision table applied to a streamed cell value. An ordinary
/// fluid cell swaps the two head-on pairs (exactly up+down becomes exactly
/// left+right and vice versa) and leaves every other pattern unchanged; a wall
/// cell reflects each particle back the way it came.
pub open spec fn collide(c: u8) -> u8 {
    if c & BOUNDARY == 0 {
        if c == 0b0101 {
            0b1010
        } else if c == 0b1010 {
            0b0101
        } else {
            c
        }
    } else {
        reflect(c)
    }
}

/// Resolve collisions in a streamed cell value.
pub fn resolve_collisions(cell_value: u8) -> (r: u8)
    ensures
        r == collide(cell_value),
{
    if cell_value & BOUNDARY == 0 {
        match cell_value {
            0b0101 => 0b1010,
            0b1010 => 0b0101,
            other => other,
        }
    } else {
        let up = cell_value & UP;
        let right = cell_value & RIGHT;
        let down = cell_value & DOWN;
        let left = cell_value & LEFT;
        up >> 2 | right >> 2 | down << 2 | left << 2 | BOUNDARY
    }
}

/// Mass conservation: for every occupation pattern of a non-boundary cell,
/// collision resolution preserves the total particle count.
pub proof fn lemma_collision_conserves_mass(c: u8)
    requires
        c & BOUNDARY == 0,
    ensures
        particle_count(collide(c)) == particle_count(c),
{
    assert(c & 0b0001_0000 == 0 ==> particle_count(collide(c)) == particle_count(c))
        by (bit_vector);
}

/// Collision involution: applying the collision rule twice to a non-boundary
/// cell returns the original pattern (in particular the head-on swap
/// 0101 -> 1010 -> 0101).
pub proof fn lemma_collision_involution(c: u8)
    requires
        c & BOUNDARY == 0,
    ensures
        collide(collide(c)) == c,
{
    assert(c & 0b0001_0000 == 0 ==> collide(collide(c)) == c) by (bit_vector);
}

/// Boundary reflection is self-inverse on direction pairs: reflecting a wall
/// cell's flags twice yields the original flags (the five flag bits).
pub proof fn lemma_reflection_involution(c: u8)
    requires
        c & BOUNDARY != 0,
    ensures
        collide(collide(c)) == c & 0b0001_1111,
        c < 32 ==> collide(collide(c)) == c,
{
    assert(c & 0b0001_0000 != 0 ==> collide(collide(c)) == c & 0b0001_1111)
        by (bit_vector);
    assert(c & 0b0001_0000 != 0 && c < 32 ==> c & 0b0001_1111 == c) by (bit_vector);
}

} // verus!
