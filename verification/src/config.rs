//! The immutable per-run configuration: grid dimensions, analysis block size,
//! iteration schedule and colouring policy.

use vstd::prelude::*;

verus! {

/// How a block's aggregate is mapped to a colour.
#[derive(Clone, Copy, PartialEq, Eq, Structural, Debug)]
pub enum Colouring {
    /// Show density in black and white (brighter is denser).
    DensityBW,
    /// Show direction of transport with hue, magnitude with value.
    VelocityColour,
}

/// Pure value object describing one simulation run.
pub struct Config {
    pub width: usize,
    pub height: usize,
    pub downscale: usize,
    pub iterations: usize,
    pub frameskip: usize,
    pub colouring: Colouring,
}

impl Config {
    pub fn new(
        width: usize,
        height: usize,
        downscale: usize,
        iterations: usize,
        frameskip: usize,
        colouring: Colouring,
    ) -> (c: Config)
        ensures
            c.width == width,
            c.height == height,
            c.downscale == downscale,
            c.iterations == iterations,
            c.frameskip == frameskip,
            c.colouring == colouring,
    {
        Config { width, height, downscale, iterations, frameskip, colouring }
    }
}

} // verus!
