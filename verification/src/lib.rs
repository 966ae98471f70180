//! An HPP-type lattice-gas cellular automaton: a grid of cells, each holding
//! up to four unit particles travelling in the cardinal directions, updated by
//! alternating streaming and collision steps, with bounce-back boundary cells,
//! stochastic sources, and block-aggregated rendering to an RGB byte buffer.

pub mod analysis;
pub mod cell;
pub mod config;
pub mod engine;
pub mod grid;
