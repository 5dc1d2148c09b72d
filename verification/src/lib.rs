//! A grid-based constraint-propagation engine for procedural tile
//! generation: every cell of a rectangular grid starts with the full set of
//! tile codes as candidates, and collapsing a cell to one code removes the
//! codes that its neighbours can no longer take.
//!
//! - `tiles`: the sets of tile codes and of cells, over the hash sets of
//!   `bevy::utils`;
//! - `catalog`: the constraints and the asset of each tile code;
//! - `grid`: the cells, the worklist and the operations on one cell;
//! - `engine`: the propagation, the step and the hand-over for rendering;
//! - `model`: what all of these are as plain values, which the contracts
//!   speak of;
//! - `proofs`: what holds of the model's operations;
//! - `laws`: what holds of the engine as a whole;
//! - `spaceship`: the name of the spaceship game that the host runs.

pub mod catalog;
pub mod engine;
pub mod grid;
pub mod laws;
pub mod model;
pub mod proofs;
pub mod spaceship;
pub mod tiles;
