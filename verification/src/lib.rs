//! A verified dungeon-level toolkit: a fixed-size tile grid carved with
//! randomized, non-overlapping rectangular rooms connected by L-shaped
//! corridors, plus grid-aware, collision-checked entity movement.

pub mod dungeon;
pub mod entity;
pub mod grid;
pub mod reach;
pub mod rect;
pub mod rng;
pub mod tile;
