//! Procedural generation of a single tile-based dungeon level.
//!
//! A level is a fixed-size grid of wall and floor tiles. Rooms are sampled
//! from a random source and stamped into the grid when they keep clear of
//! every room sampled before them; corridors then link rooms that are
//! neighbours from left to right.

pub mod corridors;
pub mod geometry;
pub mod grid;
pub mod map_builder;
pub mod placement;
pub mod random;
pub mod sorting;

pub use geometry::{Point, Rect};
pub use grid::{map_idx, Grid, TileType, NUM_TILES, SCREEN_HEIGHT, SCREEN_WIDTH};
pub use map_builder::MapBuilder;
pub use placement::NUM_ROOMS;
pub use random::{Lcg, RandomSource, Scripted};
