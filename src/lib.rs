//! A breakout-style arcade game's simulation: a paddle, a grid of blocks
//! that wear down as balls strike them, and balls that bounce among the
//! screen walls, the paddle and the blocks.
//!
//! All geometry is held in integer sub-pixel units (see
//! [`geometry::UNITS_PER_PIXEL`]) and directions in fixed point (see
//! [`geometry::DIR_ONE`]), so that every frame's update is exact and proved.
pub mod collision;
pub mod entities;
pub mod geometry;

mod chance;

pub use collision::resolve_collision;
pub use entities::{Ball, Block, Player, Tint};
pub use geometry::{Dir, Rect, DIR_ONE, SIZE_LIMIT, UNITS_PER_PIXEL, WORLD_LIMIT};
pub mod game;
