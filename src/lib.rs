//! Procedural generation of a multi-floor grid dungeon.
//!
//! The library builds a stack of floors joined by aligned staircases and keeps
//! every floor reachable from its spawn point. The connectivity checker, the
//! stair planner, the corridor repair and the per-floor generator are verified
//! against the contracts stated on each function.

pub mod geometry;
pub mod error;
pub mod level;
pub mod connectivity;
pub mod room;
pub mod config;
pub mod random;
pub mod generator;
pub mod corridor;
pub mod stairs;
pub mod placement;
pub mod carving;
pub mod floor;
pub mod world;
pub mod dungeon;
pub mod single;
pub mod content;
pub mod autoexplore;

pub use config::GenerationConfig;
pub use error::{ThatchError, ThatchResult};
pub use generator::{RoomCorridorGenerator, RoomPlacementStrategy};
pub use geometry::{Direction, Position};
pub use level::{Level, Tile, TileType};
pub use room::{Room, RoomType};
pub use world::World;
