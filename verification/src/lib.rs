//! Spatial core of a tile-based world: a grid of tiles with edge walls,
//! movement blocking, field of view, reachability and area-of-effect rings.

pub mod types;
pub mod line;
pub mod utils;
pub mod movement;
pub mod map;
pub mod blocking;
pub mod fov;
pub mod sight;
pub mod pathing;
pub mod reach;
pub mod aoe;
pub mod placement;
pub mod obstacles;
pub mod structures;
pub mod entities;
pub mod index;
