//! Geometry and bookkeeping behind the overlay's features.

pub mod capsule;
pub mod collision;
pub mod geometry;
pub mod glb;
pub mod grenade_trajectory;
pub mod grid;
pub mod json;
pub mod map_loader;
pub mod player;
pub mod query;
pub mod sniper_crosshair;
