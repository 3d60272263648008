//! Simulation core of a turn-based isometric tactics engine: the isometric
//! coordinate engine, the world file decoder, units and projectiles, the
//! order and turn state machine, input selection and render ordering.
//!
//! All quantities are exact integers. World positions are kept in
//! millionths of a tile, times in microseconds, health in thousandths of a
//! hit point.

pub mod fixed;
pub mod tiles;
pub mod entity;
pub mod projectile;
pub mod world;
pub mod orders;
pub mod turn;
pub mod input;
pub mod codec;
pub mod render;
pub mod resources;
