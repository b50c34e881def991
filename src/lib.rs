//! A tick-driven battle on a bounded grid: one player vehicle, enemy vehicles
//! and projectiles, moved one step at a time with collision rules.

pub mod executor;
pub mod random;
pub mod world;
pub mod enemies;
pub mod shots;
pub mod play;
