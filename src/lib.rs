//! Simulation core of a 2D arcade shoot-em-up.
//!
//! Lengths are integers in milli-units (1/1000 of an arena unit) and time
//! is counted in microseconds, so every rule of the game is exact integer
//! arithmetic.
pub mod shared;
pub mod timer;
pub mod events;
pub mod weapon;
pub mod projectiles;
pub mod enemy;
pub mod player;
pub mod level;
pub mod world;
pub mod game;
