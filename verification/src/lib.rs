//! Collision and movement core for a first-person prototype whose world is a
//! signed-distance field evaluated on the GPU.
//!
//! The core keeps the registry of shapes that the distance kernel reads,
//! builds the batches that are sent to the kernel and reduces its replies to
//! events, and applies the events to the player and to the grenades. The
//! kernel itself, the input and the scene belong to whoever embeds the core.
//!
//! All quantities are fixed-point numbers with sixteen fractional bits, and
//! time steps are whole microseconds, so that every operation has an exact
//! integer meaning and a tick gives the same result on every machine.

pub mod fixed;
pub mod vector;
pub mod slots;
pub mod sdf_controller;
pub mod map;
pub mod map_text;
pub mod map_print;
pub mod query;
pub mod player;
pub mod grenade;
pub mod game_controller;
