//! Authoritative world state for a realtime multiplayer server.
//!
//! The world owns every player's position, rotation and area of interest,
//! applies the commands that sessions send it, and on each tick hands every
//! interested player the entities that lie within its region.

pub mod geometry;
pub mod wire;
pub mod model;
pub mod laws;
pub mod channel;
pub mod world;
pub mod protocol;
pub mod session;
