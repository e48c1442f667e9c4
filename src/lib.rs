//! Server-side engine of a real-time multiplayer line-steering arena game:
//! players, the occupancy grid, the tick-driven collision simulation, rooms
//! and the registry of rooms.
pub mod chance;
pub mod game;
pub mod grid;
pub mod message;
pub mod names;
pub mod player;
pub mod registry;
pub mod room;
