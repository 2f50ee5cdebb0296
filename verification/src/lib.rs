//! Registry and delivery rules of a hub that pushes map edits to the clients
//! that watch a map, with the plain values of the map planner that go with
//! it.
pub mod actions;
pub mod broadcaster;
pub mod channel;
pub mod data;
pub mod event;
pub mod layers;
pub mod plantings;
pub mod registry;
