//! Mirrors a tagged subset of a primary entity store into a secondary store,
//! one cycle at a time.
//!
//! Attaching the tag to a primary entity asks for a mirrored entity in the
//! secondary store; detaching it asks for that mirror to be destroyed.
//! Tag transitions are captured as lifecycle records in an append-only
//! queue, and once per cycle the sync system drains the queue in capture
//! order, creating and destroying mirrored entities and keeping a
//! bidirectional identity map in step. A reaper then destroys every
//! secondary entity carrying the ephemeral marker.

pub mod entity;
pub mod identity_map;
pub mod laws;
pub mod main_world;
pub mod pending;
pub mod render_world;
pub mod state;
pub mod sync;
