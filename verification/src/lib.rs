//! Data-driven prefab instantiation with hot reload.
//!
//! A room document describes a scene as a keyed collection of prefab
//! entries, each naming an archetype and carrying a bag of named scalar
//! fields.  A registry maps archetype names to handlers that turn field
//! bags into attribute operations on entities.  A tracker reconciles the
//! live entities of each loaded room against newly loaded or changed
//! documents: it spawns entries that are new, updates only the fields
//! that changed, and despawns entries that disappeared.

pub mod data;
pub mod field;
pub mod handlemap;
pub mod num;
pub mod parse;
pub mod prefab;
pub mod registry;
pub mod room;
pub mod strmap;
pub mod tracker;
pub mod world;
