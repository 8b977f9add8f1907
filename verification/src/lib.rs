//! Core of a tile-grid arcade simulation: entity identity and lifecycle,
//! fixed-schema component storage, a dynamic per-entity property bag,
//! deferred structural mutation through command queues, and the periodic
//! timer primitives that pace gameplay.
//!
//! Rendering, audio and window plumbing are external collaborators; the
//! library talks to them only through plain values (draw primitives, sound
//! identifiers, key codes) and keeps all simulation state itself.

pub mod common;
pub mod entity;
pub mod manager;
pub mod palette;
pub mod props;
pub mod render;
pub mod scene;
pub mod sound;
pub mod storages;
pub mod table;
pub mod text;
pub mod time;

mod rng;
