//! Frame logic of a small entity-component game: how input events set and
//! clear the intents of the player, in which order the systems of a frame
//! run, how animation cursors move, how camera and entities follow each
//! other, which cells of a level are solid, and in which order the
//! entities of a frame are drawn.
//!
//! Everything here works on plain values. Coordinates and scale factors are
//! type parameters: the library moves them around and never computes with
//! them.

pub mod animation;
pub mod assets;
pub mod camera;
pub mod components;
pub mod input;
pub mod physics;
pub mod render;
pub mod schedule;
pub mod systems;
pub mod terrain;
