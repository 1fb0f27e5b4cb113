//! Deterministic procedural generation of a 2D star field.
//!
//! The universe is an infinite grid of sectors. Whether a sector holds a
//! star, and what that star is, follows from a coordinate hash mixed with a
//! global seed, so nothing has to be stored ahead of time: sectors are
//! loaded around the camera on demand and forgotten again when it moves on.

pub mod generation;
pub mod univers;
pub mod astrophysique;
pub mod anecdotes;
pub mod camera;
