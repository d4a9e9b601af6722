//! Authoritative simulation of a downhill race: procedural tracks, the
//! per-player motion state machine, collision resolution, the avalanche and
//! race lifecycle, and client-side smoothing of remote players.
//!
//! All quantities are fixed-point integers: lengths in thousandths of a world
//! unit, times in milliseconds, angles in milliradians.
pub mod collision;
pub mod config;
pub mod geometry;
pub mod highscores;
pub mod motion;
pub mod player;
pub mod race;
pub mod reconcile;
mod rng;
pub mod scores;
pub mod track;
