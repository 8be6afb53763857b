//! A turn-based simulation core for a wrap-around hexagonal world: a grid of
//! tiles, an arena of actors, per-tick action resolution and world generation.

pub mod hex;
pub mod lemmas;
pub mod random;
pub mod rules;
pub mod sim;
pub mod world;
pub mod worldgen;
