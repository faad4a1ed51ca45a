//! A small falling-sand simulation kernel: a 2-D grid of material cells
//! (empty space, granular solids, liquids) that fall, flow, diffuse a
//! moisture property, and react with their neighbours, advanced one
//! discrete tick at a time.
//!
//! The crate is split into the cell value model ([`cell`]), the reaction
//! table ([`reactions`]), and the grid engine with its per-tick pipeline
//! ([`sandbox`]).

pub mod cell;
pub mod reactions;
mod rng;
pub mod sandbox;
