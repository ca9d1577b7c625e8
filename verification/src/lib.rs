//! A tick-based combat simulation for a ranged hunter: gear and gem-power
//! configuration, the gem power tree that turns per-colour gem power into
//! static effects, and the simulation loop that lets a policy pick abilities.

pub mod common;
pub mod gem;
pub mod config;
pub mod sim;
pub mod invariants;
pub mod tick_laws;
pub mod gear_laws;
