//! Verified core of a two-dimensional gravity sandbox: bounded position
//! trails, the merge plan of a simulation step, the grid layout of batch
//! spawns, and the integer settings that steer the simulation.
pub mod collision;
pub mod controls;
pub mod grid;
pub mod trail;
