//! Discrete gravity simulation of a few point masses, with exact-state
//! cycle detection over the simulated trajectory.
pub mod vec3;
pub mod body;
pub mod model;
pub mod pairs;
pub mod system;
pub mod cycle;
pub mod laws;
