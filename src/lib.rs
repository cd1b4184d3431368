//! A two-dimensional mass-spring-angle simulator.
//!
//! Joints are point masses; rods hold two joints at a rest distance, angular
//! constraints hold three joints at a captured angle. The engine is generic
//! over its number type (see [`scalar::Scalar`]), so that the bookkeeping,
//! the order of the force steps and the topology of the scenario builders are
//! verified apart from the arithmetic that the host supplies.
//!
//! - [`physics`]: the world (joints, rods, angular constraints, bounds,
//!   wind) and its simulation step, with the force steps in
//!   [`physics::forces`];
//! - [`scenario`]: builders of demonstration worlds, and their registry;
//! - [`vector`], [`scalar`]: plane vectors over the number type;
//! - [`rng`]: random draws for the builders from a caller's generator.
pub mod scalar;
pub mod vector;
pub mod physics;
pub mod rng;
pub mod scenario;
