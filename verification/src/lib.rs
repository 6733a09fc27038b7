//! Core of a space-trading simulation: celestial bodies follow Keplerian
//! orbits arranged in a hierarchy, free-flying ships move under the gravity
//! of the bodies that dominate their neighbourhood, a clock owns simulated
//! time, and a small message protocol keeps remote replicas in step with the
//! authoritative instance.
//!
//! Every physical quantity is an integer (kilometres, kilometres per day,
//! microdegrees), so each update is an exact, total function of its inputs:
//! propagation is deterministic, the leapfrog integrator is exactly
//! time-reversible, and the wire codec round-trips.

pub mod algebra;
pub mod bodies;
pub mod clock;
pub mod codec;
pub mod fixed;
pub mod game;
pub mod influence;
pub mod network;
pub mod orbit;
pub mod physics;
pub mod ships;
