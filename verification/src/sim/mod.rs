//! Simulation of a circuit over time.

pub mod transient;
