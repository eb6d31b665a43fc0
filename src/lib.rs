//! Particle-life simulation in fixed-point arithmetic: typed particles attract
//! and repel one another through a type-by-type coefficient table.
pub mod math;
pub mod particle;
pub mod simulation;
