//! A classical molecular-dynamics engine over saturating fixed-point
//! arithmetic.
//!
//! The engine evolves point particles (optionally grouped into bonded
//! molecular systems) under pairwise Lennard-Jones and harmonic bond
//! forces inside a periodic cubic box, with velocity-Verlet integration
//! and optional thermostat / barostat coupling.  All quantities are
//! `i64` values counting millionths of the corresponding physical unit,
//! so every computation has exact integer semantics and is verified
//! end to end.
//!
//! Degrees-of-freedom convention: wherever this crate computes a
//! temperature itself it uses `3 * N` degrees of freedom for `N`
//! particles; routines that take a `dof` argument leave the convention
//! to the caller.

pub mod fixed;
pub mod vec3;
pub mod pbc;
pub mod particle;
pub mod lj;
pub mod grid;
pub mod forces;
pub mod molecule;
pub mod rng;
pub mod thermostat;
pub mod barostat;
pub mod driver;
pub mod stats;
pub mod ensembles;
