//! A real-time N-body gravitational simulation engine.
//!
//! The engine advances a collection of point masses under a configurable
//! power-law interaction, using a generic fourth-order Runge-Kutta
//! integrator that knows nothing about the physics.  All quantities are
//! carried in a saturating 64-bit fixed-point scalar type so that every
//! arithmetic step has an exact, machine-checked meaning.
pub mod body;
pub mod driver;
pub mod integrator;
pub mod scalar;
pub mod sim;
pub mod system;
