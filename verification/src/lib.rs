//! Core of a continuous-time recurrent network simulator.
//!
//! The crate owns the pieces of the dynamics engine that are pure data
//! manipulation and control: the sparse connectivity store (CSR and COO
//! forms with verified conversions), the layout of the flat parameter
//! buffer that packs weights, bias and activation parameters, shape
//! validation for a dynamics evaluation, and the accept/reject/stall
//! control of the adaptive integrator.
//!
//! The floating-point numerics themselves (the activation function, the
//! sparse matrix-vector product and the Runge-Kutta stage arithmetic)
//! live outside the verified library; they hand their decisions and data
//! through the plain-valued interfaces defined here.  Scalar payloads
//! cross the boundary as opaque 32-bit words (`u32` bit patterns), which
//! the library moves verbatim and never interprets.

pub mod control;
pub mod dynamics;
pub mod errors;
pub mod params;
pub mod sparse;

