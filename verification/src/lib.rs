//! The verified core of a progressive path tracer.
//!
//! Radiance, directions and distances are computed by the caller, in
//! whatever number type it likes; this crate holds what surrounds them: the
//! accumulation buffer and its pass protocol, the display layout and its
//! encoding, the recursion of the integrator with its depth limit, and the
//! closest-hit query over distances given as ordered integer keys.

pub mod display;
pub mod distance;
pub mod image;
pub mod integrator;
pub mod objects;
