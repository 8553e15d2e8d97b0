//! The verified skeleton of an offline path tracer.
//!
//! The crate holds what a render decides and keeps track of: the path
//! integrator that follows a ray from encounter to encounter, the scene list
//! that finds the nearest hit, the frame buffer and the walk over its
//! pixels, the partition of its rows among workers, the congruential random
//! source, and the text of the rendered image.
//!
//! Rays, distances and radiances are the caller's own types: the crate asks
//! the caller what a ray meets and what colour a pixel gets, and never looks
//! into the values it carries. Everything it does with them is proved, for
//! every type and every caller.

pub mod color;
pub mod framebuffer;
pub mod integrator;
pub mod random;
pub mod scene;
pub mod schedule;
pub mod text;
