//! A 2D position-based (Verlet) particle simulation over fixed-point integer
//! coordinates: gravity, pairwise overlap resolution and an arena constraint,
//! each pass stated as a function on sequences of bodies.
pub mod vector;
pub mod object;
pub mod solver;
pub mod laws;

pub use object::{Rgba, VerletObject};
pub use solver::{Arena, Options, Solver};
pub use vector::Vec2;
