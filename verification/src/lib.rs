//! A two-dimensional N-body engine over decimal fixed-point numbers:
//! a mass-aware quadtree, Barnes–Hut gravity, elastic collisions and a
//! fixed-timestep integrator, together with the messages by which a server
//! offers a simulation to its clients.
pub mod codec;
pub mod fixed;
pub mod physics;
pub mod protocol;
pub mod quadtree;
pub mod simulation;
