//! A planar flocking ("boids") simulation core.
//!
//! A fixed population of agents moves on the ground plane under three locally
//! computed steering rules — cohesion, separation and alignment — plus bounded
//! random noise. All coordinates are fixed-point integers (an abstract
//! milli-unit scale), so every frame update is an exact integer computation
//! with a proved contract.

pub mod arith;
pub mod bee;
pub mod config;
pub mod movement;
pub mod rng;
pub mod sim;
pub mod vec3;
