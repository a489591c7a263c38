//! Simulation-run constants, validated once at construction.

use vstd::prelude::*;

use crate::arith::{MAX_POPULATION, WORLD_LIMIT};

verus! {

/// The constants of one simulation run: population, spawn rectangle and the
/// flocking parameters. All lengths are in fixed-point world coordinates.
#[derive(Clone, Copy, Debug)]
pub struct Config {
    /// Number of agents, fixed for the whole run.
    pub population: usize,
    /// Inclusive lower x bound of the spawn rectangle.
    pub x_min: i64,
    /// Exclusive upper x bound of the spawn rectangle.
    pub x_max: i64,
    /// Inclusive lower z bound of the spawn rectangle.
    pub z_min: i64,
    /// Exclusive upper z bound of the spawn rectangle.
    pub z_max: i64,
    /// Maximum distance at which another agent counts as a neighbor.
    pub vision_radius: i64,
    /// Neighbors strictly closer than this push the agent away.
    pub separation_threshold: i64,
    /// Bound of the random per-axis steering noise.
    pub noise: i64,
    /// The constant speed every steering agent is held to.
    pub speed: i64,
}

impl Config {
    /// A valid configuration: a population the arithmetic can carry, a
    /// nonempty spawn rectangle inside the world, a positive vision radius, a
    /// positive separation threshold no larger than the vision radius, a
    /// nonnegative noise bound and a positive speed, all within the world
    /// limit.
    pub open spec fn wf(self) -> bool {
        &&& self.population <= MAX_POPULATION
        &&& -WORLD_LIMIT <= self.x_min < self.x_max <= WORLD_LIMIT
        &&& -WORLD_LIMIT <= self.z_min < self.z_max <= WORLD_LIMIT
        &&& 0 < self.vision_radius <= WORLD_LIMIT
        &&& 0 < self.separation_threshold <= self.vision_radius
        &&& 0 <= self.noise <= WORLD_LIMIT
        &&& 0 < self.speed <= WORLD_LIMIT
    }

    /// Builds a configuration, rejecting one whose parameters are malformed
    /// or out of the range the simulation arithmetic supports.
    pub fn new(
        population: usize,
        x_min: i64,
        x_max: i64,
        z_min: i64,
        z_max: i64,
        vision_radius: i64,
        separation_threshold: i64,
        noise: i64,
        speed: i64,
    ) -> (r: Option<Config>)
        ensures
            r is Some <==> (Config {
                population,
                x_min,
                x_max,
                z_min,
                z_max,
                vision_radius,
                separation_threshold,
                noise,
                speed,
            }).wf(),
            r is Some ==> r->Some_0 == (Config {
                population,
                x_min,
                x_max,
                z_min,
                z_max,
                vision_radius,
                separation_threshold,
                noise,
                speed,
            }),
    {
        let ok = population <= MAX_POPULATION && -WORLD_LIMIT <= x_min && x_min < x_max
            && x_max <= WORLD_LIMIT && -WORLD_LIMIT <= z_min && z_min < z_max && z_max <= WORLD_LIMIT
            && 0 < vision_radius && vision_radius <= WORLD_LIMIT && 0 < separation_threshold
            && separation_threshold <= vision_radius && 0 <= noise && noise <= WORLD_LIMIT
            && 0 < speed && speed <= WORLD_LIMIT;
        if ok {
            Some(
                Config {
                    population,
                    x_min,
                    x_max,
                    z_min,
                    z_max,
                    vision_radius,
                    separation_threshold,
                    noise,
                    speed,
                },
            )
        } else {
            None
        }
    }
}

} // verus!
