//! The simulation: the agent store and the ordered per-frame passes —
//! neighbor discovery, the three steering passes, and integration.

use vstd::prelude::*;

use crate::arith::{abs, DT_LIMIT, MAX_POPULATION, SEP_LIMIT, UNIT, WORLD_LIMIT};
use crate::bee::{
    alignment_sum, cohesion_sum, in_sight, separation_sum, snapshot_of, snapshot_prefix, Bee,
    Transform,
};
use crate::config::Config;
use crate::movement::{
    drifted_velocity, facing_blend, renorm_spec, renormalize, Acceleration, Velocity,
    BLEND_DIVISOR,
};
use crate::vec3::{
    dist_sq, dist_sq_exec, v3, v3_add, v3_bounded, v3_div, v3_sub, v3_zero, Vec3i, V3,
};

verus! {

/// A whole simulation run: the configuration and, per agent, its transform,
/// velocity, acceleration and frame-scratch flocking state, in parallel
/// columns indexed by agent.
pub struct Simulation {
    /// The run constants, fixed at spawn.
    pub config: Config,
    /// Position and facing of each agent.
    pub transforms: Vec<Transform>,
    /// Velocity of each agent.
    pub velocities: Vec<Velocity>,
    /// Acceleration of each agent; zero throughout this design.
    pub accelerations: Vec<Acceleration>,
    /// Neighbor snapshot and steering vectors of each agent.
    pub bees: Vec<Bee>,
}

impl Simulation {
    /// The population, as a mathematical integer.
    pub open spec fn pop(self) -> int {
        self.config.population as int
    }

    /// The durable per-agent invariant: the velocity is planar and within the
    /// configured speed, the acceleration is zero, the facing is planar and
    /// within the world, and the position height is on the ground plane.
    pub open spec fn agent_ok(self, i: int) -> bool {
        &&& v3_bounded(v3(self.velocities@[i].value), self.config.speed as int)
        &&& self.velocities@[i].value.y == 0
        &&& v3(self.accelerations@[i].value) == v3_zero()
        &&& v3_bounded(v3(self.transforms@[i].facing), WORLD_LIMIT as int)
        &&& self.transforms@[i].facing.y == 0
        &&& self.transforms@[i].translation.y == 0
    }

    /// The frame-scratch invariant of one agent: the snapshot is no longer
    /// than the population cap and holds in-world entries, and the steering
    /// vectors are within the bounds their passes can produce.
    pub open spec fn scratch_ok(self, i: int) -> bool {
        &&& self.bees@[i].in_sight_bees@.len() <= MAX_POPULATION
        &&& forall|j: int| 0 <= j < self.bees@[i].in_sight_bees@.len() ==> {
            &&& v3_bounded(
                v3((#[trigger] self.bees@[i].in_sight_bees@[j]).0.translation),
                WORLD_LIMIT as int,
            )
            &&& v3_bounded(v3(self.bees@[i].in_sight_bees@[j].1.value), WORLD_LIMIT as int)
        }
        &&& v3_bounded(v3(self.bees@[i].cohesion), WORLD_LIMIT as int)
        &&& v3_bounded(v3(self.bees@[i].separation), SEP_LIMIT as int)
        &&& v3_bounded(v3(self.bees@[i].alignment), WORLD_LIMIT as int)
    }

    /// Well-formedness of the whole simulation: a valid configuration, four
    /// columns of equal length, and every agent's durable and scratch
    /// invariants.
    pub open spec fn inv(self) -> bool {
        &&& self.config.wf()
        &&& self.transforms@.len() == self.pop()
        &&& self.velocities@.len() == self.pop()
        &&& self.accelerations@.len() == self.pop()
        &&& self.bees@.len() == self.pop()
        &&& forall|i: int| 0 <= i < self.pop() ==> #[trigger] self.agent_ok(i)
        &&& forall|i: int| 0 <= i < self.pop() ==> #[trigger] self.scratch_ok(i)
    }

    /// All agents are inside the modeled world; the frame passes need it, and
    /// an agent may fly out of it over time.
    pub open spec fn positions_ok(self) -> bool {
        forall|i: int| 0 <= i < self.pop() ==> v3_bounded(
            v3((#[trigger] self.transforms@[i]).translation),
            WORLD_LIMIT as int,
        )
    }

    /// The number of agents.
    pub fn population(&self) -> (r: usize)
        ensures
            r == self.config.population,
    {
        self.config.population
    }

    /// The transform of agent `i`.
    pub fn transform_at(&self, i: usize) -> (r: Transform)
        requires
            i < self.transforms@.len(),
        ensures
            r == self.transforms@[i as int],
    {
        self.transforms[i]
    }

    /// The velocity of agent `i`.
    pub fn velocity_at(&self, i: usize) -> (r: Velocity)
        requires
            i < self.velocities@.len(),
        ensures
            r == self.velocities@[i as int],
    {
        self.velocities[i]
    }

    /// How many agents sit in agent `i`'s current neighbor snapshot.
    pub fn neighbor_count_at(&self, i: usize) -> (r: usize)
        requires
            i < self.bees@.len(),
        ensures
            r == self.bees@[i as int].in_sight_bees@.len(),
    {
        self.bees[i].in_sight_bees.len()
    }

    /// One entry of agent `i`'s neighbor snapshot.
    pub fn neighbor_at(&self, i: usize, j: usize) -> (r: (Transform, Velocity))
        requires
            i < self.bees@.len(),
            j < self.bees@[i as int].in_sight_bees@.len(),
        ensures
            r == self.bees@[i as int].in_sight_bees@[j as int],
    {
        self.bees[i].in_sight_bees[j]
    }

    /// The cohesion vector of agent `i`.
    pub fn cohesion_at(&self, i: usize) -> (r: Vec3i)
        requires
            i < self.bees@.len(),
        ensures
            r == self.bees@[i as int].cohesion,
    {
        self.bees[i].cohesion
    }

    /// The separation vector of agent `i`.
    pub fn separation_at(&self, i: usize) -> (r: Vec3i)
        requires
            i < self.bees@.len(),
        ensures
            r == self.bees@[i as int].separation,
    {
        self.bees[i].separation
    }

    /// The alignment vector of agent `i`.
    pub fn alignment_at(&self, i: usize) -> (r: Vec3i)
        requires
            i < self.bees@.len(),
        ensures
            r == self.bees@[i as int].alignment,
    {
        self.bees[i].alignment
    }
}

/// A velocity an agent can spawn with: some planar direction drawn from the
/// fixed-point unit square, renormalized onto the given speed. The zero draw
/// renormalizes to a standstill rather than dividing by zero.
pub open spec fn random_heading_ok(vel: Vec3i, speed: int) -> bool {
    exists|dx: int, dz: int| {
        &&& -UNIT <= dx < UNIT
        &&& -UNIT <= dz < UNIT
        &&& v3(vel) == renorm_spec(V3 { x: dx, y: 0, z: dz }, speed)
    }
}

/// The facing an agent spawns with: along its velocity, or along a default
/// forward direction when the velocity has no direction to look along.
pub open spec fn initial_facing_spec(vel: Vec3i) -> Vec3i {
    if v3(vel) == v3_zero() {
        Vec3i { x: 0, y: 0, z: (-UNIT) as i64 }
    } else {
        vel
    }
}

/// Builds the spawn facing of a velocity.
fn initial_facing(vel: Vec3i) -> (r: Vec3i)
    ensures
        r == initial_facing_spec(vel),
{
    if vel.x == 0 && vel.y == 0 && vel.z == 0 {
        Vec3i::new(0, 0, -UNIT)
    } else {
        vel
    }
}

/// Acceptable manual agent state: one position and one velocity per agent,
/// positions inside the world and on the ground plane, velocities planar and
/// within the configured speed.
pub open spec fn agents_input_ok(config: Config, ps: Seq<Vec3i>, vs: Seq<Vec3i>) -> bool {
    &&& ps.len() == config.population
    &&& vs.len() == config.population
    &&& forall|i: int| 0 <= i < ps.len() ==> {
        &&& v3_bounded(v3(#[trigger] ps[i]), WORLD_LIMIT as int)
        &&& ps[i].y == 0
    }
    &&& forall|i: int| 0 <= i < vs.len() ==> {
        &&& v3_bounded(v3(#[trigger] vs[i]), config.speed as int)
        &&& vs[i].y == 0
    }
}

impl Simulation {
    /// Builds a simulation from explicitly given agent positions and
    /// velocities — the deterministic counterpart of `spawn`, for callers
    /// that lay agents out themselves. Succeeds exactly when the inputs are
    /// acceptable for the configuration.
    pub fn with_agents(config: Config, positions: &Vec<Vec3i>, velocities: &Vec<Vec3i>) -> (r:
        Option<Simulation>)
        requires
            config.wf(),
        ensures
            r is Some <==> agents_input_ok(config, positions@, velocities@),
            r is Some ==> {
                let sim = r->Some_0;
                &&& sim.inv()
                &&& sim.positions_ok()
                &&& sim.config == config
                &&& forall|i: int| 0 <= i < sim.pop() ==> {
                    &&& (#[trigger] sim.transforms@[i]).translation == positions@[i]
                    &&& sim.transforms@[i].facing == initial_facing_spec(velocities@[i])
                    &&& sim.velocities@[i].value == velocities@[i]
                    &&& v3(sim.accelerations@[i].value) == v3_zero()
                    &&& sim.bees@[i].in_sight_bees@.len() == 0
                    &&& v3(sim.bees@[i].cohesion) == v3_zero()
                    &&& v3(sim.bees@[i].separation) == v3_zero()
                    &&& v3(sim.bees@[i].alignment) == v3_zero()
                }
            },
    {
        let n = config.population;
        if positions.len() != n || velocities.len() != n {
            return None;
        }
        let mut i: usize = 0;
        while i < n
            invariant
                n == config.population,
                positions@.len() == n,
                velocities@.len() == n,
                config.wf(),
                i <= n,
                forall|k: int| 0 <= k < i ==> {
                    &&& v3_bounded(v3(#[trigger] positions@[k]), WORLD_LIMIT as int)
                    &&& positions@[k].y == 0
                },
                forall|k: int| 0 <= k < i ==> {
                    &&& v3_bounded(v3(#[trigger] velocities@[k]), config.speed as int)
                    &&& velocities@[k].y == 0
                },
            decreases n - i,
        {
            let p = positions[i];
            let v = velocities[i];
            let p_ok = -WORLD_LIMIT <= p.x && p.x <= WORLD_LIMIT && p.y == 0 && -WORLD_LIMIT <= p.z
                && p.z <= WORLD_LIMIT;
            let v_ok = -config.speed <= v.x && v.x <= config.speed && v.y == 0
                && -config.speed <= v.z && v.z <= config.speed;
            if !(p_ok && v_ok) {
                return None;
            }
            i += 1;
        }
        let mut transforms: Vec<Transform> = Vec::new();
        let mut vels: Vec<Velocity> = Vec::new();
        let mut accelerations: Vec<Acceleration> = Vec::new();
        let mut bees: Vec<Bee> = Vec::new();
        let mut k: usize = 0;
        while k < n
            invariant
                n == config.population,
                positions@.len() == n,
                velocities@.len() == n,
                config.wf(),
                agents_input_ok(config, positions@, velocities@),
                k <= n,
                transforms@.len() == k,
                vels@.len() == k,
                accelerations@.len() == k,
                bees@.len() == k,
                forall|w: int| 0 <= w < k ==> {
                    &&& (#[trigger] transforms@[w]).translation == positions@[w]
                    &&& transforms@[w].facing == initial_facing_spec(velocities@[w])
                    &&& vels@[w].value == velocities@[w]
                    &&& v3(accelerations@[w].value) == v3_zero()
                    &&& bees@[w].in_sight_bees@.len() == 0
                    &&& v3(bees@[w].cohesion) == v3_zero()
                    &&& v3(bees@[w].separation) == v3_zero()
                    &&& v3(bees@[w].alignment) == v3_zero()
                },
            decreases n - k,
        {
            let p = positions[k];
            let v = velocities[k];
            transforms.push(Transform::new(p, initial_facing(v)));
            vels.push(Velocity::new(v));
            accelerations.push(Acceleration::new(Vec3i::zero()));
            bees.push(Bee::new());
            k += 1;
        }
        let ghost gt = transforms@;
        let ghost gv = vels@;
        let ghost ga = accelerations@;
        let ghost gb = bees@;
        let sim = Simulation { config, transforms, velocities: vels, accelerations, bees };
        proof {
            assert forall|i2: int| 0 <= i2 < sim.pop() implies #[trigger] sim.agent_ok(i2) by {
                assert(gt[i2].translation == positions@[i2]);
                assert(gt[i2].facing == initial_facing_spec(velocities@[i2]));
                assert(gv[i2].value == velocities@[i2]);
                assert(v3(ga[i2].value) == v3_zero());
                assert(v3_bounded(v3(velocities@[i2]), config.speed as int));
                assert(velocities@[i2].y == 0);
                assert(v3_bounded(v3(positions@[i2]), WORLD_LIMIT as int));
            }
            assert forall|i2: int| 0 <= i2 < sim.pop() implies #[trigger] sim.scratch_ok(i2) by {
                assert(gt[i2].translation == positions@[i2]);
                assert(gb[i2].in_sight_bees@.len() == 0);
                assert(v3(gb[i2].cohesion) == v3_zero());
                assert(v3(gb[i2].separation) == v3_zero());
                assert(v3(gb[i2].alignment) == v3_zero());
            }
        }
        Some(sim)
    }

    /// Spawns the configured population: every agent at a uniformly random
    /// point of the spawn rectangle on the ground plane, heading a uniformly
    /// random planar direction at the configured speed — or standing still in
    /// the degenerate case where the random direction came out zero — with
    /// empty flocking scratch state.
    pub fn spawn(config: Config) -> (r: Simulation)
        requires
            config.wf(),
        ensures
            r.inv(),
            r.positions_ok(),
            r.config == config,
            forall|i: int| 0 <= i < r.pop() ==> {
                &&& config.x_min <= (#[trigger] r.transforms@[i]).translation.x < config.x_max
                &&& r.transforms@[i].translation.y == 0
                &&& config.z_min <= r.transforms@[i].translation.z < config.z_max
                &&& r.transforms@[i].facing == initial_facing_spec(r.velocities@[i].value)
                &&& random_heading_ok(r.velocities@[i].value, config.speed as int)
                &&& r.bees@[i].in_sight_bees@.len() == 0
                &&& v3(r.bees@[i].cohesion) == v3_zero()
                &&& v3(r.bees@[i].separation) == v3_zero()
                &&& v3(r.bees@[i].alignment) == v3_zero()
            },
    {
        let n = config.population;
        let mut transforms: Vec<Transform> = Vec::new();
        let mut vels: Vec<Velocity> = Vec::new();
        let mut accelerations: Vec<Acceleration> = Vec::new();
        let mut bees: Vec<Bee> = Vec::new();
        let mut k: usize = 0;
        while k < n
            invariant
                n == config.population,
                config.wf(),
                k <= n,
                transforms@.len() == k,
                vels@.len() == k,
                accelerations@.len() == k,
                bees@.len() == k,
                forall|w: int| 0 <= w < k ==> {
                    &&& config.x_min <= (#[trigger] transforms@[w]).translation.x < config.x_max
                    &&& transforms@[w].translation.y == 0
                    &&& config.z_min <= transforms@[w].translation.z < config.z_max
                    &&& transforms@[w].facing == initial_facing_spec(vels@[w].value)
                    &&& random_heading_ok(vels@[w].value, config.speed as int)
                    &&& v3_bounded(v3(vels@[w].value), config.speed as int)
                    &&& vels@[w].value.y == 0
                    &&& v3(accelerations@[w].value) == v3_zero()
                    &&& bees@[w].in_sight_bees@.len() == 0
                    &&& v3(bees@[w].cohesion) == v3_zero()
                    &&& v3(bees@[w].separation) == v3_zero()
                    &&& v3(bees@[w].alignment) == v3_zero()
                },
            decreases n - k,
        {
            let x = crate::rng::rand_range(config.x_min, config.x_max);
            let z = crate::rng::rand_range(config.z_min, config.z_max);
            let dx = crate::rng::rand_range(-UNIT, UNIT);
            let dz = crate::rng::rand_range(-UNIT, UNIT);
            let dir = Vec3i::new(dx, 0, dz);
            let vel = renormalize(&dir, config.speed);
            let ghost wi = k as int;
            transforms.push(Transform::new(Vec3i::new(x, 0, z), initial_facing(vel)));
            vels.push(Velocity::new(vel));
            accelerations.push(Acceleration::new(Vec3i::zero()));
            bees.push(Bee::new());
            proof {
                assert(v3(dir) == V3 { x: dx as int, y: 0, z: dz as int });
                assert(vels@[wi].value == vel);
                assert(-UNIT <= (dx as int) && (dx as int) < UNIT);
                assert(-UNIT <= (dz as int) && (dz as int) < UNIT);
                assert(v3(vels@[wi].value) == renorm_spec(
                    V3 { x: dx as int, y: 0, z: dz as int },
                    config.speed as int,
                ));
                assert(random_heading_ok(vels@[wi].value, config.speed as int));
            }
            k += 1;
        }
        let ghost gt = transforms@;
        let ghost gv = vels@;
        let ghost ga = accelerations@;
        let ghost gb = bees@;
        let sim = Simulation { config, transforms, velocities: vels, accelerations, bees };
        proof {
            assert forall|i2: int| 0 <= i2 < sim.pop() implies #[trigger] sim.agent_ok(i2) by {
                assert(gt[i2].translation.y == 0);
                assert(gt[i2].facing == initial_facing_spec(gv[i2].value));
                assert(v3_bounded(v3(gv[i2].value), config.speed as int));
                assert(gv[i2].value.y == 0);
                assert(v3(ga[i2].value) == v3_zero());
            }
            assert forall|i2: int| 0 <= i2 < sim.pop() implies #[trigger] sim.scratch_ok(i2) by {
                assert(gt[i2].translation.y == 0);
                assert(gb[i2].in_sight_bees@.len() == 0);
                assert(v3(gb[i2].cohesion) == v3_zero());
                assert(v3(gb[i2].separation) == v3_zero());
                assert(v3(gb[i2].alignment) == v3_zero());
            }
            assert forall|i2: int| 0 <= i2 < sim.pop() implies v3_bounded(
                v3((#[trigger] sim.transforms@[i2]).translation),
                WORLD_LIMIT as int,
            ) by {
                assert(config.x_min <= gt[i2].translation.x < config.x_max);
                assert(config.z_min <= gt[i2].translation.z < config.z_max);
            }
        }
        sim
    }

    /// The neighbor-finder pass: every agent rescans the whole population and
    /// snapshots the position and velocity of each agent within the vision
    /// radius, itself included, in population order. Nothing else changes.
    pub fn get_in_sight_bees(&mut self)
        requires
            old(self).inv(),
            old(self).positions_ok(),
        ensures
            final(self).inv(),
            final(self).positions_ok(),
            final(self).config == old(self).config,
            final(self).transforms@ == old(self).transforms@,
            final(self).velocities@ == old(self).velocities@,
            final(self).accelerations@ == old(self).accelerations@,
            final(self).bees@.len() == old(self).bees@.len(),
            forall|i: int| 0 <= i < old(self).pop() ==> {
                &&& (#[trigger] final(self).bees@[i]).in_sight_bees@ == snapshot_of(
                    old(self).transforms@,
                    old(self).velocities@,
                    v3(old(self).transforms@[i].translation),
                    old(self).config.vision_radius as int,
                )
                &&& final(self).bees@[i].cohesion == old(self).bees@[i].cohesion
                &&& final(self).bees@[i].separation == old(self).bees@[i].separation
                &&& final(self).bees@[i].alignment == old(self).bees@[i].alignment
            },
    {
        let n = self.config.population;
        let radius = self.config.vision_radius;
        proof {
            let ri = radius as int;
            assert(ri * ri <= u128::MAX as int) by (nonlinear_arith)
                requires
                    0 <= ri <= 1_000_000_000_000,
            ;
        }
        let rr: u128 = (radius as u128) * (radius as u128);
        let ghost cfg0 = self.config;
        let ghost ts0 = self.transforms@;
        let ghost vs0 = self.velocities@;
        let ghost as0 = self.accelerations@;
        let ghost bees0 = self.bees@;
        proof {
            assert forall|k: int| 0 <= k < n implies v3_bounded(
                v3((#[trigger] ts0[k]).translation),
                WORLD_LIMIT as int,
            ) && v3_bounded(v3(vs0[k].value), WORLD_LIMIT as int) by {
                assert(old(self).agent_ok(k));
                assert(v3_bounded(v3(old(self).transforms@[k].translation), WORLD_LIMIT as int));
            }
        }
        let mut i: usize = 0;
        while i < n
            invariant
                self.config == cfg0,
                cfg0.wf(),
                n == cfg0.population,
                radius == cfg0.vision_radius,
                rr as int == (radius as int) * (radius as int),
                self.transforms@ == ts0,
                self.velocities@ == vs0,
                self.accelerations@ == as0,
                ts0.len() == n,
                vs0.len() == n,
                bees0.len() == n,
                self.bees@.len() == n,
                i <= n,
                forall|k: int| 0 <= k < n ==> v3_bounded(
                    v3((#[trigger] ts0[k]).translation),
                    WORLD_LIMIT as int,
                ) && v3_bounded(v3(vs0[k].value), WORLD_LIMIT as int),
                forall|k: int| 0 <= k < n ==> #[trigger] old(self).agent_ok(k),
                forall|k: int| 0 <= k < n ==> #[trigger] old(self).scratch_ok(k),
                old(self).transforms@ == ts0,
                old(self).velocities@ == vs0,
                old(self).accelerations@ == as0,
                old(self).bees@ == bees0,
                old(self).config == cfg0,
                forall|k: int| 0 <= k < i ==> {
                    &&& (#[trigger] self.bees@[k]).in_sight_bees@ == snapshot_of(
                        ts0,
                        vs0,
                        v3(ts0[k].translation),
                        radius as int,
                    )
                    &&& self.bees@[k].cohesion == bees0[k].cohesion
                    &&& self.bees@[k].separation == bees0[k].separation
                    &&& self.bees@[k].alignment == bees0[k].alignment
                },
                forall|k: int| i <= k < n ==> #[trigger] self.bees@[k] == bees0[k],
            decreases n - i,
        {
            let a = self.transforms[i].translation;
            let mut found: Vec<(Transform, Velocity)> = Vec::new();
            let mut j: usize = 0;
            while j < n
                invariant
                    self.transforms@ == ts0,
                    self.velocities@ == vs0,
                    ts0.len() == n,
                    vs0.len() == n,
                    i < n,
                    a == ts0[i as int].translation,
                    rr as int == (radius as int) * (radius as int),
                    forall|k: int| 0 <= k < n ==> v3_bounded(
                        v3((#[trigger] ts0[k]).translation),
                        WORLD_LIMIT as int,
                    ) && v3_bounded(v3(vs0[k].value), WORLD_LIMIT as int),
                    j <= n,
                    found@ == snapshot_prefix(ts0, vs0, v3(a), radius as int, j as int),
                decreases n - j,
            {
                let b = self.transforms[j].translation;
                let d = dist_sq_exec(&a, &b);
                if d <= rr {
                    found.push((self.transforms[j], self.velocities[j]));
                }
                proof {
                    assert(in_sight(v3(a), v3(ts0[j as int].translation), radius as int) <==> (
                    d <= rr));
                    assert(found@ == snapshot_prefix(ts0, vs0, v3(a), radius as int, j as int + 1));
                }
                j += 1;
            }
            self.bees[i].in_sight_bees = found;
            i += 1;
        }
        proof {
            assert forall|i2: int| 0 <= i2 < self.pop() implies #[trigger] self.agent_ok(i2) by {
                assert(old(self).agent_ok(i2));
            }
            assert forall|i2: int| 0 <= i2 < self.pop() implies #[trigger] self.scratch_ok(i2) by {
                assert(old(self).scratch_ok(i2));
                let snap = self.bees@[i2].in_sight_bees@;
                assert(snap == snapshot_of(ts0, vs0, v3(ts0[i2].translation), radius as int));
                lemma_snapshot_prefix_entries(ts0, vs0, v3(ts0[i2].translation), radius as int, n as int);
            }
        }
    }
}

impl Simulation {
    /// The cohesion pass: each agent's cohesion vector becomes the mean
    /// position of the snapshot entries still within the vision radius — the
    /// scan re-filters its own snapshot by the same distance test — divided
    /// by the full snapshot length. An agent whose snapshot is empty keeps
    /// its previous cohesion vector rather than dividing by zero.
    pub fn cohesion(&mut self)
        requires
            old(self).inv(),
            old(self).positions_ok(),
        ensures
            final(self).inv(),
            final(self).positions_ok(),
            final(self).config == old(self).config,
            final(self).transforms@ == old(self).transforms@,
            final(self).velocities@ == old(self).velocities@,
            final(self).accelerations@ == old(self).accelerations@,
            final(self).bees@.len() == old(self).bees@.len(),
            forall|i: int| 0 <= i < old(self).pop() ==> {
                let snap = old(self).bees@[i].in_sight_bees@;
                let len = snap.len() as int;
                &&& (#[trigger] final(self).bees@[i]).in_sight_bees@ == snap
                &&& final(self).bees@[i].separation == old(self).bees@[i].separation
                &&& final(self).bees@[i].alignment == old(self).bees@[i].alignment
                &&& len > 0 ==> v3(final(self).bees@[i].cohesion) == v3_div(
                    cohesion_sum(
                        snap,
                        v3(old(self).transforms@[i].translation),
                        old(self).config.vision_radius as int,
                        len,
                    ),
                    len,
                )
                &&& len == 0 ==> final(self).bees@[i].cohesion == old(self).bees@[i].cohesion
            },
    {
        let n = self.config.population;
        let radius = self.config.vision_radius;
        proof {
            let ri = radius as int;
            assert(ri * ri <= u128::MAX as int) by (nonlinear_arith)
                requires
                    0 <= ri <= 1_000_000_000_000,
            ;
        }
        let rr: u128 = (radius as u128) * (radius as u128);
        let ghost cfg0 = self.config;
        let ghost ts0 = self.transforms@;
        let ghost vs0 = self.velocities@;
        let ghost as0 = self.accelerations@;
        let ghost bees0 = self.bees@;
        let mut i: usize = 0;
        while i < n
            invariant
                self.config == cfg0,
                cfg0.wf(),
                n == cfg0.population,
                radius == cfg0.vision_radius,
                rr as int == (radius as int) * (radius as int),
                self.transforms@ == ts0,
                self.velocities@ == vs0,
                self.accelerations@ == as0,
                ts0.len() == n,
                vs0.len() == n,
                bees0.len() == n,
                self.bees@.len() == n,
                i <= n,
                forall|k: int| 0 <= k < n ==> #[trigger] old(self).agent_ok(k),
                forall|k: int| 0 <= k < n ==> #[trigger] old(self).scratch_ok(k),
                old(self).transforms@ == ts0,
                old(self).velocities@ == vs0,
                old(self).accelerations@ == as0,
                old(self).bees@ == bees0,
                old(self).config == cfg0,
                old(self).positions_ok(),
                old(self).pop() == n,
                forall|k: int| 0 <= k < i ==> {
                    let snap = bees0[k].in_sight_bees@;
                    let len = snap.len() as int;
                    &&& (#[trigger] self.bees@[k]).in_sight_bees@ == snap
                    &&& self.bees@[k].separation == bees0[k].separation
                    &&& self.bees@[k].alignment == bees0[k].alignment
                    &&& len > 0 ==> v3(self.bees@[k].cohesion) == v3_div(
                        cohesion_sum(snap, v3(ts0[k].translation), radius as int, len),
                        len,
                    )
                    &&& len == 0 ==> self.bees@[k].cohesion == bees0[k].cohesion
                    &&& v3_bounded(v3(self.bees@[k].cohesion), WORLD_LIMIT as int)
                },
                forall|k: int| i <= k < n ==> #[trigger] self.bees@[k] == bees0[k],
            decreases n - i,
        {
            proof {
                assert(old(self).scratch_ok(i as int));
                assert(old(self).agent_ok(i as int));
                assert(v3_bounded(v3(old(self).transforms@[i as int].translation), WORLD_LIMIT as int));
            }
            let a = self.transforms[i].translation;
            let len = self.bees[i].in_sight_bees.len();
            let ghost snap = self.bees@[i as int].in_sight_bees@;
            let mut sx: i64 = 0;
            let mut sy: i64 = 0;
            let mut sz: i64 = 0;
            let mut j: usize = 0;
            while j < len
                invariant
                    self.transforms@ == ts0,
                    i < n,
                    ts0.len() == n,
                    a == ts0[i as int].translation,
                    v3_bounded(v3(a), WORLD_LIMIT as int),
                    rr as int == (radius as int) * (radius as int),
                    self.bees@.len() == n,
                    self.bees@[i as int].in_sight_bees@ == snap,
                    len == snap.len(),
                    len <= MAX_POPULATION,
                    forall|w: int| 0 <= w < snap.len() ==> v3_bounded(
                        v3((#[trigger] snap[w]).0.translation),
                        WORLD_LIMIT as int,
                    ),
                    j <= len,
                    sx as int == cohesion_sum(snap, v3(a), radius as int, j as int).x,
                    sy as int == cohesion_sum(snap, v3(a), radius as int, j as int).y,
                    sz as int == cohesion_sum(snap, v3(a), radius as int, j as int).z,
                    abs(sx as int) <= j * WORLD_LIMIT,
                    abs(sy as int) <= j * WORLD_LIMIT,
                    abs(sz as int) <= j * WORLD_LIMIT,
                decreases len - j,
            {
                let p = self.bees[i].in_sight_bees[j].0.translation;
                let d = dist_sq_exec(&a, &p);
                if d <= rr {
                    sx = sx + p.x;
                    sy = sy + p.y;
                    sz = sz + p.z;
                }
                proof {
                    assert((dist_sq(v3(a), v3(snap[j as int].0.translation)) <= (radius as int)
                        * (radius as int)) <==> (d <= rr));
                    assert(cohesion_sum(snap, v3(a), radius as int, j as int + 1)
                        == if dist_sq(v3(a), v3(snap[j as int].0.translation)) <= (radius as int)
                        * (radius as int) {
                        v3_add(
                            cohesion_sum(snap, v3(a), radius as int, j as int),
                            v3(snap[j as int].0.translation),
                        )
                    } else {
                        cohesion_sum(snap, v3(a), radius as int, j as int)
                    });
                }
                j += 1;
            }
            if len > 0 {
                proof {
                    assert(len * WORLD_LIMIT <= 1_000_000_000_000_000_000int) by (nonlinear_arith)
                        requires
                            0 <= len <= 1_000_000,
                            WORLD_LIMIT == 1_000_000_000_000,
                    ;
                    crate::arith::lemma_div_trunc_bound(sx as int, len as int, WORLD_LIMIT as int);
                    crate::arith::lemma_div_trunc_bound(sy as int, len as int, WORLD_LIMIT as int);
                    crate::arith::lemma_div_trunc_bound(sz as int, len as int, WORLD_LIMIT as int);
                }
                let cx = crate::arith::div_i64(sx, len as i64);
                let cy = crate::arith::div_i64(sy, len as i64);
                let cz = crate::arith::div_i64(sz, len as i64);
                self.bees[i].cohesion = Vec3i::new(cx, cy, cz);
            }
            i += 1;
        }
        proof {
            assert forall|i2: int| 0 <= i2 < self.pop() implies #[trigger] self.agent_ok(i2) by {
                assert(old(self).agent_ok(i2));
            }
            assert forall|i2: int| 0 <= i2 < self.pop() implies #[trigger] self.scratch_ok(i2) by {
                assert(old(self).scratch_ok(i2));
            }
        }
    }
}

impl Simulation {
    /// The separation pass: each agent's separation vector becomes the sum,
    /// over snapshot entries strictly closer than the separation threshold
    /// and strictly farther than zero, of the offset from the neighbor back
    /// to the agent — the push away, weighted by the raw distance that
    /// normalized it, so the offset itself. Unlike cohesion, an empty
    /// snapshot yields the zero sum.
    pub fn separation(&mut self)
        requires
            old(self).inv(),
            old(self).positions_ok(),
        ensures
            final(self).inv(),
            final(self).positions_ok(),
            final(self).config == old(self).config,
            final(self).transforms@ == old(self).transforms@,
            final(self).velocities@ == old(self).velocities@,
            final(self).accelerations@ == old(self).accelerations@,
            final(self).bees@.len() == old(self).bees@.len(),
            forall|i: int| 0 <= i < old(self).pop() ==> {
                let snap = old(self).bees@[i].in_sight_bees@;
                &&& (#[trigger] final(self).bees@[i]).in_sight_bees@ == snap
                &&& final(self).bees@[i].cohesion == old(self).bees@[i].cohesion
                &&& final(self).bees@[i].alignment == old(self).bees@[i].alignment
                &&& v3(final(self).bees@[i].separation) == separation_sum(
                    snap,
                    v3(old(self).transforms@[i].translation),
                    old(self).config.separation_threshold as int,
                    snap.len() as int,
                )
            },
    {
        let n = self.config.population;
        let threshold = self.config.separation_threshold;
        proof {
            let ti = threshold as int;
            assert(ti * ti <= u128::MAX as int) by (nonlinear_arith)
                requires
                    0 <= ti <= 1_000_000_000_000,
            ;
        }
        let tt: u128 = (threshold as u128) * (threshold as u128);
        let ghost cfg0 = self.config;
        let ghost ts0 = self.transforms@;
        let ghost vs0 = self.velocities@;
        let ghost as0 = self.accelerations@;
        let ghost bees0 = self.bees@;
        let mut i: usize = 0;
        while i < n
            invariant
                self.config == cfg0,
                cfg0.wf(),
                n == cfg0.population,
                threshold == cfg0.separation_threshold,
                tt as int == (threshold as int) * (threshold as int),
                self.transforms@ == ts0,
                self.velocities@ == vs0,
                self.accelerations@ == as0,
                ts0.len() == n,
                vs0.len() == n,
                bees0.len() == n,
                self.bees@.len() == n,
                i <= n,
                forall|k: int| 0 <= k < n ==> #[trigger] old(self).agent_ok(k),
                forall|k: int| 0 <= k < n ==> #[trigger] old(self).scratch_ok(k),
                old(self).transforms@ == ts0,
                old(self).velocities@ == vs0,
                old(self).accelerations@ == as0,
                old(self).bees@ == bees0,
                old(self).config == cfg0,
                old(self).positions_ok(),
                old(self).pop() == n,
                forall|k: int| 0 <= k < i ==> {
                    let snap = bees0[k].in_sight_bees@;
                    &&& (#[trigger] self.bees@[k]).in_sight_bees@ == snap
                    &&& self.bees@[k].cohesion == bees0[k].cohesion
                    &&& self.bees@[k].alignment == bees0[k].alignment
                    &&& v3(self.bees@[k].separation) == separation_sum(
                        snap,
                        v3(ts0[k].translation),
                        threshold as int,
                        snap.len() as int,
                    )
                    &&& v3_bounded(v3(self.bees@[k].separation), SEP_LIMIT as int)
                },
                forall|k: int| i <= k < n ==> #[trigger] self.bees@[k] == bees0[k],
            decreases n - i,
        {
            proof {
                assert(old(self).scratch_ok(i as int));
                assert(old(self).agent_ok(i as int));
                assert(v3_bounded(v3(old(self).transforms@[i as int].translation), WORLD_LIMIT as int));
            }
            let a = self.transforms[i].translation;
            let len = self.bees[i].in_sight_bees.len();
            let ghost snap = self.bees@[i as int].in_sight_bees@;
            let mut sx: i64 = 0;
            let mut sy: i64 = 0;
            let mut sz: i64 = 0;
            let mut j: usize = 0;
            while j < len
                invariant
                    self.transforms@ == ts0,
                    i < n,
                    ts0.len() == n,
                    a == ts0[i as int].translation,
                    v3_bounded(v3(a), WORLD_LIMIT as int),
                    tt as int == (threshold as int) * (threshold as int),
                    0 < threshold <= WORLD_LIMIT,
                    self.bees@.len() == n,
                    self.bees@[i as int].in_sight_bees@ == snap,
                    len == snap.len(),
                    len <= MAX_POPULATION,
                    forall|w: int| 0 <= w < snap.len() ==> v3_bounded(
                        v3((#[trigger] snap[w]).0.translation),
                        WORLD_LIMIT as int,
                    ),
                    j <= len,
                    sx as int == separation_sum(snap, v3(a), threshold as int, j as int).x,
                    sy as int == separation_sum(snap, v3(a), threshold as int, j as int).y,
                    sz as int == separation_sum(snap, v3(a), threshold as int, j as int).z,
                    abs(sx as int) <= j * WORLD_LIMIT,
                    abs(sy as int) <= j * WORLD_LIMIT,
                    abs(sz as int) <= j * WORLD_LIMIT,
                decreases len - j,
            {
                let p = self.bees[i].in_sight_bees[j].0.translation;
                let d = dist_sq_exec(&a, &p);
                if 0 < d && d < tt {
                    proof {
                        crate::vec3::lemma_close_components(v3(a), v3(p), threshold as int);
                    }
                    sx = sx + (a.x - p.x);
                    sy = sy + (a.y - p.y);
                    sz = sz + (a.z - p.z);
                }
                proof {
                    let dd = dist_sq(v3(a), v3(snap[j as int].0.translation));
                    assert((0 < dd && dd < (threshold as int) * (threshold as int)) <==> (0 < d
                        && d < tt));
                    assert(separation_sum(snap, v3(a), threshold as int, j as int + 1)
                        == if 0 < dd && dd < (threshold as int) * (threshold as int) {
                        v3_add(
                            separation_sum(snap, v3(a), threshold as int, j as int),
                            v3_sub(v3(a), v3(snap[j as int].0.translation)),
                        )
                    } else {
                        separation_sum(snap, v3(a), threshold as int, j as int)
                    });
                }
                j += 1;
            }
            self.bees[i].separation = Vec3i::new(sx, sy, sz);
            i += 1;
        }
        proof {
            assert forall|i2: int| 0 <= i2 < self.pop() implies #[trigger] self.agent_ok(i2) by {
                assert(old(self).agent_ok(i2));
            }
            assert forall|i2: int| 0 <= i2 < self.pop() implies #[trigger] self.scratch_ok(i2) by {
                assert(old(self).scratch_ok(i2));
            }
        }
    }

    /// The alignment pass: each agent's alignment vector becomes the mean of
    /// every snapshot velocity, with no distance re-filtering. An agent whose
    /// snapshot is empty keeps its previous alignment vector rather than
    /// dividing by zero.
    pub fn alignment(&mut self)
        requires
            old(self).inv(),
        ensures
            final(self).inv(),
            old(self).positions_ok() ==> final(self).positions_ok(),
            final(self).config == old(self).config,
            final(self).transforms@ == old(self).transforms@,
            final(self).velocities@ == old(self).velocities@,
            final(self).accelerations@ == old(self).accelerations@,
            final(self).bees@.len() == old(self).bees@.len(),
            forall|i: int| 0 <= i < old(self).pop() ==> {
                let snap = old(self).bees@[i].in_sight_bees@;
                let len = snap.len() as int;
                &&& (#[trigger] final(self).bees@[i]).in_sight_bees@ == snap
                &&& final(self).bees@[i].cohesion == old(self).bees@[i].cohesion
                &&& final(self).bees@[i].separation == old(self).bees@[i].separation
                &&& len > 0 ==> v3(final(self).bees@[i].alignment) == v3_div(
                    alignment_sum(snap, len),
                    len,
                )
                &&& len == 0 ==> final(self).bees@[i].alignment == old(self).bees@[i].alignment
            },
    {
        let n = self.config.population;
        let ghost cfg0 = self.config;
        let ghost ts0 = self.transforms@;
        let ghost vs0 = self.velocities@;
        let ghost as0 = self.accelerations@;
        let ghost bees0 = self.bees@;
        let mut i: usize = 0;
        while i < n
            invariant
                self.config == cfg0,
                cfg0.wf(),
                n == cfg0.population,
                self.transforms@ == ts0,
                self.velocities@ == vs0,
                self.accelerations@ == as0,
                ts0.len() == n,
                vs0.len() == n,
                bees0.len() == n,
                self.bees@.len() == n,
                i <= n,
                forall|k: int| 0 <= k < n ==> #[trigger] old(self).agent_ok(k),
                forall|k: int| 0 <= k < n ==> #[trigger] old(self).scratch_ok(k),
                old(self).transforms@ == ts0,
                old(self).velocities@ == vs0,
                old(self).accelerations@ == as0,
                old(self).bees@ == bees0,
                old(self).config == cfg0,
                old(self).pop() == n,
                forall|k: int| 0 <= k < i ==> {
                    let snap = bees0[k].in_sight_bees@;
                    let len = snap.len() as int;
                    &&& (#[trigger] self.bees@[k]).in_sight_bees@ == snap
                    &&& self.bees@[k].cohesion == bees0[k].cohesion
                    &&& self.bees@[k].separation == bees0[k].separation
                    &&& len > 0 ==> v3(self.bees@[k].alignment) == v3_div(
                        alignment_sum(snap, len),
                        len,
                    )
                    &&& len == 0 ==> self.bees@[k].alignment == bees0[k].alignment
                    &&& v3_bounded(v3(self.bees@[k].alignment), WORLD_LIMIT as int)
                },
                forall|k: int| i <= k < n ==> #[trigger] self.bees@[k] == bees0[k],
            decreases n - i,
        {
            proof {
                assert(old(self).scratch_ok(i as int));
            }
            let len = self.bees[i].in_sight_bees.len();
            let ghost snap = self.bees@[i as int].in_sight_bees@;
            let mut sx: i64 = 0;
            let mut sy: i64 = 0;
            let mut sz: i64 = 0;
            let mut j: usize = 0;
            while j < len
                invariant
                    self.bees@.len() == n,
                    i < n,
                    self.bees@[i as int].in_sight_bees@ == snap,
                    len == snap.len(),
                    len <= MAX_POPULATION,
                    forall|w: int| 0 <= w < snap.len() ==> v3_bounded(
                        v3((#[trigger] snap[w]).1.value),
                        WORLD_LIMIT as int,
                    ),
                    j <= len,
                    sx as int == alignment_sum(snap, j as int).x,
                    sy as int == alignment_sum(snap, j as int).y,
                    sz as int == alignment_sum(snap, j as int).z,
                    abs(sx as int) <= j * WORLD_LIMIT,
                    abs(sy as int) <= j * WORLD_LIMIT,
                    abs(sz as int) <= j * WORLD_LIMIT,
                decreases len - j,
            {
                let v = self.bees[i].in_sight_bees[j].1.value;
                sx = sx + v.x;
                sy = sy + v.y;
                sz = sz + v.z;
                proof {
                    assert(alignment_sum(snap, j as int + 1) == v3_add(
                        alignment_sum(snap, j as int),
                        v3(snap[j as int].1.value),
                    ));
                }
                j += 1;
            }
            if len > 0 {
                proof {
                    crate::arith::lemma_div_trunc_bound(sx as int, len as int, WORLD_LIMIT as int);
                    crate::arith::lemma_div_trunc_bound(sy as int, len as int, WORLD_LIMIT as int);
                    crate::arith::lemma_div_trunc_bound(sz as int, len as int, WORLD_LIMIT as int);
                }
                let cx = crate::arith::div_i64(sx, len as i64);
                let cy = crate::arith::div_i64(sy, len as i64);
                let cz = crate::arith::div_i64(sz, len as i64);
                self.bees[i].alignment = Vec3i::new(cx, cy, cz);
            }
            i += 1;
        }
        proof {
            assert forall|i2: int| 0 <= i2 < self.pop() implies #[trigger] self.agent_ok(i2) by {
                assert(old(self).agent_ok(i2));
            }
            assert forall|i2: int| 0 <= i2 < self.pop() implies #[trigger] self.scratch_ok(i2) by {
                assert(old(self).scratch_ok(i2));
            }
        }
    }
}

/// A value the per-axis steering noise can take: anything the half-open
/// interval `[-bound, bound)` admits, or exactly zero when the bound is zero
/// and there is nothing to draw.
pub open spec fn noise_admits(x: int, bound: int) -> bool {
    if bound == 0 {
        x == 0
    } else {
        -bound <= x < bound
    }
}

/// The movement update of one steering agent: for some admitted pair of
/// noise draws, the new velocity is the old one drifted by
/// `cohesion + separation + alignment + noise - position` on the planar axes
/// and renormalized onto the configured speed.
pub open spec fn movement_outcome(
    newv: Velocity,
    oldv: Velocity,
    pos: Vec3i,
    coh: Vec3i,
    sep: Vec3i,
    ali: Vec3i,
    noise_bound: int,
    speed: int,
) -> bool {
    exists|nx: int, nz: int| {
        &&& noise_admits(nx, noise_bound)
        &&& noise_admits(nz, noise_bound)
        &&& v3(newv.value) == renorm_spec(
            drifted_velocity(
                v3(oldv.value),
                v3(pos),
                v3(coh),
                v3(sep),
                v3(ali),
                V3 { x: nx, y: 0, z: nz },
            ),
            speed,
        )
    }
}

impl Simulation {
    /// The movement pass: every agent with at least one snapshot neighbor
    /// drifts its planar velocity by the three steering vectors plus fresh
    /// random noise, less its own position, and is renormalized back onto the
    /// configured speed; an agent that saw nobody keeps its velocity exactly.
    /// Positions, orientations and scratch state are untouched.
    pub fn calculate_movement(&mut self)
        requires
            old(self).inv(),
            old(self).positions_ok(),
        ensures
            final(self).inv(),
            final(self).positions_ok(),
            final(self).config == old(self).config,
            final(self).transforms@ == old(self).transforms@,
            final(self).accelerations@ == old(self).accelerations@,
            final(self).bees@ == old(self).bees@,
            final(self).velocities@.len() == old(self).velocities@.len(),
            forall|i: int| 0 <= i < old(self).pop() ==> {
                let len = old(self).bees@[i].in_sight_bees@.len() as int;
                &&& len == 0 ==> (#[trigger] final(self).velocities@[i]) == old(
                    self,
                ).velocities@[i]
                &&& len > 0 ==> movement_outcome(
                    final(self).velocities@[i],
                    old(self).velocities@[i],
                    old(self).transforms@[i].translation,
                    old(self).bees@[i].cohesion,
                    old(self).bees@[i].separation,
                    old(self).bees@[i].alignment,
                    old(self).config.noise as int,
                    old(self).config.speed as int,
                )
            },
    {
        let n = self.config.population;
        let noise = self.config.noise;
        let speed = self.config.speed;
        let ghost cfg0 = self.config;
        let ghost ts0 = self.transforms@;
        let ghost vs0 = self.velocities@;
        let ghost as0 = self.accelerations@;
        let ghost bees0 = self.bees@;
        let mut i: usize = 0;
        while i < n
            invariant
                self.config == cfg0,
                cfg0.wf(),
                n == cfg0.population,
                noise == cfg0.noise,
                speed == cfg0.speed,
                self.transforms@ == ts0,
                self.accelerations@ == as0,
                self.bees@ == bees0,
                ts0.len() == n,
                vs0.len() == n,
                bees0.len() == n,
                self.velocities@.len() == n,
                i <= n,
                forall|k: int| 0 <= k < n ==> #[trigger] old(self).agent_ok(k),
                forall|k: int| 0 <= k < n ==> #[trigger] old(self).scratch_ok(k),
                old(self).transforms@ == ts0,
                old(self).velocities@ == vs0,
                old(self).accelerations@ == as0,
                old(self).bees@ == bees0,
                old(self).config == cfg0,
                old(self).positions_ok(),
                old(self).pop() == n,
                forall|k: int| 0 <= k < i ==> {
                    let len = bees0[k].in_sight_bees@.len() as int;
                    &&& len == 0 ==> (#[trigger] self.velocities@[k]) == vs0[k]
                    &&& len > 0 ==> movement_outcome(
                        self.velocities@[k],
                        vs0[k],
                        ts0[k].translation,
                        bees0[k].cohesion,
                        bees0[k].separation,
                        bees0[k].alignment,
                        noise as int,
                        speed as int,
                    )
                    &&& v3_bounded(v3(self.velocities@[k].value), speed as int)
                    &&& self.velocities@[k].value.y == 0
                },
                forall|k: int| i <= k < n ==> #[trigger] self.velocities@[k] == vs0[k],
            decreases n - i,
        {
            proof {
                assert(old(self).scratch_ok(i as int));
                assert(old(self).agent_ok(i as int));
                assert(v3_bounded(v3(old(self).transforms@[i as int].translation), WORLD_LIMIT as int));
            }
            let len = self.bees[i].in_sight_bees.len();
            if len > 0 {
                let nx = if noise > 0 {
                    crate::rng::rand_range(-noise, noise)
                } else {
                    0
                };
                let nz = if noise > 0 {
                    crate::rng::rand_range(-noise, noise)
                } else {
                    0
                };
                let pos = self.transforms[i].translation;
                let coh = self.bees[i].cohesion;
                let sep = self.bees[i].separation;
                let ali = self.bees[i].alignment;
                let vel = self.velocities[i].value;
                let dirx = coh.x + sep.x + ali.x + nx - pos.x;
                let dirz = coh.z + sep.z + ali.z + nz - pos.z;
                let drifted = Vec3i::new(vel.x + dirx, 0, vel.z + dirz);
                proof {
                    assert(v3(drifted) == drifted_velocity(
                        v3(vel),
                        v3(pos),
                        v3(coh),
                        v3(sep),
                        v3(ali),
                        V3 { x: nx as int, y: 0, z: nz as int },
                    ));
                }
                let nvel = renormalize(&drifted, speed);
                self.velocities[i] = Velocity::new(nvel);
                proof {
                    assert(noise_admits(nx as int, noise as int));
                    assert(noise_admits(nz as int, noise as int));
                    assert(v3(self.velocities@[i as int].value) == renorm_spec(
                        drifted_velocity(
                            v3(vs0[i as int].value),
                            v3(ts0[i as int].translation),
                            v3(bees0[i as int].cohesion),
                            v3(bees0[i as int].separation),
                            v3(bees0[i as int].alignment),
                            V3 { x: nx as int, y: 0, z: nz as int },
                        ),
                        speed as int,
                    ));
                    assert(movement_outcome(
                        self.velocities@[i as int],
                        vs0[i as int],
                        ts0[i as int].translation,
                        bees0[i as int].cohesion,
                        bees0[i as int].separation,
                        bees0[i as int].alignment,
                        noise as int,
                        speed as int,
                    ));
                }
            }
            i += 1;
        }
        proof {
            assert forall|i2: int| 0 <= i2 < self.pop() implies #[trigger] self.agent_ok(i2) by {
                assert(old(self).agent_ok(i2));
            }
            assert forall|i2: int| 0 <= i2 < self.pop() implies #[trigger] self.scratch_ok(i2) by {
                assert(old(self).scratch_ok(i2));
            }
        }
    }
}

impl Simulation {
    /// The velocity integration: each velocity gains its acceleration times
    /// the elapsed time, and its `y` component is then forced back onto the
    /// plane. Acceleration is identically zero in this design, so the pass
    /// provably leaves every velocity as it was; it is retained as a
    /// safeguard should acceleration return.
    pub fn update_velocity(&mut self, dt: i64)
        requires
            old(self).inv(),
            0 <= dt <= DT_LIMIT,
        ensures
            final(self).inv(),
            old(self).positions_ok() ==> final(self).positions_ok(),
            final(self).config == old(self).config,
            final(self).transforms@ == old(self).transforms@,
            final(self).velocities@ == old(self).velocities@,
            final(self).accelerations@ == old(self).accelerations@,
            final(self).bees@ == old(self).bees@,
    {
        let n = self.config.population;
        let ghost cfg0 = self.config;
        let ghost vs0 = self.velocities@;
        let mut i: usize = 0;
        while i < n
            invariant
                self.config == cfg0,
                cfg0.wf(),
                n == cfg0.population,
                self.transforms@ == old(self).transforms@,
                self.accelerations@ == old(self).accelerations@,
                self.accelerations@.len() == n,
                self.bees@ == old(self).bees@,
                self.velocities@.len() == n,
                vs0.len() == n,
                old(self).velocities@ == vs0,
                i <= n,
                forall|k: int| 0 <= k < n ==> #[trigger] old(self).agent_ok(k),
                forall|k: int| 0 <= k < n ==> #[trigger] old(self).scratch_ok(k),
                old(self).config == cfg0,
                old(self).pop() == n,
                forall|k: int| 0 <= k < n ==> #[trigger] self.velocities@[k] == vs0[k],
            decreases n - i,
        {
            proof {
                assert(old(self).agent_ok(i as int));
                assert(self.accelerations@[i as int].value.x * dt == 0);
                assert(self.accelerations@[i as int].value.y * dt == 0);
                assert(self.accelerations@[i as int].value.z * dt == 0);
            }
            let a = self.accelerations[i].value;
            let v = self.velocities[i].value;
            let nv = Vec3i::new(v.x + a.x * dt, 0, v.z + a.z * dt);
            self.velocities[i] = Velocity::new(nv);
            proof {
                assert(self.velocities@[i as int].value == vs0[i as int].value);
                assert(self.velocities@ =~= vs0.update(i as int, self.velocities@[i as int]));
                assert(self.velocities@[i as int] =~= vs0[i as int]);
                assert(self.velocities@ =~= vs0);
            }
            i += 1;
        }
        proof {
            assert(self.velocities@ =~= vs0);
            assert forall|i2: int| 0 <= i2 < self.pop() implies #[trigger] self.agent_ok(i2) by {
                assert(old(self).agent_ok(i2));
            }
            assert forall|i2: int| 0 <= i2 < self.pop() implies #[trigger] self.scratch_ok(i2) by {
                assert(old(self).scratch_ok(i2));
            }
        }
    }

    /// The orientation integration: each agent's facing eases one blend step
    /// toward its current velocity — a twentieth of the remaining turn,
    /// independent of elapsed time, about a fixed up axis.
    pub fn update_rotation(&mut self)
        requires
            old(self).inv(),
        ensures
            final(self).inv(),
            old(self).positions_ok() ==> final(self).positions_ok(),
            final(self).config == old(self).config,
            final(self).velocities@ == old(self).velocities@,
            final(self).accelerations@ == old(self).accelerations@,
            final(self).bees@ == old(self).bees@,
            final(self).transforms@.len() == old(self).transforms@.len(),
            forall|i: int| 0 <= i < old(self).pop() ==> {
                &&& (#[trigger] final(self).transforms@[i]).translation == old(
                    self,
                ).transforms@[i].translation
                &&& v3(final(self).transforms@[i].facing) == facing_blend(
                    v3(old(self).transforms@[i].facing),
                    v3(old(self).velocities@[i].value),
                )
            },
    {
        let n = self.config.population;
        let ghost cfg0 = self.config;
        let ghost ts0 = self.transforms@;
        let mut i: usize = 0;
        while i < n
            invariant
                self.config == cfg0,
                cfg0.wf(),
                n == cfg0.population,
                self.velocities@ == old(self).velocities@,
                self.velocities@.len() == n,
                self.accelerations@ == old(self).accelerations@,
                self.bees@ == old(self).bees@,
                self.transforms@.len() == n,
                ts0.len() == n,
                old(self).transforms@ == ts0,
                i <= n,
                forall|k: int| 0 <= k < n ==> #[trigger] old(self).agent_ok(k),
                forall|k: int| 0 <= k < n ==> #[trigger] old(self).scratch_ok(k),
                old(self).config == cfg0,
                old(self).pop() == n,
                forall|k: int| 0 <= k < i ==> {
                    &&& (#[trigger] self.transforms@[k]).translation == ts0[k].translation
                    &&& v3(self.transforms@[k].facing) == facing_blend(
                        v3(ts0[k].facing),
                        v3(old(self).velocities@[k].value),
                    )
                    &&& v3_bounded(v3(self.transforms@[k].facing), WORLD_LIMIT as int)
                    &&& self.transforms@[k].facing.y == 0
                },
                forall|k: int| i <= k < n ==> #[trigger] self.transforms@[k] == ts0[k],
            decreases n - i,
        {
            proof {
                assert(old(self).agent_ok(i as int));
            }
            let f = self.transforms[i].facing;
            let v = self.velocities[i].value;
            proof {
                crate::arith::lemma_div_trunc_between(v.x as int - f.x as int, BLEND_DIVISOR as int);
                crate::arith::lemma_div_trunc_between(v.y as int - f.y as int, BLEND_DIVISOR as int);
                crate::arith::lemma_div_trunc_between(v.z as int - f.z as int, BLEND_DIVISOR as int);
                crate::arith::lemma_div_trunc_of0(BLEND_DIVISOR as int);
            }
            let qx = crate::arith::div_i64(v.x - f.x, BLEND_DIVISOR);
            let qy = crate::arith::div_i64(v.y - f.y, BLEND_DIVISOR);
            let qz = crate::arith::div_i64(v.z - f.z, BLEND_DIVISOR);
            let nf = Vec3i::new(f.x + qx, f.y + qy, f.z + qz);
            self.transforms[i].facing = nf;
            i += 1;
        }
        proof {
            assert forall|i2: int| 0 <= i2 < self.pop() implies #[trigger] self.agent_ok(i2) by {
                assert(old(self).agent_ok(i2));
            }
            assert forall|i2: int| 0 <= i2 < self.pop() implies #[trigger] self.scratch_ok(i2) by {
                assert(old(self).scratch_ok(i2));
            }
            assert forall|i2: int|
                0 <= i2 < self.pop() && old(self).positions_ok() implies v3_bounded(
                v3((#[trigger] self.transforms@[i2]).translation),
                WORLD_LIMIT as int,
            ) by {
                assert(v3_bounded(v3(old(self).transforms@[i2].translation), WORLD_LIMIT as int));
            }
        }
    }

    /// The position integration: every agent advances by its velocity times
    /// the elapsed time. A planar velocity keeps the agent on the ground
    /// plane; the world bound is not re-established — an agent can leave the
    /// modeled world, which the next frame's entry check reports.
    pub fn update_position(&mut self, dt: i64)
        requires
            old(self).inv(),
            old(self).positions_ok(),
            0 <= dt <= DT_LIMIT,
        ensures
            final(self).inv(),
            final(self).config == old(self).config,
            final(self).velocities@ == old(self).velocities@,
            final(self).accelerations@ == old(self).accelerations@,
            final(self).bees@ == old(self).bees@,
            final(self).transforms@.len() == old(self).transforms@.len(),
            forall|i: int| 0 <= i < old(self).pop() ==> {
                &&& (#[trigger] final(self).transforms@[i]).translation.x == old(
                    self,
                ).transforms@[i].translation.x + old(self).velocities@[i].value.x * dt
                &&& final(self).transforms@[i].translation.y == old(
                    self,
                ).transforms@[i].translation.y
                &&& final(self).transforms@[i].translation.z == old(
                    self,
                ).transforms@[i].translation.z + old(self).velocities@[i].value.z * dt
                &&& final(self).transforms@[i].facing == old(self).transforms@[i].facing
            },
    {
        let n = self.config.population;
        let ghost cfg0 = self.config;
        let ghost ts0 = self.transforms@;
        let mut i: usize = 0;
        while i < n
            invariant
                self.config == cfg0,
                cfg0.wf(),
                n == cfg0.population,
                self.velocities@ == old(self).velocities@,
                self.velocities@.len() == n,
                self.accelerations@ == old(self).accelerations@,
                self.bees@ == old(self).bees@,
                self.transforms@.len() == n,
                ts0.len() == n,
                old(self).transforms@ == ts0,
                i <= n,
                forall|k: int| 0 <= k < n ==> #[trigger] old(self).agent_ok(k),
                forall|k: int| 0 <= k < n ==> #[trigger] old(self).scratch_ok(k),
                old(self).config == cfg0,
                old(self).positions_ok(),
                old(self).pop() == n,
                0 <= dt <= DT_LIMIT,
                forall|k: int| 0 <= k < i ==> {
                    &&& (#[trigger] self.transforms@[k]).translation.x == ts0[k].translation.x
                        + old(self).velocities@[k].value.x * dt
                    &&& self.transforms@[k].translation.y == ts0[k].translation.y
                    &&& self.transforms@[k].translation.z == ts0[k].translation.z + old(
                        self,
                    ).velocities@[k].value.z * dt
                    &&& self.transforms@[k].facing == ts0[k].facing
                    &&& self.transforms@[k].translation.y == 0
                },
                forall|k: int| i <= k < n ==> #[trigger] self.transforms@[k] == ts0[k],
            decreases n - i,
        {
            proof {
                assert(old(self).agent_ok(i as int));
                assert(v3_bounded(v3(old(self).transforms@[i as int].translation), WORLD_LIMIT as int));
                let vv = old(self).velocities@[i as int].value;
                assert(abs(vv.x as int * dt) <= WORLD_LIMIT * DT_LIMIT && abs(
                    vv.z as int * dt,
                ) <= WORLD_LIMIT * DT_LIMIT) by (nonlinear_arith)
                    requires
                        abs(vv.x as int) <= WORLD_LIMIT,
                        abs(vv.z as int) <= WORLD_LIMIT,
                        0 <= dt <= DT_LIMIT,
                        WORLD_LIMIT == 1_000_000_000_000,
                        DT_LIMIT == 1000,
                ;
                assert(vv.y as int * dt == 0) by (nonlinear_arith)
                    requires
                        vv.y == 0,
                ;
            }
            let p = self.transforms[i].translation;
            let v = self.velocities[i].value;
            let np = Vec3i::new(p.x + v.x * dt, p.y + v.y * dt, p.z + v.z * dt);
            self.transforms[i].translation = np;
            i += 1;
        }
        proof {
            assert forall|i2: int| 0 <= i2 < self.pop() implies #[trigger] self.agent_ok(i2) by {
                assert(old(self).agent_ok(i2));
            }
            assert forall|i2: int| 0 <= i2 < self.pop() implies #[trigger] self.scratch_ok(i2) by {
                assert(old(self).scratch_ok(i2));
            }
        }
    }
}

/// What one whole frame does to one agent, with `pre` the state the frame
/// began from and `post` the state it left: the snapshot is recomputed from
/// the start-of-frame positions and velocities; the three steering vectors
/// follow from that snapshot, the empty snapshot retaining the previous
/// cohesion and alignment; the velocity of a steering agent drifts by the
/// steering vectors plus admitted noise and is renormalized to the
/// configured speed, while an agent that saw nobody keeps its velocity; the
/// position advances by the new velocity times the elapsed time, staying on
/// the ground plane; and the facing eases one blend step toward the new
/// velocity.
pub open spec fn frame_agent_rel(pre: Simulation, post: Simulation, dt: int, i: int) -> bool {
    let ts0 = pre.transforms@;
    let vs0 = pre.velocities@;
    let r = pre.config.vision_radius as int;
    let t = pre.config.separation_threshold as int;
    let s = pre.config.speed as int;
    let nb = pre.config.noise as int;
    let a = v3(ts0[i].translation);
    let snap = snapshot_of(ts0, vs0, a, r);
    let len = snap.len() as int;
    let newv = post.velocities@[i];
    &&& post.bees@[i].in_sight_bees@ == snap
    &&& (len > 0 ==> v3(post.bees@[i].cohesion) == v3_div(cohesion_sum(snap, a, r, len), len))
    &&& (len == 0 ==> post.bees@[i].cohesion == pre.bees@[i].cohesion)
    &&& v3(post.bees@[i].separation) == separation_sum(snap, a, t, len)
    &&& (len > 0 ==> v3(post.bees@[i].alignment) == v3_div(alignment_sum(snap, len), len))
    &&& (len == 0 ==> post.bees@[i].alignment == pre.bees@[i].alignment)
    &&& (len == 0 ==> newv == vs0[i])
    &&& (len > 0 ==> movement_outcome(
        newv,
        vs0[i],
        ts0[i].translation,
        post.bees@[i].cohesion,
        post.bees@[i].separation,
        post.bees@[i].alignment,
        nb,
        s,
    ))
    &&& newv.value.y == 0
    &&& post.transforms@[i].translation.x == ts0[i].translation.x + newv.value.x * dt
    &&& post.transforms@[i].translation.y == ts0[i].translation.y
    &&& post.transforms@[i].translation.z == ts0[i].translation.z + newv.value.z * dt
    &&& post.transforms@[i].translation.y == 0
    &&& v3(post.transforms@[i].facing) == facing_blend(v3(ts0[i].facing), v3(newv.value))
}

/// What one whole frame does to the simulation: the configuration and the
/// population are kept, and every agent advances as `frame_agent_rel` says.
pub open spec fn frame_rel(pre: Simulation, post: Simulation, dt: int) -> bool {
    &&& post.config == pre.config
    &&& post.transforms@.len() == pre.transforms@.len()
    &&& post.velocities@.len() == pre.velocities@.len()
    &&& post.accelerations@ == pre.accelerations@
    &&& post.bees@.len() == pre.bees@.len()
    &&& forall|i: int| 0 <= i < pre.pop() ==> #[trigger] frame_agent_rel(pre, post, dt, i)
}

impl Simulation {
    /// One whole frame, the phases in their fixed order: neighbor discovery,
    /// cohesion, separation, alignment, the movement update, then velocity,
    /// orientation and position integration. A run with no agents does
    /// nothing at all.
    pub fn step(&mut self, dt: i64)
        requires
            old(self).inv(),
            old(self).positions_ok(),
            0 <= dt <= DT_LIMIT,
        ensures
            final(self).inv(),
            frame_rel(*old(self), *final(self), dt as int),
            old(self).pop() == 0 ==> {
                &&& final(self).transforms@ == old(self).transforms@
                &&& final(self).velocities@ == old(self).velocities@
                &&& final(self).accelerations@ == old(self).accelerations@
                &&& final(self).bees@ == old(self).bees@
                &&& final(self).config == old(self).config
            },
    {
        let ghost s0 = *self;
        self.get_in_sight_bees();
        let ghost s1 = *self;
        self.cohesion();
        let ghost s2 = *self;
        self.separation();
        let ghost s3 = *self;
        self.alignment();
        let ghost s4 = *self;
        self.calculate_movement();
        let ghost s5 = *self;
        self.update_velocity(dt);
        let ghost s6 = *self;
        self.update_rotation();
        let ghost s7 = *self;
        self.update_position(dt);
        proof {
            let post = *self;
            assert forall|i: int| 0 <= i < s0.pop() implies #[trigger] frame_agent_rel(
                s0,
                post,
                dt as int,
                i,
            ) by {
                let ts0 = s0.transforms@;
                let vs0 = s0.velocities@;
                let r = s0.config.vision_radius as int;
                let a = v3(ts0[i].translation);
                let snap = snapshot_of(ts0, vs0, a, r);
                assert(s1.bees@[i].in_sight_bees@ == snap);
                assert(s2.bees@[i].in_sight_bees@ == snap);
                assert(s3.bees@[i].in_sight_bees@ == snap);
                assert(s4.bees@[i].in_sight_bees@ == snap);
                assert(post.bees@[i] == s4.bees@[i]);
                let len = snap.len() as int;
                assert(len > 0 ==> v3(s2.bees@[i].cohesion) == v3_div(
                    cohesion_sum(snap, a, r, len),
                    len,
                ));
                assert(s4.bees@[i].cohesion == s2.bees@[i].cohesion);
                assert(v3(s3.bees@[i].separation) == separation_sum(
                    snap,
                    a,
                    s0.config.separation_threshold as int,
                    len,
                ));
                assert(s4.bees@[i].separation == s3.bees@[i].separation);
                assert(len > 0 ==> v3(s4.bees@[i].alignment) == v3_div(
                    alignment_sum(snap, len),
                    len,
                ));
                assert(len == 0 ==> s4.bees@[i].alignment == s3.bees@[i].alignment);
                assert(s4.velocities@[i] == vs0[i]);
                assert(post.velocities@[i] == s5.velocities@[i]);
                assert(len == 0 ==> s5.velocities@[i] == vs0[i]);
                assert(len > 0 ==> movement_outcome(
                    s5.velocities@[i],
                    vs0[i],
                    ts0[i].translation,
                    s4.bees@[i].cohesion,
                    s4.bees@[i].separation,
                    s4.bees@[i].alignment,
                    s0.config.noise as int,
                    s0.config.speed as int,
                ));
                assert(s7.transforms@[i].translation == ts0[i].translation);
                assert(v3(s7.transforms@[i].facing) == facing_blend(
                    v3(ts0[i].facing),
                    v3(s6.velocities@[i].value),
                ));
                assert(post.transforms@[i].facing == s7.transforms@[i].facing);
                assert(post.transforms@[i].translation.x == s7.transforms@[i].translation.x
                    + s7.velocities@[i].value.x * dt);
                assert(s5.agent_ok(i));
            }
            if s0.pop() == 0 {
                assert(post.transforms@ =~= s0.transforms@);
                assert(post.velocities@ =~= s0.velocities@);
                assert(post.accelerations@ =~= s0.accelerations@);
                assert(post.bees@ =~= s0.bees@);
            }
        }
    }

    /// Runs one frame if every agent is still inside the modeled world, and
    /// reports whether it did; a simulation with an agent out of bounds is
    /// left untouched.
    pub fn try_step(&mut self, dt: i64) -> (r: bool)
        requires
            old(self).inv(),
            0 <= dt <= DT_LIMIT,
        ensures
            final(self).inv(),
            r == old(self).positions_ok(),
            r ==> frame_rel(*old(self), *final(self), dt as int),
            !r ==> *final(self) == *old(self),
    {
        let n = self.config.population;
        let mut i: usize = 0;
        while i < n
            invariant
                self.inv(),
                *self == *old(self),
                n == self.config.population,
                i <= n,
                forall|k: int| 0 <= k < i ==> v3_bounded(
                    v3((#[trigger] self.transforms@[k]).translation),
                    WORLD_LIMIT as int,
                ),
            decreases n - i,
        {
            let p = self.transforms[i].translation;
            if !(-WORLD_LIMIT <= p.x && p.x <= WORLD_LIMIT && -WORLD_LIMIT <= p.y
                && p.y <= WORLD_LIMIT && -WORLD_LIMIT <= p.z && p.z <= WORLD_LIMIT) {
                return false;
            }
            i += 1;
        }
        self.step(dt);
        true
    }
}

/// Planarity: across any frame, an agent's velocity stays parallel to the
/// ground plane and its position stays on it.
pub proof fn lemma_frame_planarity(pre: Simulation, post: Simulation, dt: int, i: int)
    requires
        0 <= i < pre.pop(),
        frame_rel(pre, post, dt),
    ensures
        post.velocities@[i].value.y == 0,
        post.transforms@[i].translation.y == 0,
{
    assert(frame_agent_rel(pre, post, dt, i));
}

/// The speed invariant: across any frame, an agent that saw at least one
/// neighbor — itself included — leaves with a velocity renormalized onto the
/// configured speed: its squared magnitude lies within the fixed-point
/// rounding tolerance of the squared speed, except in the degenerate case
/// where the drifted velocity was exactly zero and has no direction to
/// rescale, which renormalizes to a standstill.
pub proof fn lemma_frame_speed(pre: Simulation, post: Simulation, dt: int, i: int)
    requires
        0 <= i < pre.pop(),
        pre.config.wf(),
        frame_rel(pre, post, dt),
        snapshot_of(
            pre.transforms@,
            pre.velocities@,
            v3(pre.transforms@[i].translation),
            pre.config.vision_radius as int,
        ).len() > 0,
    ensures
        ({
            let s = pre.config.speed as int;
            let m = crate::vec3::mag_sq(v3(post.velocities@[i].value));
            m == 0 || (s * s - 6 * s <= m && m <= 3 * (s * s))
        }),
{
    assert(frame_agent_rel(pre, post, dt, i));
    let s = pre.config.speed as int;
    let outcome = movement_outcome(
        post.velocities@[i],
        pre.velocities@[i],
        pre.transforms@[i].translation,
        post.bees@[i].cohesion,
        post.bees@[i].separation,
        post.bees@[i].alignment,
        pre.config.noise as int,
        s,
    );
    assert(outcome);
    let (nx, nz) = choose|nx: int, nz: int| {
        &&& noise_admits(nx, pre.config.noise as int)
        &&& noise_admits(nz, pre.config.noise as int)
        &&& v3(post.velocities@[i].value) == renorm_spec(
            drifted_velocity(
                v3(pre.velocities@[i].value),
                v3(pre.transforms@[i].translation),
                v3(post.bees@[i].cohesion),
                v3(post.bees@[i].separation),
                v3(post.bees@[i].alignment),
                V3 { x: nx, y: 0, z: nz },
            ),
            s,
        )
    };
    let d = drifted_velocity(
        v3(pre.velocities@[i].value),
        v3(pre.transforms@[i].translation),
        v3(post.bees@[i].cohesion),
        v3(post.bees@[i].separation),
        v3(post.bees@[i].alignment),
        V3 { x: nx, y: 0, z: nz },
    );
    if crate::vec3::mag_sq(d) == 0 {
        assert(crate::vec3::mag_sq(v3(post.velocities@[i].value)) == 0);
    } else {
        assert(crate::vec3::mag_sq(d) > 0) by (nonlinear_arith)
            requires
                crate::vec3::mag_sq(d) == d.x * d.x + d.y * d.y + d.z * d.z,
                crate::vec3::mag_sq(d) != 0,
        ;
        crate::movement::lemma_renorm_speed(d, s);
    }
}

/// Every snapshot entry is one of the scanned agents, so a snapshot over
/// in-world agents is itself in-world and no longer than the population
/// scanned.
proof fn lemma_snapshot_prefix_entries(
    ts: Seq<Transform>,
    vs: Seq<Velocity>,
    a: V3,
    radius: int,
    k: int,
)
    requires
        vs.len() == ts.len(),
        0 <= k <= ts.len(),
        forall|w: int| 0 <= w < ts.len() ==> v3_bounded(
            v3((#[trigger] ts[w]).translation),
            WORLD_LIMIT as int,
        ) && v3_bounded(v3(vs[w].value), WORLD_LIMIT as int),
    ensures
        snapshot_prefix(ts, vs, a, radius, k).len() <= k,
        forall|j: int| 0 <= j < snapshot_prefix(ts, vs, a, radius, k).len() ==> {
            &&& v3_bounded(
                v3((#[trigger] snapshot_prefix(ts, vs, a, radius, k)[j]).0.translation),
                WORLD_LIMIT as int,
            )
            &&& v3_bounded(v3(snapshot_prefix(ts, vs, a, radius, k)[j].1.value), WORLD_LIMIT as int)
        },
    decreases k,
{
    if k > 0 {
        lemma_snapshot_prefix_entries(ts, vs, a, radius, k - 1);
    }
}

} // verus!
