//! The per-agent flocking state — the neighbor snapshot and the three
//! steering vectors — and the mathematical model of how each is computed.

use vstd::prelude::*;

use crate::movement::Velocity;
use crate::vec3::{dist_sq, v3, v3_add, v3_sub, v3_zero, Vec3i, V3};

verus! {

/// The spatial state of one agent: where it is and which way it faces.
/// Orientation is modeled as a facing vector that is blended toward the
/// velocity a little each frame, the fixed-point counterpart of easing a
/// rotation toward the direction of travel about a fixed up axis.
#[derive(Clone, Copy, Debug, PartialEq, Eq, Structural)]
pub struct Transform {
    /// World-space position; `y` stays on the ground plane.
    pub translation: Vec3i,
    /// The direction the agent faces.
    pub facing: Vec3i,
}

impl Transform {
    /// Builds a transform from its parts.
    pub fn new(translation: Vec3i, facing: Vec3i) -> (r: Transform)
        ensures
            r.translation == translation && r.facing == facing,
    {
        Transform { translation, facing }
    }
}

/// The frame-scratch state of one agent: the neighbors it saw at the start of
/// the frame and the steering vectors computed from them. Fully recomputed
/// each frame; a steering vector keeps its previous value on a frame whose
/// neighbor list is empty.
#[derive(Debug)]
pub struct Bee {
    /// Snapshot of every agent within the vision radius — position and
    /// velocity as they were when the frame began, in population order.
    /// The scanning agent itself qualifies at distance zero.
    pub in_sight_bees: Vec<(Transform, Velocity)>,
    /// Pull toward the neighbors' mean position.
    pub cohesion: Vec3i,
    /// Push away from neighbors closer than the separation threshold.
    pub separation: Vec3i,
    /// Match of the neighbors' mean velocity.
    pub alignment: Vec3i,
}

impl Bee {
    /// A fresh agent: no neighbors seen yet, zero steering.
    pub fn new() -> (r: Bee)
        ensures
            r.in_sight_bees@ == Seq::<(Transform, Velocity)>::empty(),
            v3(r.cohesion) == v3_zero(),
            v3(r.separation) == v3_zero(),
            v3(r.alignment) == v3_zero(),
    {
        Bee {
            in_sight_bees: Vec::new(),
            cohesion: Vec3i::zero(),
            separation: Vec3i::zero(),
            alignment: Vec3i::zero(),
        }
    }
}

/// Whether a point `b` is within the vision radius of a point `a`: the
/// neighbor relation, compared on squared distances.
pub open spec fn in_sight(a: V3, b: V3, radius: int) -> bool {
    dist_sq(a, b) <= radius * radius
}

/// The neighbor snapshot an agent at `a` collects from the first `k` agents:
/// position and velocity of every one within the vision radius, in
/// population order.
pub open spec fn snapshot_prefix(
    ts: Seq<Transform>,
    vs: Seq<Velocity>,
    a: V3,
    radius: int,
    k: int,
) -> Seq<(Transform, Velocity)>
    decreases k,
{
    if k <= 0 {
        Seq::empty()
    } else {
        let rest = snapshot_prefix(ts, vs, a, radius, k - 1);
        if in_sight(a, v3(ts[k - 1].translation), radius) {
            rest.push((ts[k - 1], vs[k - 1]))
        } else {
            rest
        }
    }
}

/// The full neighbor snapshot over the whole population.
pub open spec fn snapshot_of(ts: Seq<Transform>, vs: Seq<Velocity>, a: V3, radius: int) -> Seq<
    (Transform, Velocity),
> {
    snapshot_prefix(ts, vs, a, radius, ts.len() as int)
}

/// Sum of the snapshot positions still within the vision radius of `a`,
/// over the first `k` entries: the cohesion accumulation re-filters the
/// already-filtered snapshot by the same distance test.
pub open spec fn cohesion_sum(
    snap: Seq<(Transform, Velocity)>,
    a: V3,
    radius: int,
    k: int,
) -> V3
    decreases k,
{
    if k <= 0 {
        v3_zero()
    } else {
        let rest = cohesion_sum(snap, a, radius, k - 1);
        let p = v3(snap[k - 1].0.translation);
        if dist_sq(a, p) <= radius * radius {
            v3_add(rest, p)
        } else {
            rest
        }
    }
}

/// Sum of the vectors pointing from each too-close neighbor back toward `a`,
/// over the first `k` snapshot entries. A neighbor qualifies when its
/// distance is strictly positive — coincident agents, the scanner itself
/// among them, have no direction to push along — and strictly below the
/// separation threshold. Each qualifying neighbor contributes the offset
/// `a - p` itself: the direction away, normalized and then rescaled by the
/// very distance that normalized it.
pub open spec fn separation_sum(
    snap: Seq<(Transform, Velocity)>,
    a: V3,
    threshold: int,
    k: int,
) -> V3
    decreases k,
{
    if k <= 0 {
        v3_zero()
    } else {
        let rest = separation_sum(snap, a, threshold, k - 1);
        let p = v3(snap[k - 1].0.translation);
        let d = dist_sq(a, p);
        if 0 < d && d < threshold * threshold {
            v3_add(rest, v3_sub(a, p))
        } else {
            rest
        }
    }
}

/// Sum of the snapshot velocities over the first `k` entries, with no
/// distance re-filtering.
pub open spec fn alignment_sum(snap: Seq<(Transform, Velocity)>, k: int) -> V3
    decreases k,
{
    if k <= 0 {
        v3_zero()
    } else {
        v3_add(alignment_sum(snap, k - 1), v3(snap[k - 1].1.value))
    }
}

/// The neighbor relation is symmetric: if B is within A's vision radius then
/// A is within B's, both distances being measured on the same start-of-frame
/// snapshot.
pub proof fn lemma_in_sight_symmetric(a: V3, b: V3, radius: int)
    ensures
        in_sight(a, b, radius) == in_sight(b, a, radius),
{
    assert(dist_sq(a, b) == dist_sq(b, a)) by (nonlinear_arith);
}

/// Every agent is its own neighbor: its distance to itself is zero, which a
/// positive vision radius always admits.
pub proof fn lemma_in_sight_self(a: V3, radius: int)
    requires
        radius >= 1,
    ensures
        in_sight(a, a, radius),
{
    assert(dist_sq(a, a) == 0);
    assert(radius * radius > 0) by (nonlinear_arith)
        requires
            radius >= 1,
    ;
}

/// The snapshot holds an entry for agent `j` exactly when `j` is in sight,
/// and the entry is `j`'s transform and velocity.
pub proof fn lemma_snapshot_membership(
    ts: Seq<Transform>,
    vs: Seq<Velocity>,
    a: V3,
    radius: int,
    j: int,
)
    requires
        vs.len() == ts.len(),
        0 <= j < ts.len(),
        in_sight(a, v3(ts[j].translation), radius),
    ensures
        snapshot_of(ts, vs, a, radius).contains((ts[j], vs[j])),
{
    lemma_snapshot_prefix_membership(ts, vs, a, radius, j, ts.len() as int);
}

/// The neighbor relation over one frame's snapshot is mutual, the
/// self-inclusion quirk included: every agent's snapshot holds its own entry,
/// its distance to itself being zero, and whenever agent `j` stands in agent
/// `i`'s snapshot both snapshots hold each other's entries.
pub proof fn lemma_neighbors_mutual(
    ts: Seq<Transform>,
    vs: Seq<Velocity>,
    radius: int,
    i: int,
    j: int,
)
    requires
        vs.len() == ts.len(),
        0 <= i < ts.len(),
        0 <= j < ts.len(),
        radius >= 1,
        in_sight(v3(ts[i].translation), v3(ts[j].translation), radius),
    ensures
        snapshot_of(ts, vs, v3(ts[i].translation), radius).contains((ts[i], vs[i])),
        snapshot_of(ts, vs, v3(ts[i].translation), radius).contains((ts[j], vs[j])),
        snapshot_of(ts, vs, v3(ts[j].translation), radius).contains((ts[i], vs[i])),
{
    lemma_in_sight_self(v3(ts[i].translation), radius);
    lemma_snapshot_membership(ts, vs, v3(ts[i].translation), radius, i);
    lemma_snapshot_membership(ts, vs, v3(ts[i].translation), radius, j);
    lemma_in_sight_symmetric(v3(ts[i].translation), v3(ts[j].translation), radius);
    lemma_snapshot_membership(ts, vs, v3(ts[j].translation), radius, i);
}

proof fn lemma_snapshot_prefix_membership(
    ts: Seq<Transform>,
    vs: Seq<Velocity>,
    a: V3,
    radius: int,
    j: int,
    k: int,
)
    requires
        vs.len() == ts.len(),
        0 <= j < k <= ts.len(),
        in_sight(a, v3(ts[j].translation), radius),
    ensures
        snapshot_prefix(ts, vs, a, radius, k).contains((ts[j], vs[j])),
    decreases k,
{
    if j == k - 1 {
        let rest = snapshot_prefix(ts, vs, a, radius, k - 1);
        assert(snapshot_prefix(ts, vs, a, radius, k) == rest.push((ts[j], vs[j])));
        assert(rest.push((ts[j], vs[j]))[rest.len() as int] == (ts[j], vs[j]));
    } else {
        lemma_snapshot_prefix_membership(ts, vs, a, radius, j, k - 1);
        let rest = snapshot_prefix(ts, vs, a, radius, k - 1);
        let w = choose|w: int| 0 <= w < rest.len() && rest[w] == (ts[j], vs[j]);
        if in_sight(a, v3(ts[k - 1].translation), radius) {
            assert(rest.push((ts[k - 1], vs[k - 1]))[w] == (ts[j], vs[j]));
        }
    }
}

} // verus!
