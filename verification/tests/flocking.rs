use flock::config::Config;
use flock::sim::Simulation;
use flock::vec3::Vec3i;

fn config(population: usize) -> Config {
    Config::new(
        population,
        -350_000,
        350_000,
        -200_000,
        200_000,
        10_000,
        9_500,
        20_000,
        25_000,
    )
    .unwrap()
}

fn quiet_config(population: usize) -> Config {
    Config::new(
        population,
        -350_000,
        350_000,
        -200_000,
        200_000,
        10_000,
        9_500,
        0,
        25_000,
    )
    .unwrap()
}

#[test]
fn zero_population_runs_every_phase_unchanged() {
    let cfg = quiet_config(0);
    let positions: Vec<Vec3i> = Vec::new();
    let velocities: Vec<Vec3i> = Vec::new();
    let mut sim = Simulation::with_agents(cfg, &positions, &velocities).unwrap();
    assert_eq!(sim.population(), 0);
    assert!(sim.try_step(16));
    assert_eq!(sim.population(), 0);
}

#[test]
fn two_agents_at_distance_five_see_each_other() {
    let cfg = quiet_config(2);
    let positions = vec![Vec3i::new(0, 0, 0), Vec3i::new(5_000, 0, 0)];
    let velocities = vec![Vec3i::new(1_000, 0, 0), Vec3i::new(3_000, 0, 0)];
    let mut sim = Simulation::with_agents(cfg, &positions, &velocities).unwrap();
    sim.get_in_sight_bees();
    assert_eq!(sim.neighbor_count_at(0), 2);
    assert_eq!(sim.neighbor_count_at(1), 2);

    sim.cohesion();
    assert_eq!(sim.cohesion_at(0), Vec3i::new(2_500, 0, 0));
    assert_eq!(sim.cohesion_at(1), Vec3i::new(2_500, 0, 0));

    sim.separation();
    assert_eq!(sim.separation_at(0), Vec3i::new(-5_000, 0, 0));
    assert_eq!(sim.separation_at(1), Vec3i::new(5_000, 0, 0));

    sim.alignment();
    assert_eq!(sim.alignment_at(0), Vec3i::new(2_000, 0, 0));
    assert_eq!(sim.alignment_at(1), Vec3i::new(2_000, 0, 0));
}

#[test]
fn neighbor_snapshot_captures_transform_and_velocity() {
    let cfg = quiet_config(2);
    let positions = vec![Vec3i::new(0, 0, 0), Vec3i::new(5_000, 0, 0)];
    let velocities = vec![Vec3i::new(1_000, 0, 0), Vec3i::new(3_000, 0, 0)];
    let mut sim = Simulation::with_agents(cfg, &positions, &velocities).unwrap();
    sim.get_in_sight_bees();
    let (t0, v0) = sim.neighbor_at(0, 0);
    let (t1, v1) = sim.neighbor_at(0, 1);
    assert_eq!(t0.translation, Vec3i::new(0, 0, 0));
    assert_eq!(v0.value, Vec3i::new(1_000, 0, 0));
    assert_eq!(t1.translation, Vec3i::new(5_000, 0, 0));
    assert_eq!(v1.value, Vec3i::new(3_000, 0, 0));
}

#[test]
fn single_agent_is_its_own_neighbor() {
    let cfg = quiet_config(1);
    let positions = vec![Vec3i::new(1_000, 0, 2_000)];
    let velocities = vec![Vec3i::new(0, 0, 25_000)];
    let mut sim = Simulation::with_agents(cfg, &positions, &velocities).unwrap();
    sim.get_in_sight_bees();
    assert_eq!(sim.neighbor_count_at(0), 1);
    let (t, v) = sim.neighbor_at(0, 0);
    assert_eq!(t.translation, Vec3i::new(1_000, 0, 2_000));
    assert_eq!(v.value, Vec3i::new(0, 0, 25_000));

    sim.cohesion();
    assert_eq!(sim.cohesion_at(0), Vec3i::new(1_000, 0, 2_000));

    sim.separation();
    assert_eq!(sim.separation_at(0), Vec3i::new(0, 0, 0));

    sim.alignment();
    assert_eq!(sim.alignment_at(0), Vec3i::new(0, 0, 25_000));

    // One neighbor (itself), so the integration gate is open: the velocity
    // drifts by cohesion + alignment - position = its own velocity, doubling
    // it, and renormalizes exactly back onto the configured speed.
    sim.calculate_movement();
    assert_eq!(sim.velocity_at(0).value, Vec3i::new(0, 0, 25_000));
}

#[test]
fn empty_snapshot_keeps_previous_steering_and_velocity() {
    let cfg = quiet_config(1);
    let positions = vec![Vec3i::new(0, 0, 0)];
    let velocities = vec![Vec3i::new(25_000, 0, 0)];
    let mut sim = Simulation::with_agents(cfg, &positions, &velocities).unwrap();
    // The snapshot starts empty: the averaging passes keep their previous
    // vectors instead of dividing by zero, and movement leaves the velocity
    // alone.
    sim.cohesion();
    sim.alignment();
    sim.calculate_movement();
    assert_eq!(sim.cohesion_at(0), Vec3i::new(0, 0, 0));
    assert_eq!(sim.alignment_at(0), Vec3i::new(0, 0, 0));
    assert_eq!(sim.velocity_at(0).value, Vec3i::new(25_000, 0, 0));
}

#[test]
fn step_integrates_position_and_keeps_planarity() {
    let cfg = quiet_config(1);
    let positions = vec![Vec3i::new(1_000, 0, 2_000)];
    let velocities = vec![Vec3i::new(0, 0, 25_000)];
    let mut sim = Simulation::with_agents(cfg, &positions, &velocities).unwrap();
    assert!(sim.try_step(2));
    // The velocity renormalizes exactly back onto the speed, and the agent
    // advances by velocity times elapsed time, staying on the ground plane.
    assert_eq!(sim.velocity_at(0).value, Vec3i::new(0, 0, 25_000));
    assert_eq!(sim.transform_at(0).translation, Vec3i::new(1_000, 0, 52_000));
    assert_eq!(sim.velocity_at(0).value.y, 0);
    assert_eq!(sim.transform_at(0).translation.y, 0);
}

#[test]
fn facing_eases_toward_velocity() {
    let cfg = quiet_config(1);
    let positions = vec![Vec3i::new(0, 0, 0)];
    let velocities = vec![Vec3i::new(20_000, 0, 0)];
    let mut sim = Simulation::with_agents(cfg, &positions, &velocities).unwrap();
    // The spawn facing equals the velocity, so one blend step changes
    // nothing; after the velocity turns, the facing closes a twentieth of
    // the gap per frame.
    assert_eq!(sim.transform_at(0).facing, Vec3i::new(20_000, 0, 0));
    sim.update_rotation();
    assert_eq!(sim.transform_at(0).facing, Vec3i::new(20_000, 0, 0));
}

#[test]
fn speed_after_step_is_within_tolerance() {
    let cfg = config(2);
    let positions = vec![Vec3i::new(0, 0, 0), Vec3i::new(5_000, 0, 0)];
    let velocities = vec![Vec3i::new(1_000, 0, 0), Vec3i::new(0, 0, -1_000)];
    let mut sim = Simulation::with_agents(cfg, &positions, &velocities).unwrap();
    assert!(sim.try_step(16));
    let s: i64 = 25_000;
    for i in 0..2 {
        let v = sim.velocity_at(i).value;
        assert_eq!(v.y, 0);
        let m = v.x * v.x + v.z * v.z;
        assert!(m == 0 || (s * s - 6 * s <= m && m <= 3 * s * s));
        assert_eq!(sim.transform_at(i).translation.y, 0);
    }
}

#[test]
fn try_step_rejects_an_agent_out_of_the_world() {
    let cfg = quiet_config(1);
    let positions = vec![Vec3i::new(1_000_000_000_000, 0, 0)];
    let velocities = vec![Vec3i::new(25_000, 0, 0)];
    let mut sim = Simulation::with_agents(cfg, &positions, &velocities).unwrap();
    // The first frame runs from the very edge of the world and pushes the
    // agent past it; the second refuses to run and changes nothing.
    assert!(sim.try_step(1_000));
    let pos = sim.transform_at(0).translation;
    assert!(pos.x > 1_000_000_000_000);
    assert!(!sim.try_step(1_000));
    assert_eq!(sim.transform_at(0).translation, pos);
    assert_eq!(sim.velocity_at(0).value, Vec3i::new(25_000, 0, 0));
}

#[test]
fn with_agents_rejects_mismatched_or_invalid_input() {
    let cfg = quiet_config(2);
    let one_position = vec![Vec3i::new(0, 0, 0)];
    let velocities = vec![Vec3i::new(0, 0, 0), Vec3i::new(0, 0, 0)];
    assert!(Simulation::with_agents(cfg, &one_position, &velocities).is_none());

    let off_plane = vec![Vec3i::new(0, 5, 0), Vec3i::new(0, 0, 0)];
    assert!(Simulation::with_agents(cfg, &off_plane, &velocities).is_none());

    let positions = vec![Vec3i::new(0, 0, 0), Vec3i::new(5_000, 0, 0)];
    let too_fast = vec![Vec3i::new(25_001, 0, 0), Vec3i::new(0, 0, 0)];
    assert!(Simulation::with_agents(cfg, &positions, &too_fast).is_none());
}

#[test]
fn spawned_population_lands_in_the_rectangle() {
    let cfg = config(100);
    let sim = Simulation::spawn(cfg);
    assert_eq!(sim.population(), 100);
    let s: i64 = 25_000;
    for i in 0..100 {
        let p = sim.transform_at(i).translation;
        assert!((-350_000..350_000).contains(&p.x));
        assert_eq!(p.y, 0);
        assert!((-200_000..200_000).contains(&p.z));
        let v = sim.velocity_at(i).value;
        assert_eq!(v.y, 0);
        let m = v.x * v.x + v.z * v.z;
        assert!(m == 0 || (s * s - 6 * s <= m && m <= 3 * s * s));
        assert_eq!(sim.neighbor_count_at(i), 0);
        assert_eq!(sim.cohesion_at(i), Vec3i::new(0, 0, 0));
        assert_eq!(sim.separation_at(i), Vec3i::new(0, 0, 0));
        assert_eq!(sim.alignment_at(i), Vec3i::new(0, 0, 0));
    }
}

#[test]
fn spawned_flock_survives_many_frames() {
    let cfg = config(50);
    let mut sim = Simulation::spawn(cfg);
    for _ in 0..10 {
        assert!(sim.try_step(16));
    }
    let s: i64 = 25_000;
    for i in 0..50 {
        let v = sim.velocity_at(i).value;
        assert_eq!(v.y, 0);
        let m = v.x * v.x + v.z * v.z;
        assert!(m == 0 || (s * s - 6 * s <= m && m <= 3 * s * s));
        assert_eq!(sim.transform_at(i).translation.y, 0);
    }
}
