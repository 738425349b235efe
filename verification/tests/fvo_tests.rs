use fvo_core::grid::{build_buckets, query_neighbors, AgentSnap, GridGeom};
use fvo_core::math::{div_i128, isqrt_u128, sqrt_up_u128};
use fvo_core::orca::{
    build_orca_constraints, integrate_velocity, preferred_velocity, separation_impulse,
    solve_orca, FvoAgent, FvoSettings, OrcaConstraint,
};
use fvo_core::steer::{calculate_fvo_steering, FlowGroupInput, ManagedUnit};
use fvo_core::vec2::{Vec2Fix, Vec3Fix};

fn v2(x: i64, z: i64) -> Vec2Fix {
    Vec2Fix { x, z }
}

fn v3(x: i64, y: i64, z: i64) -> Vec3Fix {
    Vec3Fix { x, y, z }
}

fn stock_settings() -> FvoSettings {
    FvoSettings::new(50_000, 60_000, 100_000, 3_000, 2_500, 8_000)
}

fn snap(id: u64, pos: Vec3Fix, vel: Vec3Fix, radius: i64) -> AgentSnap {
    AgentSnap { id, pos, vel, radius }
}

#[test]
fn isqrt_small_values() {
    assert_eq!(isqrt_u128(0), 0);
    assert_eq!(isqrt_u128(1), 1);
    assert_eq!(isqrt_u128(2), 1);
    assert_eq!(isqrt_u128(3), 1);
    assert_eq!(isqrt_u128(4), 2);
    assert_eq!(isqrt_u128(2_500_000_000), 50_000);
}

#[test]
fn sqrt_up_small_values() {
    assert_eq!(sqrt_up_u128(0), 0);
    assert_eq!(sqrt_up_u128(1), 1);
    assert_eq!(sqrt_up_u128(4), 2);
    assert_eq!(sqrt_up_u128(5), 3);
    assert_eq!(sqrt_up_u128(9_000_000), 3_000);
}

#[test]
fn division_truncates_toward_zero() {
    assert_eq!(div_i128(7, 2), 3);
    assert_eq!(div_i128(-7, 2), -3);
    assert_eq!(div_i128(0, 5), 0);
}

#[test]
fn clamp_len_scales_onto_circle() {
    // a 3-4-5 triangle scaled: |(30, 40)| = 50, clamped to 5 gives (3, 4)
    let r = v2(30, 40).clamp_len(5);
    assert_eq!(r, v2(3, 4));
    // within the limit the vector is unchanged
    assert_eq!(v2(3, 4).clamp_len(5), v2(3, 4));
    assert_eq!(v2(0, 0).clamp_len(5), v2(0, 0));
}

#[test]
fn normalize_scaled_gives_milli_unit_direction() {
    assert_eq!(v2(3, 4).normalize_scaled(), v2(600, 800));
    assert_eq!(v2(-3000, 0).normalize_scaled(), v2(-1000, 0));
    assert_eq!(v2(0, 0).normalize_scaled(), v2(0, 0));
}

#[test]
fn settings_default_matches_stock_tuning() {
    let s = FvoSettings::default();
    assert_eq!(s.preferred_speed, 50_000);
    assert_eq!(s.max_speed, 60_000);
    assert_eq!(s.max_accel, 100_000);
    assert_eq!(s.horizon_ms, 3_000);
    assert_eq!(s.radius, 2_500);
    assert_eq!(s.sensor_range, 8_000);
    let a = FvoAgent::new(s);
    assert_eq!(a.velocity, v3(0, 0, 0));
    assert_eq!(a.steering, v3(0, 0, 0));
}

#[test]
fn preferred_velocity_zero_at_destination() {
    // distance 0 gives speed scale 0, hence a zero preferred velocity
    let s = stock_settings();
    assert_eq!(preferred_velocity(v2(1000, 0), 0, &s), v2(0, 0));
}

#[test]
fn preferred_velocity_scales_inside_slow_radius() {
    let s = stock_settings();
    // slow radius is 2 * 8000 = 16000; at half that distance, half speed
    assert_eq!(preferred_velocity(v2(1000, 0), 8_000, &s), v2(25_000, 0));
    // outside the slow radius, full preferred speed
    assert_eq!(preferred_velocity(v2(1000, 0), 1_000_000, &s), v2(50_000, 0));
    // an undefined flow direction yields a zero preferred velocity
    assert_eq!(preferred_velocity(v2(0, 0), 1_000_000, &s), v2(0, 0));
}

#[test]
fn solve_orca_no_constraints_returns_clamped_preferred() {
    // no neighbors means no constraints: the solved velocity is exactly the
    // preferred velocity clamped to the speed limit
    let none: Vec<OrcaConstraint> = Vec::new();
    assert_eq!(solve_orca(v2(5_000, 0), &none, 60_000), v2(5_000, 0));
    assert_eq!(solve_orca(v2(70_000, 0), &none, 60_000), v2(60_000, 0));
}

#[test]
fn solve_orca_projects_violated_constraint() {
    // a constraint forbidding positive-x velocities: anchor at the origin,
    // normal pointing along +x; a preferred velocity of (10, 0) world units
    // is projected onto the constraint line
    let cs = vec![OrcaConstraint { point: v2(0, 0), normal: v2(1000, 0) }];
    let r = solve_orca(v2(10_000, 0), &cs, 60_000);
    assert_eq!(r, v2(0, 0));
    // an unviolated constraint leaves the candidate alone
    let r2 = solve_orca(v2(-10_000, 0), &cs, 60_000);
    assert_eq!(r2, v2(-10_000, 0));
}

#[test]
fn integrate_limits_acceleration_then_speed() {
    // accel budget: 100 units/s^2 over 0.1 s = 10 units of velocity change
    let r = integrate_velocity(v2(0, 0), v2(50_000, 0), 60_000, 100_000, 100);
    assert_eq!(r, v2(10_000, 0));
    // a change within the budget is applied exactly
    let r2 = integrate_velocity(v2(0, 0), v2(5_000, 0), 60_000, 100_000, 100);
    assert_eq!(r2, v2(5_000, 0));
}

#[test]
fn separation_pushes_overlapping_agents_apart() {
    // two agents at x = 0 and x = 3 with radius 2.5 each: combined radius 5
    // exceeds the distance, so each receives a push away from the other
    let a = snap(1, v3(0, 0, 0), v3(0, 0, 0), 2_500);
    let b = snap(2, v3(3_000, 0, 0), v3(0, 0, 0), 2_500);
    let sep_a = separation_impulse(v2(0, 0), 2_500, &vec![b], 100);
    let sep_b = separation_impulse(v2(3_000, 0), 2_500, &vec![a], 100);
    // push magnitude: (5250 - 3000) / 0.1 s = 22.5 units/s
    assert_eq!(sep_a, v2(-22_500, 0));
    assert_eq!(sep_b, v2(22_500, 0));
    // no neighbors, no impulse
    let none: Vec<AgentSnap> = Vec::new();
    assert_eq!(separation_impulse(v2(0, 0), 2_500, &none, 100), v2(0, 0));
}

#[test]
fn overlap_constraint_pushes_along_offset() {
    // overlapping neighbors produce a constraint whose normal is the unit
    // offset toward the neighbor and whose anchor carries the push
    let s = stock_settings();
    let b = snap(2, v3(3_000, 0, 0), v3(0, 0, 0), 2_500);
    let cs = build_orca_constraints(v3(0, 0, 0), v3(0, 0, 0), &s, &vec![b], 100);
    assert_eq!(cs.len(), 1);
    assert_eq!(cs[0].normal, v2(1_000, 0));
    // push = (5000 - 3000) / 0.1 s = 20 units/s, applied from a zero velocity
    assert_eq!(cs[0].point, v2(20_000, 0));
}

#[test]
fn cutoff_cap_constraint_projects_onto_cap() {
    // a separating pair whose relative velocity lies inside the cutoff cap of
    // the truncated cone: the normal is the unit of w = rv - rp / horizon and
    // the shift pulls back onto the cap
    let s = stock_settings();
    let b = snap(2, v3(6_000, 0, 0), v3(2_000, 0, 0), 2_500);
    let cs = build_orca_constraints(v3(0, 0, 0), v3(1_000, 0, 0), &s, &vec![b], 100);
    assert_eq!(cs.len(), 1);
    // rp = (6, 0), rv = (-1, 0), w = rv - rp / 3s = (-3, 0)
    assert_eq!(cs[0].normal, v2(-1_000, 0));
    // shift = unit(w) * (combined/horizon - |w|) = (-1) * (1.666 - 3) = 1.334
    assert_eq!(cs[0].point, v2(2_334, 0));
}

#[test]
fn cone_leg_constraint_uses_nearer_leg() {
    // a head-on pair outside the combined radius: the relative velocity is
    // projected onto a leg of the velocity-obstacle cone
    let s = stock_settings();
    let b = snap(2, v3(10_000, 0, 0), v3(-50_000, 0, 0), 2_500);
    let cs = build_orca_constraints(v3(0, 0, 0), v3(50_000, 0, 0), &s, &vec![b], 100);
    assert_eq!(cs.len(), 1);
    // the outward normal of the right leg, scaled to a milli-unit direction
    assert_eq!(cs[0].normal, v2(499, 866));
    // anchor = own velocity + normal * (rv . normal)
    assert_eq!(cs[0].point, v2(74_900, 43_213));
}

#[test]
fn neighbor_query_finds_agents_in_range_only() {
    let a = snap(1, v3(0, 0, 0), v3(0, 0, 0), 2_500);
    let near = snap(2, v3(5_000, 0, 0), v3(0, 0, 0), 2_500);
    let far = snap(3, v3(100_000, 0, 0), v3(0, 0, 0), 2_500);
    let geom = GridGeom { origin: v2(0, 0), bucket_size_x: 10_000, bucket_size_z: 10_000 };
    let grid = build_buckets(&vec![a, near, far], geom);
    let ns = query_neighbors(&grid, 1, v3(0, 0, 0), 8_000);
    assert_eq!(ns.len(), 1);
    assert_eq!(ns[0].id, 2);
}

#[test]
fn neighbor_query_invariant_to_bucket_size() {
    // the same snapshot partitioned with different bucket sizes yields the
    // same neighbor set
    let a = snap(1, v3(0, 0, 0), v3(0, 0, 0), 2_500);
    let b = snap(2, v3(5_000, 0, 2_000), v3(0, 0, 0), 2_500);
    let c = snap(3, v3(-4_000, 0, 3_000), v3(0, 0, 0), 2_500);
    let far = snap(4, v3(90_000, 0, -50_000), v3(0, 0, 0), 2_500);
    let snapshot = vec![a, b, c, far];
    let coarse = GridGeom { origin: v2(0, 0), bucket_size_x: 50_000, bucket_size_z: 50_000 };
    let fine = GridGeom { origin: v2(500, -700), bucket_size_x: 3_000, bucket_size_z: 7_000 };
    let g1 = build_buckets(&snapshot, coarse);
    let g2 = build_buckets(&snapshot, fine);
    let n1 = query_neighbors(&g1, 1, v3(0, 0, 0), 8_000);
    let n2 = query_neighbors(&g2, 1, v3(0, 0, 0), 8_000);
    assert_eq!(n1.len(), 2);
    assert_eq!(n1, n2);
}

#[test]
fn bucket_coordinates_floor_negative_offsets() {
    let geom = GridGeom { origin: v2(0, 0), bucket_size_x: 1_000, bucket_size_z: 1_000 };
    let a = snap(1, v3(-500, 0, 1_500), v3(0, 0, 0), 2_500);
    let grid = build_buckets(&vec![a], geom);
    assert_eq!(grid.entries.len(), 1);
    assert_eq!(grid.entries[0].bx, -1);
    assert_eq!(grid.entries[0].bz, 1);
}

fn lone_agent_tick() -> Vec<Vec<(u64, Vec3Fix)>> {
    let snapshot = vec![snap(1, v3(0, 0, 0), v3(0, 0, 0), 2_500)];
    let unit = ManagedUnit { id: 1, settings: stock_settings(), flow_dir: v2(1_000, 0) };
    let group = FlowGroupInput { units: vec![unit], destination: v3(2_000_000, 0, 0) };
    let geom = GridGeom { origin: v2(0, 0), bucket_size_x: 10_000, bucket_size_z: 10_000 };
    calculate_fvo_steering(&snapshot, &vec![group], geom, 100)
}

#[test]
fn lone_agent_accelerates_along_flow() {
    // no neighbors, destination far: the agent accelerates along the flow
    // direction, limited to max_accel * dt = 100 * 0.1 = 10 units/s
    let out = lone_agent_tick();
    assert_eq!(out.len(), 1);
    assert_eq!(out[0].len(), 1);
    assert_eq!(out[0][0], (1, v3(10_000, 0, 0)));
}

#[test]
fn velocity_never_exceeds_max_speed() {
    // a fast agent that prefers cruising at the limit reaches it and stays
    let snapshot = vec![snap(1, v3(0, 0, 0), v3(59_000, 0, 0), 2_500)];
    let fast = FvoSettings::new(60_000, 60_000, 100_000, 3_000, 2_500, 8_000);
    let unit = ManagedUnit { id: 1, settings: fast, flow_dir: v2(1_000, 0) };
    let group = FlowGroupInput { units: vec![unit], destination: v3(2_000_000, 0, 0) };
    let geom = GridGeom { origin: v2(0, 0), bucket_size_x: 10_000, bucket_size_z: 10_000 };
    let out = calculate_fvo_steering(&snapshot, &vec![group], geom, 100);
    let nv = out[0][0].1;
    let len_sq = (nv.x as i128) * (nv.x as i128) + (nv.z as i128) * (nv.z as i128);
    assert!(len_sq <= 60_000i128 * 60_000i128);
    assert_eq!(nv, v3(60_000, 0, 0));
}

#[test]
fn acceleration_clamp_holds_each_tick() {
    // over one tick the velocity change stays within max_accel * dt
    let current = v3(20_000, 0, 0);
    let snapshot = vec![snap(1, v3(0, 0, 0), current, 2_500)];
    let unit = ManagedUnit { id: 1, settings: stock_settings(), flow_dir: v2(0, 1_000) };
    let group = FlowGroupInput { units: vec![unit], destination: v3(0, 0, 2_000_000) };
    let geom = GridGeom { origin: v2(0, 0), bucket_size_x: 10_000, bucket_size_z: 10_000 };
    let out = calculate_fvo_steering(&snapshot, &vec![group], geom, 100);
    let nv = out[0][0].1;
    let dx = (nv.x - current.x) as i128;
    let dz = (nv.z - current.z) as i128;
    let astep = 100_000i128 * 100 / 1000;
    assert!(dx * dx + dz * dz <= astep * astep);
}

#[test]
fn timestep_is_floored_at_one_millisecond() {
    // a non-positive timestep is floored to one millisecond, not rejected
    let snapshot = vec![snap(1, v3(0, 0, 0), v3(0, 0, 0), 2_500)];
    let geom = GridGeom { origin: v2(0, 0), bucket_size_x: 10_000, bucket_size_z: 10_000 };
    let unit = ManagedUnit { id: 1, settings: stock_settings(), flow_dir: v2(1_000, 0) };
    let group_a = FlowGroupInput { units: vec![unit], destination: v3(2_000_000, 0, 0) };
    let group_b = FlowGroupInput { units: vec![unit], destination: v3(2_000_000, 0, 0) };
    let floored = calculate_fvo_steering(&snapshot, &vec![group_a], geom, 0);
    let one_ms = calculate_fvo_steering(&snapshot, &vec![group_b], geom, 1);
    assert_eq!(floored[0], one_ms[0]);
    // accel budget over one millisecond: 100 * 0.001 = 0.1 units/s
    assert_eq!(floored[0][0], (1, v3(100, 0, 0)));
}

#[test]
fn same_snapshot_solves_identically() {
    // processing the same snapshot twice yields identical results
    let first = lone_agent_tick();
    let second = lone_agent_tick();
    assert_eq!(first.len(), second.len());
    assert_eq!(first[0], second[0]);
}

#[test]
fn missing_agent_is_skipped() {
    // a unit whose identifier the snapshot lacks is skipped for the tick
    let snapshot = vec![snap(1, v3(0, 0, 0), v3(0, 0, 0), 2_500)];
    let present = ManagedUnit { id: 1, settings: stock_settings(), flow_dir: v2(1_000, 0) };
    let gone = ManagedUnit { id: 9, settings: stock_settings(), flow_dir: v2(1_000, 0) };
    let group = FlowGroupInput { units: vec![gone, present], destination: v3(2_000_000, 0, 0) };
    let geom = GridGeom { origin: v2(0, 0), bucket_size_x: 10_000, bucket_size_z: 10_000 };
    let out = calculate_fvo_steering(&snapshot, &vec![group], geom, 100);
    assert_eq!(out[0].len(), 1);
    assert_eq!(out[0][0].0, 1);
}

#[test]
fn overlapping_pair_separates_end_to_end() {
    // two overlapping agents each receive an x-axis push away from the other
    let a = snap(1, v3(0, 0, 0), v3(0, 0, 0), 2_500);
    let b = snap(2, v3(3_000, 0, 0), v3(0, 0, 0), 2_500);
    let snapshot = vec![a, b];
    let units = vec![
        ManagedUnit { id: 1, settings: stock_settings(), flow_dir: v2(0, 0) },
        ManagedUnit { id: 2, settings: stock_settings(), flow_dir: v2(0, 0) },
    ];
    let group = FlowGroupInput { units, destination: v3(0, 0, 2_000_000) };
    let geom = GridGeom { origin: v2(0, 0), bucket_size_x: 10_000, bucket_size_z: 10_000 };
    let out = calculate_fvo_steering(&snapshot, &vec![group], geom, 100);
    let va = out[0][0].1;
    let vb = out[0][1].1;
    assert!(va.x < 0, "left agent must be pushed toward negative x, got {:?}", va);
    assert!(vb.x > 0, "right agent must be pushed toward positive x, got {:?}", vb);
}
