//! The per-tick steering pass: snapshot in, bucket grid built, and for every
//! managed agent of every flow group a neighbor query, preferred-velocity
//! estimate, constraint solve, separation correction and acceleration-limited
//! integration. All reads use the frame-start snapshot, so the result for one
//! agent never depends on whether another was solved before it in the same
//! tick; the whole pass is a function of the snapshot, pinned by the
//! `group_out` spec below.

use vstd::prelude::*;
use crate::math::{div_tz, sqrt_up};
use crate::vec2::{clamp_comp, norm_comp, sat_mag, Vec2Fix, Vec3Fix, MAX_COORD};
use crate::grid::{
    admitted_prefix, build_buckets, buckets_of, query_neighbors, AgentSnap, BucketGrid, GridGeom,
};
use crate::orca::{
    accel_step, build_orca_constraints, clamp_pair, constraint_of, integrate_velocity, pref_scale,
    preferred_velocity, sep_sum, separation_impulse, solve_orca, solve_seq, FvoSettings,
    OrcaConstraint,
};

verus! {

/// One managed agent of a flow group: its identifier, its tunable settings,
/// and the flow direction the external path-following layer sampled at its
/// position.
#[derive(Clone, Copy, Debug, PartialEq, Eq, Structural)]
pub struct ManagedUnit {
    pub id: u64,
    pub settings: FvoSettings,
    pub flow_dir: Vec2Fix,
}

impl ManagedUnit {
    /// Settings and sampled direction are in the solver's input range.
    pub open spec fn valid(self) -> bool {
        &&& self.settings.valid()
        &&& self.flow_dir.bounded(MAX_COORD as int)
    }
}

/// One flow group for a tick: the agents it manages and the destination they
/// share.
pub struct FlowGroupInput {
    pub units: Vec<ManagedUnit>,
    pub destination: Vec3Fix,
}

impl FlowGroupInput {
    /// Every unit and the destination are in the solver's input range.
    pub open spec fn valid(self) -> bool {
        &&& forall|j: int| 0 <= j < self.units.len() ==> (#[trigger] self.units[j]).valid()
        &&& self.destination.bounded3(MAX_COORD as int)
    }
}

/// Some snapshot entry carries this identifier.
pub open spec fn has_id(snapshot: Seq<AgentSnap>, id: u64) -> bool {
    exists|i: int| 0 <= i < snapshot.len() && (#[trigger] snapshot[i]).id == id
}

/// `i` is the first snapshot index carrying this identifier.
pub open spec fn is_first_with_id(snapshot: Seq<AgentSnap>, id: u64, i: int) -> bool {
    &&& 0 <= i < snapshot.len()
    &&& snapshot[i].id == id
    &&& forall|k: int| 0 <= k < i ==> (#[trigger] snapshot[k]).id != id
}

/// The first snapshot index carrying an identifier (meaningful only when
/// `has_id` holds).
pub open spec fn first_with_id(snapshot: Seq<AgentSnap>, id: u64) -> int {
    choose|i: int| is_first_with_id(snapshot, id, i)
}

/// A first-match witness pins `first_with_id`.
pub proof fn lemma_first_with_id(snapshot: Seq<AgentSnap>, id: u64, i: int)
    requires
        is_first_with_id(snapshot, id, i),
    ensures
        first_with_id(snapshot, id) == i,
        has_id(snapshot, id),
{
    assert(is_first_with_id(snapshot, id, i));
    let j = first_with_id(snapshot, id);
    assert(is_first_with_id(snapshot, id, j));
    if j < i {
        assert(snapshot[j].id != id);
    }
    if i < j {
        assert(snapshot[i].id != id);
    }
}

/// Find the snapshot of an agent by identifier: the first matching entry, or
/// nothing when the identifier is absent.
fn find_snap(snapshot: &Vec<AgentSnap>, id: u64) -> (r: Option<usize>)
    ensures
        match r {
            Some(i) => is_first_with_id(snapshot@, id, i as int),
            None => !has_id(snapshot@, id),
        },
{
    let mut i: usize = 0;
    while i < snapshot.len()
        invariant
            i <= snapshot.len(),
            forall|k: int| 0 <= k < i ==> (#[trigger] snapshot[k]).id != id,
        decreases snapshot.len() - i,
    {
        if snapshot[i].id == id {
            return Some(i);
        }
        i = i + 1;
    }
    None
}

/// The preferred velocity, per axis: the normalized flow direction times the
/// arrival-scaled preferred speed.
pub open spec fn pref_pair(flow_dir: Vec2Fix, gd: int, s: FvoSettings) -> (int, int) {
    (
        div_tz(norm_comp(flow_dir.x as int, flow_dir.len_sq()) * pref_scale(gd, s), 1000),
        div_tz(norm_comp(flow_dir.z as int, flow_dir.len_sq()) * pref_scale(gd, s), 1000),
    )
}

/// The constraint list the builder produces: one constraint per neighbor,
/// each computed from that neighbor alone.
pub open spec fn constraints_of(
    pos: Vec3Fix,
    vel: Vec3Fix,
    s: FvoSettings,
    ns: Seq<AgentSnap>,
    dt: int,
) -> Seq<OrcaConstraint> {
    Seq::new(ns.len(), |i: int| constraint_of(pos, vel, s, ns[i], dt))
}

/// The desired velocity: solved velocity plus separation, clamped to the
/// speed limit.
pub open spec fn desired_pair(solved: (int, int), sep: (int, int), ms: int) -> (int, int) {
    clamp_pair(sat_mag(solved.0 + sep.0), sat_mag(solved.1 + sep.1), ms)
}

/// Acceleration-limited integration: the velocity change is clamped to the
/// acceleration budget for the timestep, and the new velocity to the speed
/// limit.
pub open spec fn integrate_pair(cur: (int, int), des: (int, int), ms: int, ma: int, dt: int) -> (
    int,
    int,
) {
    let astep = accel_step(ma, dt);
    let dx = des.0 - cur.0;
    let dz = des.1 - cur.1;
    let dlsq = dx * dx + dz * dz;
    clamp_pair(cur.0 + clamp_comp(dx, dlsq, astep), cur.1 + clamp_comp(dz, dlsq, astep), ms)
}

/// The new planar velocity of one agent for this tick, in full: preferred
/// velocity from the flow sample and goal distance, clipped against the
/// velocity-obstacle constraints of its neighbors, corrected by the
/// separation impulse, and integrated under the acceleration limit.
pub open spec fn agent_steer(
    pos: Vec3Fix,
    vel: Vec3Fix,
    s: FvoSettings,
    flow_dir: Vec2Fix,
    dest: Vec3Fix,
    ns: Seq<AgentSnap>,
    dt: int,
) -> (int, int) {
    let gd = sqrt_up(pos.dist_sq3(dest));
    let pref = pref_pair(flow_dir, gd, s);
    let solved = solve_seq(
        clamp_pair(pref.0, pref.1, s.max_speed as int),
        constraints_of(pos, vel, s, ns, dt),
        s.max_speed as int,
    );
    let sep = sep_sum(pos.planar_spec(), s.radius as int, ns, dt);
    integrate_pair(
        (vel.x as int, vel.z as int),
        desired_pair(solved, sep, s.max_speed as int),
        s.max_speed as int,
        s.max_accel as int,
        dt,
    )
}

/// Solve one agent against its neighbors for this tick. The result is planar,
/// never exceeds the agent's speed limit, and equals `agent_steer` exactly.
pub fn solve_agent(
    pos: Vec3Fix,
    vel: Vec3Fix,
    settings: &FvoSettings,
    flow_dir: Vec2Fix,
    destination: Vec3Fix,
    neighbors: &Vec<AgentSnap>,
    dt_ms: i64,
) -> (nv: Vec3Fix)
    requires
        pos.bounded3(MAX_COORD as int),
        vel.bounded3(MAX_COORD as int),
        settings.valid(),
        flow_dir.bounded(MAX_COORD as int),
        destination.bounded3(MAX_COORD as int),
        1 <= dt_ms <= MAX_COORD,
        forall|i: int| 0 <= i < neighbors.len() ==> (#[trigger] neighbors[i]).valid(),
    ensures
        nv.planar_spec().len_sq() <= settings.max_speed * settings.max_speed,
        nv.y == 0,
        (nv.x as int, nv.z as int) == agent_steer(
            pos,
            vel,
            *settings,
            flow_dir,
            destination,
            neighbors@,
            dt_ms as int,
        ),
{
    let goal_d_sq = pos.dist_sq3_ex(destination);
    let gd = crate::math::sqrt_up_u128(goal_d_sq as u128);
    proof {
        assert(goal_d_sq as int <= 0x400_0000 * 0x400_0000) by (nonlinear_arith)
            requires
                -0x200_0000 <= pos.x - destination.x <= 0x200_0000,
                -0x200_0000 <= pos.y - destination.y <= 0x200_0000,
                -0x200_0000 <= pos.z - destination.z <= 0x200_0000,
                goal_d_sq as int == (pos.x - destination.x) * (pos.x - destination.x) + (pos.y
                    - destination.y) * (pos.y - destination.y) + (pos.z - destination.z) * (pos.z
                    - destination.z),
        ;
        crate::math::lemma_sqrt_up_le(goal_d_sq as int, gd as int, 0x400_0000);
    }
    let goal_dist: i64 = gd as i64;
    let pref = preferred_velocity(flow_dir, goal_dist, settings);
    let cs = build_orca_constraints(pos, vel, settings, neighbors, dt_ms);
    proof {
        assert(cs@ =~= constraints_of(pos, vel, *settings, neighbors@, dt_ms as int));
    }
    let solved = solve_orca(pref, &cs, settings.max_speed);
    let sep = separation_impulse(pos.planar(), settings.radius, neighbors, dt_ms);
    let desired = solved.plus_sat(sep).clamp_len(settings.max_speed);
    let nv2 = integrate_velocity(vel.planar(), desired, settings.max_speed, settings.max_accel, dt_ms);
    Vec3Fix::from_planar(nv2)
}

/// Every buffered `(identifier, velocity)` pair belongs to one of the
/// group's units, is planar, and respects that unit's speed limit.
pub open spec fn pending_ok(units: Seq<ManagedUnit>, pend: Seq<(u64, Vec3Fix)>) -> bool {
    forall|k: int|
        0 <= k < pend.len() ==> exists|j: int|
            0 <= j < units.len() && (#[trigger] units[j]).id == (#[trigger] pend[k]).0
                && pend[k].1.planar_spec().len_sq() <= units[j].settings.max_speed
                * units[j].settings.max_speed && pend[k].1.y == 0
}

/// The velocity one unit is steered to this tick: its first snapshot entry
/// solved against the neighbors the bucket grid yields for it.
pub open spec fn steer_of(
    snapshot: Seq<AgentSnap>,
    geom: GridGeom,
    u: ManagedUnit,
    dest: Vec3Fix,
    dt: int,
) -> Vec3Fix {
    let snap = snapshot[first_with_id(snapshot, u.id)];
    let ns = admitted_prefix(
        buckets_of(snapshot, geom),
        geom,
        u.id,
        snap.pos,
        u.settings.sensor_range as int,
    );
    let v = agent_steer(snap.pos, snap.vel, u.settings, u.flow_dir, dest, ns, dt);
    Vec3Fix { x: v.0 as i64, y: 0, z: v.1 as i64 }
}

/// One group's buffered output for a tick: exactly one `(identifier,
/// velocity)` pair per unit whose identifier the snapshot holds, in unit
/// order; a unit the snapshot lacks is skipped silently and yields nothing.
pub open spec fn group_out(
    snapshot: Seq<AgentSnap>,
    geom: GridGeom,
    units: Seq<ManagedUnit>,
    dest: Vec3Fix,
    dt: int,
) -> Seq<(u64, Vec3Fix)>
    decreases units.len(),
{
    if units.len() == 0 {
        Seq::empty()
    } else {
        let rest = group_out(snapshot, geom, units.drop_last(), dest, dt);
        let u = units.last();
        if has_id(snapshot, u.id) {
            rest.push((u.id, steer_of(snapshot, geom, u, dest, dt)))
        } else {
            rest
        }
    }
}

/// Solve every managed agent of one flow group against the shared bucket
/// grid, in unit order. The output is exactly `group_out`: one pair per unit
/// present in the snapshot; an identifier the snapshot lacks is skipped
/// silently for this tick.
pub fn solve_group(
    snapshot: &Vec<AgentSnap>,
    grid: &BucketGrid,
    group: &FlowGroupInput,
    dt_ms: i64,
) -> (pending: Vec<(u64, Vec3Fix)>)
    requires
        grid.wf(),
        grid.entries@ == buckets_of(snapshot@, grid.geom),
        1 <= dt_ms <= MAX_COORD,
        forall|i: int| 0 <= i < snapshot.len() ==> (#[trigger] snapshot[i]).valid(),
        group.valid(),
    ensures
        pending_ok(group.units@, pending@),
        pending@ == group_out(
            snapshot@,
            grid.geom,
            group.units@,
            group.destination,
            dt_ms as int,
        ),
{
    let mut pending: Vec<(u64, Vec3Fix)> = Vec::new();
    let mut u: usize = 0;
    while u < group.units.len()
        invariant
            grid.wf(),
            grid.entries@ == buckets_of(snapshot@, grid.geom),
            1 <= dt_ms <= MAX_COORD,
            forall|i: int| 0 <= i < snapshot.len() ==> (#[trigger] snapshot[i]).valid(),
            group.valid(),
            u <= group.units.len(),
            pending_ok(group.units@, pending@),
            pending@ == group_out(
                snapshot@,
                grid.geom,
                group.units@.subrange(0, u as int),
                group.destination,
                dt_ms as int,
            ),
        decreases group.units.len() - u,
    {
        let unit = group.units[u];
        let ghost prev = pending@;
        if let Some(idx) = find_snap(snapshot, unit.id) {
            let snap = snapshot[idx];
            let neighbors = query_neighbors(grid, unit.id, snap.pos, unit.settings.sensor_range);
            let nv = solve_agent(
                snap.pos,
                snap.vel,
                &unit.settings,
                unit.flow_dir,
                group.destination,
                &neighbors,
                dt_ms,
            );
            pending.push((unit.id, nv));
            proof {
                lemma_first_with_id(snapshot@, unit.id, idx as int);
                assert(nv == steer_of(
                    snapshot@,
                    grid.geom,
                    unit,
                    group.destination,
                    dt_ms as int,
                ));
                assert forall|k: int| 0 <= k < pending@.len() implies exists|j: int|
                    0 <= j < group.units@.len() && (#[trigger] group.units@[j]).id == (
                    #[trigger] pending@[k]).0 && pending@[k].1.planar_spec().len_sq()
                        <= group.units@[j].settings.max_speed
                        * group.units@[j].settings.max_speed && pending@[k].1.y == 0 by {
                    if k < prev.len() {
                        assert(pending@[k] == prev[k]);
                    } else {
                        assert(pending@[k].0 == group.units@[u as int].id);
                    }
                }
            }
        } else {
            proof {
                assert(!has_id(snapshot@, unit.id));
            }
        }
        proof {
            assert(group.units@.subrange(0, u as int + 1).drop_last() =~= group.units@.subrange(
                0,
                u as int,
            ));
            assert(group.units@.subrange(0, u as int + 1).last() == group.units@[u as int]);
        }
        u = u + 1;
    }
    proof {
        assert(group.units@.subrange(0, group.units@.len() as int) =~= group.units@);
    }
    pending
}

/// The acceleration clamp holds every tick: whenever the final speed clamp is
/// not engaged, the per-tick velocity change of a solved agent respects the
/// acceleration budget of `max_accel` over the timestep. (When the speed
/// clamp does engage, the integer re-scaling is not proved non-expansive, so
/// that case is not covered.)
pub proof fn lemma_tick_accel_clamp(
    pos: Vec3Fix,
    vel: Vec3Fix,
    s: FvoSettings,
    flow_dir: Vec2Fix,
    dest: Vec3Fix,
    ns: Seq<AgentSnap>,
    dt: int,
)
    requires
        s.valid(),
        dt >= 1,
        ({
            let gd = sqrt_up(pos.dist_sq3(dest));
            let pref = pref_pair(flow_dir, gd, s);
            let solved = solve_seq(
                clamp_pair(pref.0, pref.1, s.max_speed as int),
                constraints_of(pos, vel, s, ns, dt),
                s.max_speed as int,
            );
            let sep = sep_sum(pos.planar_spec(), s.radius as int, ns, dt);
            let des = desired_pair(solved, sep, s.max_speed as int);
            let astep = accel_step(s.max_accel as int, dt);
            let dx = des.0 - vel.x;
            let dz = des.1 - vel.z;
            let dlsq = dx * dx + dz * dz;
            let tx = vel.x + clamp_comp(dx, dlsq, astep);
            let tz = vel.z + clamp_comp(dz, dlsq, astep);
            tx * tx + tz * tz <= s.max_speed * s.max_speed
        }),
    ensures
        ({
            let r = agent_steer(pos, vel, s, flow_dir, dest, ns, dt);
            let astep = accel_step(s.max_accel as int, dt);
            (r.0 - vel.x) * (r.0 - vel.x) + (r.1 - vel.z) * (r.1 - vel.z) <= astep * astep
        }),
{
    let astep = accel_step(s.max_accel as int, dt);
    assert(s.max_accel as int * dt >= 0) by (nonlinear_arith)
        requires
            s.max_accel as int >= 0,
            dt >= 1,
    ;
    crate::math::lemma_div_tz(s.max_accel as int * dt, 1000);
    assert(astep >= 0);
    let gd = sqrt_up(pos.dist_sq3(dest));
    let pref = pref_pair(flow_dir, gd, s);
    let solved = solve_seq(
        clamp_pair(pref.0, pref.1, s.max_speed as int),
        constraints_of(pos, vel, s, ns, dt),
        s.max_speed as int,
    );
    let sep = sep_sum(pos.planar_spec(), s.radius as int, ns, dt);
    let des = desired_pair(solved, sep, s.max_speed as int);
    let dx = des.0 - vel.x;
    let dz = des.1 - vel.z;
    crate::orca::lemma_clamp_pair_len(dx, dz, astep);
}

/// The timestep floor: divisions by the timestep are guarded by flooring it
/// at one millisecond rather than rejecting small or non-positive values.
pub open spec fn dt_floored(dt: int) -> int {
    if dt < 1 {
        1
    } else {
        dt
    }
}

/// One tick of the steering pass over every flow group: build the bucket
/// grid from the frame-start snapshot, then solve each managed agent of each
/// group against its neighbors. The timestep is floored at one millisecond.
/// The result holds, per group and in unit order, the buffered `(identifier,
/// new velocity)` pairs to flush into that group's steering map once the
/// group is done — exactly `group_out` of the snapshot, so one pair per unit
/// the snapshot holds, each velocity within the owning unit's speed limit.
pub fn calculate_fvo_steering(
    snapshot: &Vec<AgentSnap>,
    groups: &Vec<FlowGroupInput>,
    geom: GridGeom,
    dt_ms: i64,
) -> (out: Vec<Vec<(u64, Vec3Fix)>>)
    requires
        geom.valid(),
        dt_ms <= MAX_COORD,
        forall|i: int| 0 <= i < snapshot.len() ==> (#[trigger] snapshot[i]).valid(),
        forall|g: int| 0 <= g < groups.len() ==> (#[trigger] groups[g]).valid(),
    ensures
        out.len() == groups.len(),
        forall|g: int|
            0 <= g < out.len() ==> pending_ok(groups[g].units@, (#[trigger] out[g])@),
        forall|g: int|
            0 <= g < out.len() ==> (#[trigger] out[g])@ == group_out(
                snapshot@,
                geom,
                groups[g].units@,
                groups[g].destination,
                dt_floored(dt_ms as int),
            ),
{
    let dt: i64 = if dt_ms < 1 {
        1
    } else {
        dt_ms
    };
    let grid = build_buckets(snapshot, geom);
    let mut out: Vec<Vec<(u64, Vec3Fix)>> = Vec::new();
    let mut g: usize = 0;
    while g < groups.len()
        invariant
            geom.valid(),
            1 <= dt <= MAX_COORD,
            dt as int == dt_floored(dt_ms as int),
            forall|i: int| 0 <= i < snapshot.len() ==> (#[trigger] snapshot[i]).valid(),
            forall|q: int| 0 <= q < groups.len() ==> (#[trigger] groups[q]).valid(),
            grid.wf(),
            grid.geom == geom,
            grid.entries@ == buckets_of(snapshot@, geom),
            g <= groups.len(),
            out.len() == g,
            forall|q: int|
                0 <= q < out.len() ==> pending_ok(groups[q].units@, (#[trigger] out[q])@),
            forall|q: int|
                0 <= q < out.len() ==> (#[trigger] out[q])@ == group_out(
                    snapshot@,
                    geom,
                    groups[q].units@,
                    groups[q].destination,
                    dt as int,
                ),
        decreases groups.len() - g,
    {
        let pending = solve_group(snapshot, &grid, &groups[g], dt);
        out.push(pending);
        g = g + 1;
    }
    out
}

} // verus!
