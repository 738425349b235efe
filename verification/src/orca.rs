//! The velocity-obstacle solver: per-agent tunable settings, the
//! goal-seeking preferred velocity, half-plane constraint construction, the
//! greedy sequential clipping solver, the penetration-resolving separation
//! impulse, and acceleration-limited integration.

use vstd::prelude::*;
use crate::math::{abs_i, div_tz, div_i128, lemma_div_tz, sqrt_up};
use crate::vec2::{
    clamp_comp, lemma_norm_dot_comp, norm_comp, sat_mag, Vec2Fix, Vec3Fix, MAX_COORD, MAX_MAG,
    SCALE,
};
use crate::grid::AgentSnap;

verus! {

/// Bound on the anchor point of a constraint; every shift the builder forms
/// stays well inside it.
pub const CONSTR_MAG: i64 = 0x100_0000_0000;

/// Tunable parameters of one agent. Speeds and distances are in milli-units,
/// the collision-prediction horizon in milliseconds.
#[derive(Clone, Copy, Debug, PartialEq, Eq, Structural)]
pub struct FvoSettings {
    /// Desired cruise speed along the flow direction.
    pub preferred_speed: i64,
    /// Magnitude clamp on every produced velocity.
    pub max_speed: i64,
    /// Magnitude clamp on the velocity change per second.
    pub max_accel: i64,
    /// Lookahead window for predicting collisions, in milliseconds.
    pub horizon_ms: i64,
    /// Physical radius of the agent.
    pub radius: i64,
    /// Neighbor search distance.
    pub sensor_range: i64,
}

impl FvoSettings {
    /// All fields in the solver's input range; the horizon and radius must be
    /// positive.
    pub open spec fn valid(self) -> bool {
        &&& 0 <= self.preferred_speed <= MAX_COORD
        &&& 0 <= self.max_speed <= MAX_COORD
        &&& 0 <= self.max_accel <= MAX_COORD
        &&& 1 <= self.horizon_ms <= MAX_COORD
        &&& 1 <= self.radius <= MAX_COORD
        &&& 0 <= self.sensor_range <= MAX_COORD
    }

    pub fn new(
        preferred_speed: i64,
        max_speed: i64,
        max_accel: i64,
        horizon_ms: i64,
        radius: i64,
        sensor_range: i64,
    ) -> (s: Self)
        requires
            0 <= preferred_speed <= MAX_COORD,
            0 <= max_speed <= MAX_COORD,
            0 <= max_accel <= MAX_COORD,
            1 <= horizon_ms <= MAX_COORD,
            1 <= radius <= MAX_COORD,
            0 <= sensor_range <= MAX_COORD,
        ensures
            s == (FvoSettings {
                preferred_speed,
                max_speed,
                max_accel,
                horizon_ms,
                radius,
                sensor_range,
            }),
            s.valid(),
    {
        FvoSettings { preferred_speed, max_speed, max_accel, horizon_ms, radius, sensor_range }
    }
}

impl Default for FvoSettings {
    /// The stock tuning: cruise 50, limit 60, accel 100 per second, a three
    /// second horizon, radius 2.5 and sensing range 8 world units.
    fn default() -> (s: Self)
        ensures
            s == (FvoSettings {
                preferred_speed: 50_000,
                max_speed: 60_000,
                max_accel: 100_000,
                horizon_ms: 3_000,
                radius: 2_500,
                sensor_range: 8_000,
            }),
            s.valid(),
    {
        FvoSettings {
            preferred_speed: 50_000,
            max_speed: 60_000,
            max_accel: 100_000,
            horizon_ms: 3_000,
            radius: 2_500,
            sensor_range: 8_000,
        }
    }
}

/// A simulated agent: its last solved steering output, its current velocity,
/// and its tunable settings.
#[derive(Clone, Copy, Debug, PartialEq, Eq, Structural)]
pub struct FvoAgent {
    /// Last chosen steering vector, informational.
    pub steering: Vec3Fix,
    /// Current velocity used by the solver.
    pub velocity: Vec3Fix,
    /// Tunable parameters.
    pub settings: FvoSettings,
}

impl FvoAgent {
    /// A still agent with the given settings.
    pub fn new(settings: FvoSettings) -> (a: Self)
        ensures
            a.steering == (Vec3Fix { x: 0, y: 0, z: 0 }),
            a.velocity == (Vec3Fix { x: 0, y: 0, z: 0 }),
            a.settings == settings,
    {
        FvoAgent {
            steering: Vec3Fix { x: 0, y: 0, z: 0 },
            velocity: Vec3Fix { x: 0, y: 0, z: 0 },
            settings,
        }
    }
}

impl Default for FvoAgent {
    /// A still agent with the stock settings.
    fn default() -> (a: Self)
        ensures
            a.steering == (Vec3Fix { x: 0, y: 0, z: 0 }),
            a.velocity == (Vec3Fix { x: 0, y: 0, z: 0 }),
            a.settings == (FvoSettings {
                preferred_speed: 50_000,
                max_speed: 60_000,
                max_accel: 100_000,
                horizon_ms: 3_000,
                radius: 2_500,
                sensor_range: 8_000,
            }),
            a.settings.valid(),
    {
        FvoAgent {
            steering: Vec3Fix { x: 0, y: 0, z: 0 },
            velocity: Vec3Fix { x: 0, y: 0, z: 0 },
            settings: FvoSettings::default(),
        }
    }
}

/// A half-plane constraint on admissible velocities: `v` is admissible when
/// `(v - point) . normal <= 0`. The normal is a direction of length `SCALE`.
#[derive(Clone, Copy, Debug, PartialEq, Eq, Structural)]
pub struct OrcaConstraint {
    pub point: Vec2Fix,
    pub normal: Vec2Fix,
}

impl OrcaConstraint {
    /// The anchor is bounded and the normal is a scaled direction.
    pub open spec fn wf(self) -> bool {
        &&& self.point.bounded(CONSTR_MAG as int)
        &&& self.normal.bounded(SCALE as int)
        &&& self.normal.len_sq() <= SCALE * SCALE
    }
}

/// The arrival speed scale: full preferred speed far from the goal, scaled
/// linearly below the slow radius (twice the sensing range, floored at a
/// tenth of a world unit), zero exactly at the goal.
pub open spec fn pref_scale(d: int, s: FvoSettings) -> int {
    let slow = if 2 * s.sensor_range >= 100 {
        2 * s.sensor_range as int
    } else {
        100
    };
    if d < slow {
        div_tz(s.preferred_speed * d, slow)
    } else {
        s.preferred_speed as int
    }
}

/// The goal-seeking preferred velocity: the sampled flow direction,
/// normalized, times the arrival-scaled preferred speed. An agent exactly at
/// its destination, or one with no defined flow direction, prefers to stand
/// still.
pub fn preferred_velocity(flow_dir: Vec2Fix, goal_dist: i64, settings: &FvoSettings) -> (r:
    Vec2Fix)
    requires
        flow_dir.bounded(MAX_COORD as int),
        0 <= goal_dist <= 8 * MAX_COORD,
        settings.valid(),
    ensures
        r.x == div_tz(
            norm_comp(flow_dir.x as int, flow_dir.len_sq()) * pref_scale(goal_dist as int, *settings),
            SCALE as int,
        ),
        r.z == div_tz(
            norm_comp(flow_dir.z as int, flow_dir.len_sq()) * pref_scale(goal_dist as int, *settings),
            SCALE as int,
        ),
        r.bounded(settings.preferred_speed as int),
        r.len_sq() <= settings.preferred_speed * settings.preferred_speed,
        goal_dist == 0 ==> r == (Vec2Fix { x: 0, z: 0 }),
        flow_dir.len_sq() == 0 ==> r == (Vec2Fix { x: 0, z: 0 }),
{
    let slow: i64 = if settings.sensor_range >= 50 {
        2 * settings.sensor_range
    } else {
        100
    };
    let speed: i64 = if goal_dist < slow {
        proof {
            crate::vec2::lemma_abs_prod_bound2(
                settings.preferred_speed as int,
                goal_dist as int,
                MAX_COORD as int,
                8 * MAX_COORD as int,
            );
        }
        let q = div_i128((settings.preferred_speed as i128) * (goal_dist as i128), slow as i128);
        proof {
            let psi = settings.preferred_speed as int;
            let di = goal_dist as int;
            let sli = slow as int;
            lemma_div_tz(psi * di, sli);
            assert(psi * di >= 0) by (nonlinear_arith)
                requires
                    psi >= 0,
                    di >= 0,
            ;
            assert(q as int <= psi) by (nonlinear_arith)
                requires
                    q as int * sli <= psi * di,
                    di < sli,
                    psi >= 0,
                    di >= 0,
                    sli >= 1,
                    q as int >= 0,
            ;
        }
        q as i64
    } else {
        settings.preferred_speed
    };
    let dir = flow_dir.normalize_scaled();
    proof {
        crate::vec2::lemma_abs_prod_bound2(
            abs_i(dir.x as int),
            abs_i(speed as int),
            SCALE as int,
            MAX_COORD as int,
        );
        crate::vec2::lemma_abs_prod_bound2(
            abs_i(dir.z as int),
            abs_i(speed as int),
            SCALE as int,
            MAX_COORD as int,
        );
    }
    let r = dir.mul_div(speed, SCALE);
    proof {
        crate::math::lemma_div_tz_sq(dir.x as int * speed as int, SCALE as int);
        crate::math::lemma_div_tz_sq(dir.z as int * speed as int, SCALE as int);
        crate::math::lemma_scaled_sum_sq(
            r.x as int,
            r.z as int,
            dir.x as int,
            dir.z as int,
            SCALE as int,
            speed as int,
        );
        crate::math::lemma_sq_le(speed as int, settings.preferred_speed as int);
        crate::vec2::lemma_abs_prod_bound2(
            abs_i(dir.x as int),
            abs_i(speed as int),
            SCALE as int,
            speed as int,
        );
        crate::vec2::lemma_abs_prod_bound2(
            abs_i(dir.z as int),
            abs_i(speed as int),
            SCALE as int,
            speed as int,
        );
        if goal_dist == 0 {
            assert(settings.preferred_speed as int * (goal_dist as int) == 0) by (nonlinear_arith)
                requires
                    goal_dist as int == 0,
            ;
            lemma_div_tz(0, slow as int);
            assert(dir.x as int * speed as int == 0 && dir.z as int * speed as int == 0)
                by (nonlinear_arith)
                requires
                    speed as int == 0,
            ;
            lemma_div_tz(0, SCALE as int);
        }
        if flow_dir.len_sq() == 0 {
            assert(dir.x as int * speed as int == 0 && dir.z as int * speed as int == 0)
                by (nonlinear_arith)
                requires
                    dir.x as int == 0,
                    dir.z as int == 0,
            ;
            lemma_div_tz(0, SCALE as int);
        }
    }
    r
}

/// Both components of a vector clamped to magnitude `m`.
pub open spec fn clamp_pair(x: int, z: int, m: int) -> (int, int) {
    let lsq = x * x + z * z;
    (clamp_comp(x, lsq, m), clamp_comp(z, lsq, m))
}

/// A clamped pair respects the magnitude limit: the spec-level counterpart
/// of the executable clamp's guarantee.
pub proof fn lemma_clamp_pair_len(x: int, z: int, m: int)
    requires
        0 <= m,
    ensures
        ({
            let r = clamp_pair(x, z, m);
            r.0 * r.0 + r.1 * r.1 <= m * m
        }),
{
    let lsq = x * x + z * z;
    assert(x * x >= 0 && z * z >= 0) by (nonlinear_arith);
    if lsq <= m * m {
    } else {
        crate::math::lemma_sqrt_up_exists(lsq);
        let el = sqrt_up(lsq);
        let a = div_tz(x * m, el);
        let b = div_tz(z * m, el);
        crate::math::lemma_div_tz_sq(x * m, el);
        crate::math::lemma_div_tz_sq(z * m, el);
        crate::math::lemma_scaled_sum_sq(a, b, x, z, el, m);
    }
}

/// One clipping step of the solver: a violated constraint projects the
/// candidate onto its boundary line and re-clamps the magnitude; a satisfied
/// one leaves it alone.
pub open spec fn solve_step(v: (int, int), c: OrcaConstraint, ms: int) -> (int, int) {
    let d = (v.0 - c.point.x) * c.normal.x + (v.1 - c.point.z) * c.normal.z;
    if d <= 0 {
        v
    } else {
        let ax = div_tz(c.normal.x * d, SCALE * SCALE);
        let az = div_tz(c.normal.z * d, SCALE * SCALE);
        clamp_pair(v.0 - ax, v.1 - az, ms)
    }
}

/// The solver's result: the clipping steps folded over the constraints in
/// construction order.
pub open spec fn solve_seq(v: (int, int), cs: Seq<OrcaConstraint>, ms: int) -> (int, int)
    decreases cs.len(),
{
    if cs.len() == 0 {
        v
    } else {
        solve_step(solve_seq(v, cs.drop_last(), ms), cs.last(), ms)
    }
}

/// Greedy sequential clipping: clamp the preferred velocity to the speed
/// limit, then project it onto the boundary of each violated half-plane in
/// construction order, re-clamping after each projection. The result is
/// exactly that fold — in particular, with no constraints it is the clamped
/// preferred velocity — and it always respects the speed limit.
pub fn solve_orca(preferred: Vec2Fix, constraints: &Vec<OrcaConstraint>, max_speed: i64) -> (r:
    Vec2Fix)
    requires
        preferred.bounded(MAX_MAG as int),
        0 <= max_speed <= MAX_COORD,
        forall|i: int| 0 <= i < constraints.len() ==> (#[trigger] constraints[i]).wf(),
    ensures
        r.len_sq() <= max_speed * max_speed,
        r.bounded(max_speed as int),
        (r.x as int, r.z as int) == solve_seq(
            clamp_pair(preferred.x as int, preferred.z as int, max_speed as int),
            constraints@,
            max_speed as int,
        ),
        constraints.len() == 0 ==> {
            &&& r.x == clamp_comp(preferred.x as int, preferred.len_sq(), max_speed as int)
            &&& r.z == clamp_comp(preferred.z as int, preferred.len_sq(), max_speed as int)
        },
{
    let mut result = preferred.clamp_len(max_speed);
    let ghost v0 = clamp_pair(preferred.x as int, preferred.z as int, max_speed as int);
    proof {
        assert((result.x as int, result.z as int) == v0);
    }
    let mut i: usize = 0;
    while i < constraints.len()
        invariant
            0 <= max_speed <= MAX_COORD,
            forall|k: int| 0 <= k < constraints.len() ==> (#[trigger] constraints[k]).wf(),
            i <= constraints.len(),
            result.len_sq() <= max_speed * max_speed,
            result.bounded(max_speed as int),
            v0 == clamp_pair(preferred.x as int, preferred.z as int, max_speed as int),
            (result.x as int, result.z as int) == solve_seq(
                v0,
                constraints@.subrange(0, i as int),
                max_speed as int,
            ),
        decreases constraints.len() - i,
    {
        let c = constraints[i];
        let diff = result.minus(c.point);
        proof {
            crate::vec2::lemma_abs_prod_bound2(
                diff.x as int,
                c.normal.x as int,
                MAX_COORD as int + CONSTR_MAG as int,
                SCALE as int,
            );
            crate::vec2::lemma_abs_prod_bound2(
                diff.z as int,
                c.normal.z as int,
                MAX_COORD as int + CONSTR_MAG as int,
                SCALE as int,
            );
        }
        let d = diff.dot_ex(c.normal);
        if d > 0 {
            let di: i64 = d as i64;
            proof {
                crate::vec2::lemma_abs_prod_bound2(
                    abs_i(c.normal.x as int),
                    abs_i(di as int),
                    SCALE as int,
                    0x20_0000_0000_0000,
                );
                crate::vec2::lemma_abs_prod_bound2(
                    abs_i(c.normal.z as int),
                    abs_i(di as int),
                    SCALE as int,
                    0x20_0000_0000_0000,
                );
            }
            let adj = c.normal.mul_div(di, SCALE * SCALE);
            result = result.minus(adj).clamp_len(max_speed);
        }
        proof {
            assert(constraints@.subrange(0, i as int + 1).drop_last() =~= constraints@.subrange(
                0,
                i as int,
            ));
            assert(constraints@.subrange(0, i as int + 1).last() == constraints@[i as int]);
        }
        i = i + 1;
    }
    proof {
        assert(constraints@.subrange(0, constraints@.len() as int) =~= constraints@);
    }
    result
}

/// One axis offset from a neighbor back to the querying agent.
pub open spec fn off_x(pos: Vec2Fix, n: AgentSnap) -> int {
    pos.x - n.pos.x
}

/// The other axis offset from a neighbor back to the querying agent.
pub open spec fn off_z(pos: Vec2Fix, n: AgentSnap) -> int {
    pos.z - n.pos.z
}

/// Squared planar distance between the querying agent and a neighbor.
pub open spec fn off_lsq(pos: Vec2Fix, n: AgentSnap) -> int {
    off_x(pos, n) * off_x(pos, n) + off_z(pos, n) * off_z(pos, n)
}

/// A neighbor receives a separation impulse when it stands within five
/// percent over the combined radius and is not co-located (distance of at
/// least one milli-unit).
pub open spec fn sep_gate(pos: Vec2Fix, n: AgentSnap, radius: int) -> bool {
    let lsq = off_lsq(pos, n);
    let cr = radius + n.radius;
    lsq >= 1 && sqrt_up(lsq) * 20 < cr * 21
}

/// The impulse magnitude for one overlapping neighbor: the penetration past
/// five percent over the combined radius, spread over one timestep.
pub open spec fn sep_push(pos: Vec2Fix, n: AgentSnap, radius: int, dt: int) -> int {
    let cr = radius + n.radius;
    let d = sqrt_up(off_lsq(pos, n));
    div_tz((div_tz(cr * 21, 20) - d) * 1000, dt)
}

/// The summed separation impulse over a neighbor list, per axis: each gated
/// neighbor contributes its push along the unit offset away from it, and the
/// sum saturates at the headroom bound (the final magnitude clamp dominates
/// any value that large).
pub open spec fn sep_sum(pos: Vec2Fix, radius: int, ns: Seq<AgentSnap>, dt: int) -> (int, int)
    decreases ns.len(),
{
    if ns.len() == 0 {
        (0, 0)
    } else {
        let prev = sep_sum(pos, radius, ns.drop_last(), dt);
        let n = ns.last();
        if sep_gate(pos, n, radius) {
            let push = sep_push(pos, n, radius, dt);
            let lsq = off_lsq(pos, n);
            (
                sat_mag(prev.0 + div_tz(norm_comp(off_x(pos, n), lsq) * push, SCALE as int)),
                sat_mag(prev.1 + div_tz(norm_comp(off_z(pos, n), lsq) * push, SCALE as int)),
            )
        } else {
            prev
        }
    }
}

/// The explicit penetration-resolving impulse: for every neighbor still
/// within five percent over the combined radius, an outward push scaled by
/// penetration depth over the timestep, summed without capping.
pub fn separation_impulse(pos: Vec2Fix, radius: i64, neighbors: &Vec<AgentSnap>, dt_ms: i64) -> (r:
    Vec2Fix)
    requires
        pos.bounded(MAX_COORD as int),
        1 <= radius <= MAX_COORD,
        1 <= dt_ms <= MAX_COORD,
        forall|i: int| 0 <= i < neighbors.len() ==> (#[trigger] neighbors[i]).valid(),
    ensures
        r.x as int == sep_sum(pos, radius as int, neighbors@, dt_ms as int).0,
        r.z as int == sep_sum(pos, radius as int, neighbors@, dt_ms as int).1,
        r.bounded(MAX_MAG as int),
        neighbors.len() == 0 ==> r == (Vec2Fix { x: 0, z: 0 }),
{
    let mut r = Vec2Fix::zero();
    let mut i: usize = 0;
    while i < neighbors.len()
        invariant
            pos.bounded(MAX_COORD as int),
            1 <= radius <= MAX_COORD,
            1 <= dt_ms <= MAX_COORD,
            forall|k: int| 0 <= k < neighbors.len() ==> (#[trigger] neighbors[k]).valid(),
            i <= neighbors.len(),
            r.bounded(MAX_MAG as int),
            r.x as int == sep_sum(pos, radius as int, neighbors@.subrange(0, i as int), dt_ms as int).0,
            r.z as int == sep_sum(pos, radius as int, neighbors@.subrange(0, i as int), dt_ms as int).1,
        decreases neighbors.len() - i,
    {
        let nb = neighbors[i];
        let off = Vec2Fix { x: pos.x - nb.pos.x, z: pos.z - nb.pos.z };
        let lsq = off.len_sq_ex();
        let d = off.len_up();
        let cr: i64 = radius + nb.radius;
        proof {
            assert(lsq as int <= (4 * MAX_COORD as int) * (4 * MAX_COORD as int))
                by (nonlinear_arith)
                requires
                    -2 * MAX_COORD as int <= off.x as int <= 2 * MAX_COORD as int,
                    -2 * MAX_COORD as int <= off.z as int <= 2 * MAX_COORD as int,
                    lsq as int == off.x as int * off.x as int + off.z as int * off.z as int,
            ;
            crate::math::lemma_sqrt_up_le(lsq as int, d as int, 4 * MAX_COORD as int);
        }
        if lsq >= 1 && d * 20 < cr * 21 {
            let cr105 = div_i128((cr as i128) * 21, 20) as i64;
            proof {
                lemma_div_tz(cr as int * 21, 20);
                assert(cr as int * 21 >= 0 && cr as int * 21 <= 44 * MAX_COORD as int)
                    by (nonlinear_arith)
                    requires
                        0 <= cr as int <= 2 * MAX_COORD as int,
                ;
            }
            let push = div_i128(((cr105 - d) as i128) * 1000, dt_ms as i128) as i64;
            proof {
                lemma_div_tz((cr105 - d) as int * 1000, dt_ms as int);
                crate::vec2::lemma_abs_prod_bound2(
                    (cr105 - d) as int,
                    1000,
                    8 * MAX_COORD as int,
                    1000,
                );
            }
            let n = off.normalize_scaled();
            proof {
                crate::vec2::lemma_abs_prod_bound2(
                    abs_i(n.x as int),
                    abs_i(push as int),
                    SCALE as int,
                    8000 * MAX_COORD as int,
                );
                crate::vec2::lemma_abs_prod_bound2(
                    abs_i(n.z as int),
                    abs_i(push as int),
                    SCALE as int,
                    8000 * MAX_COORD as int,
                );
            }
            let term = n.mul_div(push, SCALE);
            r = r.plus_sat(term);
        }
        proof {
            assert(neighbors@.subrange(0, i as int + 1).drop_last() =~= neighbors@.subrange(
                0,
                i as int,
            ));
            assert(neighbors@.subrange(0, i as int + 1).last() == neighbors@[i as int]);
        }
        i = i + 1;
    }
    proof {
        assert(neighbors@.subrange(0, neighbors@.len() as int) =~= neighbors@);
    }
    r
}

/// One axis of the relative position from the querying agent to a neighbor.
pub open spec fn crel_x(pos: Vec3Fix, n: AgentSnap) -> int {
    n.pos.x - pos.x
}

/// The other axis of the relative position toward a neighbor.
pub open spec fn crel_z(pos: Vec3Fix, n: AgentSnap) -> int {
    n.pos.z - pos.z
}

/// Squared planar distance from the querying agent to a neighbor.
pub open spec fn crel_lsq(pos: Vec3Fix, n: AgentSnap) -> int {
    crel_x(pos, n) * crel_x(pos, n) + crel_z(pos, n) * crel_z(pos, n)
}

/// The two disks already overlap: planar distance within the combined radius.
pub open spec fn overlapping(pos: Vec3Fix, n: AgentSnap, radius: int) -> bool {
    crel_lsq(pos, n) <= (radius + n.radius) * (radius + n.radius)
}

/// The immediate separating push for an overlapping neighbor: penetration
/// depth spread over one timestep rather than over the collision horizon.
pub open spec fn contact_push(pos: Vec3Fix, n: AgentSnap, radius: int, dt: int) -> int {
    div_tz(((radius + n.radius) - sqrt_up(crel_lsq(pos, n))) * 1000, dt)
}

/// One axis of the relative velocity of the querying agent over a neighbor.
pub open spec fn rel_vx(vel: Vec3Fix, n: AgentSnap) -> int {
    vel.x - n.vel.x
}

/// The other axis of the relative velocity over a neighbor.
pub open spec fn rel_vz(vel: Vec3Fix, n: AgentSnap) -> int {
    vel.z - n.vel.z
}

/// One axis of `w`, the relative velocity minus the relative position over
/// the horizon: the vector from the cone's cutoff center to the relative
/// velocity.
pub open spec fn w_x(pos: Vec3Fix, vel: Vec3Fix, s: FvoSettings, n: AgentSnap) -> int {
    rel_vx(vel, n) - div_tz(crel_x(pos, n) * 1000, s.horizon_ms as int)
}

/// The other axis of `w`.
pub open spec fn w_z(pos: Vec3Fix, vel: Vec3Fix, s: FvoSettings, n: AgentSnap) -> int {
    rel_vz(vel, n) - div_tz(crel_z(pos, n) * 1000, s.horizon_ms as int)
}

/// Squared length of `w`.
pub open spec fn w_lsq(pos: Vec3Fix, vel: Vec3Fix, s: FvoSettings, n: AgentSnap) -> int {
    w_x(pos, vel, s, n) * w_x(pos, vel, s, n) + w_z(pos, vel, s, n) * w_z(pos, vel, s, n)
}

/// `w . rel_pos`, deciding between the cutoff cap and the cone legs.
pub open spec fn vo_dot(pos: Vec3Fix, vel: Vec3Fix, s: FvoSettings, n: AgentSnap) -> int {
    w_x(pos, vel, s, n) * crel_x(pos, n) + w_z(pos, vel, s, n) * crel_z(pos, n)
}

/// The relative velocity lies inside the circular cutoff cap of the
/// truncated cone: `w` points back toward the neighbor and the closest
/// approach falls on the cap.
pub open spec fn cap_case(pos: Vec3Fix, vel: Vec3Fix, s: FvoSettings, n: AgentSnap) -> bool {
    let cr = s.radius + n.radius;
    vo_dot(pos, vel, s, n) < 0 && vo_dot(pos, vel, s, n) * vo_dot(pos, vel, s, n) > (cr * cr)
        * w_lsq(pos, vel, s, n)
}

/// The constraint the builder produces for one neighbor, in full: the cutoff
/// cap, the nearer cone leg, or the overlap push, exactly as the executable
/// code rounds them. The anchor applies the full shift to the querying agent
/// alone (single-sided avoidance).
pub open spec fn constraint_of(
    pos: Vec3Fix,
    vel: Vec3Fix,
    s: FvoSettings,
    n: AgentSnap,
    dt: int,
) -> OrcaConstraint {
    let cr = s.radius + n.radius;
    let lsq = crel_lsq(pos, n);
    if !overlapping(pos, n, s.radius as int) {
        if cap_case(pos, vel, s, n) {
            let wl = w_lsq(pos, vel, s, n);
            let nx = norm_comp(w_x(pos, vel, s, n), wl);
            let nz = norm_comp(w_z(pos, vel, s, n), wl);
            let coef = div_tz(cr * 1000, s.horizon_ms as int) - sqrt_up(wl);
            OrcaConstraint {
                point: Vec2Fix {
                    x: (vel.x + div_tz(nx * coef, 1000)) as i64,
                    z: (vel.z + div_tz(nz * coef, 1000)) as i64,
                },
                normal: Vec2Fix { x: nx as i64, z: nz as i64 },
            }
        } else {
            let leg = sqrt_up(lsq - cr * cr);
            let ux = norm_comp(crel_x(pos, n), lsq);
            let uz = norm_comp(crel_z(pos, n), lsq);
            let cross = rel_vx(vel, n) * crel_z(pos, n) - rel_vz(vel, n) * crel_x(pos, n);
            let dx = if cross > 0 {
                ux * leg - uz * cr
            } else {
                ux * leg + uz * cr
            };
            let dz = if cross > 0 {
                ux * cr + uz * leg
            } else {
                uz * leg - ux * cr
            };
            let plsq = dz * dz + dx * dx;
            let nx = norm_comp(-dz, plsq);
            let nz = norm_comp(dx, plsq);
            let dotn = rel_vx(vel, n) * nx + rel_vz(vel, n) * nz;
            OrcaConstraint {
                point: Vec2Fix {
                    x: (vel.x + div_tz(nx * dotn, 1000000)) as i64,
                    z: (vel.z + div_tz(nz * dotn, 1000000)) as i64,
                },
                normal: Vec2Fix { x: nx as i64, z: nz as i64 },
            }
        }
    } else {
        let nx = norm_comp(crel_x(pos, n), lsq);
        let nz = norm_comp(crel_z(pos, n), lsq);
        let push = contact_push(pos, n, s.radius as int, dt);
        OrcaConstraint {
            point: Vec2Fix {
                x: (vel.x + div_tz(nx * push, 1000)) as i64,
                z: (vel.z + div_tz(nz * push, 1000)) as i64,
            },
            normal: Vec2Fix { x: nx as i64, z: nz as i64 },
        }
    }
}

/// Build one half-plane constraint per neighbor from the truncated
/// velocity-obstacle cone. A neighbor not yet overlapping projects the
/// relative velocity onto the cutoff cap or onto the nearer cone leg; an
/// overlapping neighbor gets an outward push scaled by penetration depth over
/// the timestep. The anchor applies the full shift to the querying agent
/// alone: avoidance is deliberately single-sided, so an agent still reacts
/// when its partner does not. Each constraint is computed from its neighbor
/// alone and is pinned exactly by `constraint_of`.
#[verifier::rlimit(80)]
pub fn build_orca_constraints(
    pos: Vec3Fix,
    vel: Vec3Fix,
    settings: &FvoSettings,
    neighbors: &Vec<AgentSnap>,
    dt_ms: i64,
) -> (cs: Vec<OrcaConstraint>)
    requires
        pos.bounded3(MAX_COORD as int),
        vel.bounded3(MAX_COORD as int),
        settings.valid(),
        1 <= dt_ms <= MAX_COORD,
        forall|i: int| 0 <= i < neighbors.len() ==> (#[trigger] neighbors[i]).valid(),
    ensures
        cs.len() == neighbors.len(),
        forall|i: int| 0 <= i < cs.len() ==> (#[trigger] cs[i]).wf(),
        forall|i: int|
            0 <= i < cs.len() ==> (#[trigger] cs[i]) == constraint_of(
                pos,
                vel,
                *settings,
                neighbors[i],
                dt_ms as int,
            ),
{
    let self_vel = vel.planar();
    let mut cs: Vec<OrcaConstraint> = Vec::new();
    let mut i: usize = 0;
    while i < neighbors.len()
        invariant
            pos.bounded3(MAX_COORD as int),
            vel.bounded3(MAX_COORD as int),
            settings.valid(),
            1 <= dt_ms <= MAX_COORD,
            forall|k: int| 0 <= k < neighbors.len() ==> (#[trigger] neighbors[k]).valid(),
            self_vel == vel.planar_spec(),
            i <= neighbors.len(),
            cs.len() == i,
            forall|k: int| 0 <= k < i ==> (#[trigger] cs[k]).wf(),
            forall|k: int|
                0 <= k < i ==> (#[trigger] cs[k]) == constraint_of(
                    pos,
                    vel,
                    *settings,
                    neighbors[k],
                    dt_ms as int,
                ),
        decreases neighbors.len() - i,
    {
        let nb = neighbors[i];
        let rel_pos = Vec2Fix { x: nb.pos.x - pos.x, z: nb.pos.z - pos.z };
        let rel_vel = Vec2Fix { x: vel.x - nb.vel.x, z: vel.z - nb.vel.z };
        let cr: i64 = settings.radius + nb.radius;
        proof {
            crate::vec2::lemma_abs_prod_bound(cr as int, cr as int, 0x200_0000);
        }
        let cr_sq: i128 = (cr as i128) * (cr as i128);
        let dist_sq = rel_pos.len_sq_ex();
        let (shift, normal) = if dist_sq > cr_sq {
            // not yet colliding: constrain against the truncated cone
            proof {
                crate::vec2::lemma_abs_prod_bound2(abs_i(rel_pos.x as int), 1000, 0x200_0000, 1000);
                crate::vec2::lemma_abs_prod_bound2(abs_i(rel_pos.z as int), 1000, 0x200_0000, 1000);
            }
            let rp_tau = rel_pos.mul_div(SCALE, settings.horizon_ms);
            let w = rel_vel.minus(rp_tau);
            let w_len_sq = w.len_sq_ex();
            proof {
                crate::math::lemma_sq_le(w.x as int, 0x8_0000_0000);
                crate::math::lemma_sq_le(w.z as int, 0x8_0000_0000);
                crate::vec2::lemma_abs_prod_bound2(
                    w.x as int,
                    rel_pos.x as int,
                    0x8_0000_0000,
                    0x200_0000,
                );
                crate::vec2::lemma_abs_prod_bound2(
                    w.z as int,
                    rel_pos.z as int,
                    0x8_0000_0000,
                    0x200_0000,
                );
            }
            let dotv = w.dot_ex(rel_pos);
            proof {
                crate::vec2::lemma_abs_prod_bound2(
                    dotv as int,
                    dotv as int,
                    0x2000_0000_0000_0000,
                    0x2000_0000_0000_0000,
                );
                crate::vec2::lemma_abs_prod_bound2(
                    cr_sq as int,
                    w_len_sq as int,
                    0x4_0000_0000_0000,
                    0x100_0000_0000_0000_0000,
                );
            }
            if dotv < 0 && dotv * dotv > cr_sq * w_len_sq {
                // the relative velocity lies in the cutoff cap: project onto it
                let w_len = w.len_up();
                proof {
                    crate::math::lemma_sqrt_up_le(
                        w_len_sq as int,
                        w_len as int,
                        8000 * MAX_COORD as int,
                    );
                    crate::vec2::lemma_abs_prod_bound2(
                        cr as int,
                        1000,
                        2 * MAX_COORD as int,
                        1000,
                    );
                }
                let unit_w = w.normalize_scaled();
                let cr_tau = div_i128((cr as i128) * (SCALE as i128), settings.horizon_ms as i128);
                proof {
                    lemma_div_tz(cr as int * SCALE as int, settings.horizon_ms as int);
                }
                let coef: i64 = (cr_tau as i64) - w_len;
                proof {
                    crate::vec2::lemma_abs_prod_bound2(
                        abs_i(unit_w.x as int),
                        abs_i(coef as int),
                        SCALE as int,
                        10000 * MAX_COORD as int,
                    );
                    crate::vec2::lemma_abs_prod_bound2(
                        abs_i(unit_w.z as int),
                        abs_i(coef as int),
                        SCALE as int,
                        10000 * MAX_COORD as int,
                    );
                }
                let u = unit_w.mul_div(coef, SCALE);
                proof {
                    let ni = neighbors@[i as int];
                    let gc = constraint_of(pos, vel, *settings, ni, dt_ms as int);
                    assert(w.x as int == w_x(pos, vel, *settings, ni));
                    assert(w.z as int == w_z(pos, vel, *settings, ni));
                    assert(dotv as int == vo_dot(pos, vel, *settings, ni));
                    assert(!overlapping(pos, ni, settings.radius as int));
                    assert(cap_case(pos, vel, *settings, ni));
                    assert(w_len as int == sqrt_up(w_lsq(pos, vel, *settings, ni)));
                    assert(unit_w == gc.normal);
                    assert(vel.x + u.x == gc.point.x as int && vel.z + u.z == gc.point.z as int);
                }
                (u, unit_w)
            } else {
                // project onto the nearer leg of the cone
                let dist = rel_pos.len_up();
                proof {
                    crate::math::lemma_sq_le(rel_pos.x as int, 2 * MAX_COORD as int);
                    crate::math::lemma_sq_le(rel_pos.z as int, 2 * MAX_COORD as int);
                    crate::math::lemma_sqrt_up_le(
                        dist_sq as int,
                        dist as int,
                        4 * MAX_COORD as int,
                    );
                }
                let leg_sq: i128 = dist_sq - cr_sq;
                let leg128 = crate::math::sqrt_up_u128(leg_sq as u128);
                proof {
                    crate::math::lemma_sqrt_up_le(
                        leg_sq as int,
                        leg128 as int,
                        4 * MAX_COORD as int,
                    );
                }
                let leg: i64 = leg128 as i64;
                let u = rel_pos.normalize_scaled();
                proof {
                    crate::vec2::lemma_abs_prod_bound2(
                        u.x as int,
                        leg as int,
                        SCALE as int,
                        4 * MAX_COORD as int,
                    );
                    crate::vec2::lemma_abs_prod_bound2(
                        u.z as int,
                        leg as int,
                        SCALE as int,
                        4 * MAX_COORD as int,
                    );
                    crate::vec2::lemma_abs_prod_bound2(
                        u.x as int,
                        cr as int,
                        SCALE as int,
                        2 * MAX_COORD as int,
                    );
                    crate::vec2::lemma_abs_prod_bound2(
                        u.z as int,
                        cr as int,
                        SCALE as int,
                        2 * MAX_COORD as int,
                    );
                    crate::vec2::lemma_abs_prod_bound2(
                        rel_vel.x as int,
                        rel_pos.z as int,
                        2 * MAX_COORD as int,
                        2 * MAX_COORD as int,
                    );
                    crate::vec2::lemma_abs_prod_bound2(
                        rel_vel.z as int,
                        rel_pos.x as int,
                        2 * MAX_COORD as int,
                        2 * MAX_COORD as int,
                    );
                }
                let cross: i128 = (rel_vel.x as i128) * (rel_pos.z as i128) - (rel_vel.z as i128)
                    * (rel_pos.x as i128);
                let dir: Vec2Fix = if cross > 0 {
                    Vec2Fix {
                        x: ((u.x as i128) * (leg as i128) - (u.z as i128) * (cr as i128)) as i64,
                        z: ((u.x as i128) * (cr as i128) + (u.z as i128) * (leg as i128)) as i64,
                    }
                } else {
                    Vec2Fix {
                        x: ((u.x as i128) * (leg as i128) + (u.z as i128) * (cr as i128)) as i64,
                        z: ((u.z as i128) * (leg as i128) - (u.x as i128) * (cr as i128)) as i64,
                    }
                };
                let perp = Vec2Fix { x: -dir.z, z: dir.x };
                let n = perp.normalize_scaled();
                let dotn = rel_vel.dot_ex(n);
                proof {
                    crate::vec2::lemma_abs_prod_bound2(
                        rel_vel.x as int,
                        n.x as int,
                        2 * MAX_COORD as int,
                        SCALE as int,
                    );
                    crate::vec2::lemma_abs_prod_bound2(
                        rel_vel.z as int,
                        n.z as int,
                        2 * MAX_COORD as int,
                        SCALE as int,
                    );
                    crate::vec2::lemma_abs_prod_bound2(
                        abs_i(n.x as int),
                        abs_i(dotn as int),
                        SCALE as int,
                        4000 * MAX_COORD as int,
                    );
                    crate::vec2::lemma_abs_prod_bound2(
                        abs_i(n.z as int),
                        abs_i(dotn as int),
                        SCALE as int,
                        4000 * MAX_COORD as int,
                    );
                }
                let u2 = n.mul_div(dotn as i64, SCALE * SCALE);
                proof {
                    let ni = neighbors@[i as int];
                    let gc = constraint_of(pos, vel, *settings, ni, dt_ms as int);
                    assert(w.x as int == w_x(pos, vel, *settings, ni));
                    assert(w.z as int == w_z(pos, vel, *settings, ni));
                    assert(dotv as int == vo_dot(pos, vel, *settings, ni));
                    assert(!overlapping(pos, ni, settings.radius as int));
                    assert(!cap_case(pos, vel, *settings, ni));
                    assert(leg as int == sqrt_up(
                        crel_lsq(pos, ni) - (settings.radius + ni.radius) * (settings.radius
                            + ni.radius),
                    ));
                    assert(u.x as int == norm_comp(crel_x(pos, ni), crel_lsq(pos, ni)));
                    assert(u.z as int == norm_comp(crel_z(pos, ni), crel_lsq(pos, ni)));
                    assert(cross as int == rel_vx(vel, ni) * crel_z(pos, ni) - rel_vz(vel, ni)
                        * crel_x(pos, ni));
                    assert(perp.x as int * perp.x as int == dir.z as int * dir.z as int)
                        by (nonlinear_arith)
                        requires
                            perp.x as int == -(dir.z as int),
                    ;
                    assert(n == gc.normal);
                    assert(vel.x + u2.x == gc.point.x as int && vel.z + u2.z == gc.point.z as int);
                }
                (u2, n)
            }
        } else {
            // already colliding: push away aggressively using the timestep
            let d = rel_pos.len_up();
            proof {
                crate::math::lemma_sq_le(rel_pos.x as int, 2 * MAX_COORD as int);
                crate::math::lemma_sq_le(rel_pos.z as int, 2 * MAX_COORD as int);
                crate::math::lemma_sqrt_up_le(dist_sq as int, d as int, 4 * MAX_COORD as int);
            }
            let n = rel_pos.normalize_scaled();
            let push128 = div_i128(((cr - d) as i128) * 1000, dt_ms as i128);
            proof {
                lemma_div_tz((cr - d) as int * 1000, dt_ms as int);
                crate::vec2::lemma_abs_prod_bound2((cr - d) as int, 1000, 8 * MAX_COORD as int, 1000);
            }
            let push: i64 = push128 as i64;
            proof {
                crate::vec2::lemma_abs_prod_bound2(
                    abs_i(n.x as int),
                    abs_i(push as int),
                    SCALE as int,
                    8000 * MAX_COORD as int,
                );
                crate::vec2::lemma_abs_prod_bound2(
                    abs_i(n.z as int),
                    abs_i(push as int),
                    SCALE as int,
                    8000 * MAX_COORD as int,
                );
            }
            let u = n.mul_div(push, SCALE);
            proof {
                let ni = neighbors@[i as int];
                let gc = constraint_of(pos, vel, *settings, ni, dt_ms as int);
                assert(overlapping(pos, ni, settings.radius as int));
                assert(d as int == sqrt_up(crel_lsq(pos, ni)));
                assert(push as int == contact_push(pos, ni, settings.radius as int, dt_ms as int));
                assert(n == gc.normal);
                assert(vel.x + u.x == gc.point.x as int && vel.z + u.z == gc.point.z as int);
            }
            (u, n)
        };
        let point = self_vel.plus(shift);
        proof {
            let gc = constraint_of(pos, vel, *settings, neighbors@[i as int], dt_ms as int);
            assert(normal == gc.normal && point == gc.point);
            assert(OrcaConstraint { point, normal } == gc);
        }
        cs.push(OrcaConstraint { point, normal });
        i = i + 1;
    }
    cs
}

/// Two agents already overlapping receive a separation impulse that never
/// points toward the other: on each axis the impulse agrees in sign with the
/// offset away from the neighbor. (That the impulse is nonzero on concrete
/// overlapping inputs is checked by the scenario tests; integer truncation
/// can null it when the penetration over one timestep rounds to zero.)
pub proof fn lemma_separation_away(pos: Vec2Fix, n: AgentSnap, radius: int, dt: int)
    requires
        pos.bounded(MAX_COORD as int),
        n.valid(),
        1 <= radius <= MAX_COORD,
        1 <= dt <= MAX_COORD,
        off_lsq(pos, n) >= 1,
    ensures
        ({
            let s = sep_sum(pos, radius, seq![n], dt);
            s.0 * off_x(pos, n) >= 0 && s.1 * off_z(pos, n) >= 0
        }),
{
    let ox = off_x(pos, n);
    let oz = off_z(pos, n);
    let lsq = off_lsq(pos, n);
    let ns = seq![n];
    assert(ns.drop_last() =~= Seq::<AgentSnap>::empty());
    assert(ns.last() == n);
    assert(sep_sum(pos, radius, ns.drop_last(), dt) == (0int, 0int));
    if sep_gate(pos, n, radius) {
        crate::math::lemma_sqrt_up_exists(lsq);
        let el = sqrt_up(lsq);
        let cr = radius + n.radius;
        lemma_div_tz(cr * 21, 20);
        assert(div_tz(cr * 21, 20) - el >= 0);
        assert((div_tz(cr * 21, 20) - el) * 1000 >= 0) by (nonlinear_arith)
            requires
                div_tz(cr * 21, 20) - el >= 0,
        ;
        lemma_div_tz((div_tz(cr * 21, 20) - el) * 1000, dt);
        let push = sep_push(pos, n, radius, dt);
        assert(push >= 0);
        lemma_div_tz(ox * 1000, el);
        lemma_div_tz(oz * 1000, el);
        let nx = norm_comp(ox, lsq);
        let nz = norm_comp(oz, lsq);
        assert((ox >= 0 ==> nx >= 0) && (ox < 0 ==> nx <= 0));
        assert((oz >= 0 ==> nz >= 0) && (oz < 0 ==> nz <= 0));
        assert((nx >= 0 ==> nx * push >= 0) && (nx <= 0 ==> nx * push <= 0)) by (nonlinear_arith)
            requires
                push >= 0,
        ;
        assert((nz >= 0 ==> nz * push >= 0) && (nz <= 0 ==> nz * push <= 0)) by (nonlinear_arith)
            requires
                push >= 0,
        ;
        lemma_div_tz(nx * push, SCALE as int);
        lemma_div_tz(nz * push, SCALE as int);
        let tx = div_tz(nx * push, SCALE as int);
        let tz2 = div_tz(nz * push, SCALE as int);
        assert((ox >= 0 ==> sat_mag(0 + tx) >= 0) && (ox < 0 ==> sat_mag(0 + tx) <= 0));
        assert((oz >= 0 ==> sat_mag(0 + tz2) >= 0) && (oz < 0 ==> sat_mag(0 + tz2) <= 0));
        assert(sat_mag(0 + tx) * ox >= 0 && sat_mag(0 + tz2) * oz >= 0) by (nonlinear_arith)
            requires
                (ox >= 0 ==> sat_mag(0 + tx) >= 0) && (ox < 0 ==> sat_mag(0 + tx) <= 0),
                (oz >= 0 ==> sat_mag(0 + tz2) >= 0) && (oz < 0 ==> sat_mag(0 + tz2) <= 0),
        ;
    } else {
        assert(0 * ox >= 0 && 0 * oz >= 0) by (nonlinear_arith);
    }
}

/// Two agents below combined-radius separation receive a strictly nonzero
/// separation impulse directed away from each other, whenever the distance is
/// at least a few milli-units and the penetration push does not truncate to
/// nothing over the timestep (a push of at least five milli-units per
/// second). Its dot product with the offset away from the neighbor is
/// strictly positive.
pub proof fn lemma_separation_nonzero(pos: Vec2Fix, n: AgentSnap, radius: int, dt: int)
    requires
        pos.bounded(MAX_COORD as int),
        n.valid(),
        1 <= radius <= MAX_COORD,
        1 <= dt <= MAX_COORD,
        off_lsq(pos, n) >= 16,
        off_lsq(pos, n) <= (radius + n.radius) * (radius + n.radius),
        sep_push(pos, n, radius, dt) >= 5,
    ensures
        ({
            let s = sep_sum(pos, radius, seq![n], dt);
            s.0 * off_x(pos, n) + s.1 * off_z(pos, n) >= 1 && !(s.0 == 0 && s.1 == 0)
        }),
{
    let ox = off_x(pos, n);
    let oz = off_z(pos, n);
    let lsq = off_lsq(pos, n);
    let cr = radius + n.radius;
    let ns = seq![n];
    assert(ns.drop_last() =~= Seq::<AgentSnap>::empty());
    assert(ns.last() == n);
    assert(sep_sum(pos, radius, ns.drop_last(), dt) == (0int, 0int));
    crate::math::lemma_sqrt_up_exists(lsq);
    let el = sqrt_up(lsq);
    assert(el >= 4) by (nonlinear_arith)
        requires
            el >= 1,
            el * el >= lsq,
            lsq >= 16,
            (el - 1) * (el - 1) < lsq,
    ;
    crate::math::lemma_sqrt_up_le(lsq, el, cr);
    assert(sep_gate(pos, n, radius));
    let push = sep_push(pos, n, radius, dt);
    let nx = norm_comp(ox, lsq);
    let nz = norm_comp(oz, lsq);
    lemma_div_tz(ox * 1000, el);
    lemma_div_tz(oz * 1000, el);
    assert(ox * ox <= lsq && oz * oz <= lsq) by (nonlinear_arith)
        requires
            lsq == ox * ox + oz * oz,
    ;
    assert(ox * ox <= el * el && oz * oz <= el * el);
    crate::math::lemma_abs_le(ox, el);
    crate::math::lemma_abs_le(oz, el);
    lemma_norm_dot_comp(ox, nx, el, 1000);
    lemma_norm_dot_comp(oz, nz, el, 1000);
    let dd = nx * ox + nz * oz;
    assert(dd * el >= lsq * 1000 - (abs_i(ox) + abs_i(oz)) * el) by (nonlinear_arith)
        requires
            dd == nx * ox + nz * oz,
            lsq == ox * ox + oz * oz,
            nx * ox * el >= ox * ox * 1000 - abs_i(ox) * el,
            nz * oz * el >= oz * oz * 1000 - abs_i(oz) * el,
    ;
    assert(dd >= 900 * (el - 2)) by (nonlinear_arith)
        requires
            el >= 4,
            dd * el >= lsq * 1000 - (abs_i(ox) + abs_i(oz)) * el,
            abs_i(ox) <= el,
            abs_i(oz) <= el,
            0 <= abs_i(ox),
            0 <= abs_i(oz),
            lsq > (el - 1) * (el - 1),
    ;
    lemma_div_tz(nx * push, SCALE as int);
    lemma_div_tz(nz * push, SCALE as int);
    let tx = div_tz(nx * push, SCALE as int);
    let tz2 = div_tz(nz * push, SCALE as int);
    assert(tx * ox * 1000 >= nx * push * ox - abs_i(ox) * 1000) by (nonlinear_arith)
        requires
            tx * 1000 > nx * push - 1000,
            tx * 1000 < nx * push + 1000,
    ;
    assert(tz2 * oz * 1000 >= nz * push * oz - abs_i(oz) * 1000) by (nonlinear_arith)
        requires
            tz2 * 1000 > nz * push - 1000,
            tz2 * 1000 < nz * push + 1000,
    ;
    assert((tx * ox + tz2 * oz) * 1000 >= push * dd - (abs_i(ox) + abs_i(oz)) * 1000)
        by (nonlinear_arith)
        requires
            dd == nx * ox + nz * oz,
            tx * ox * 1000 >= nx * push * ox - abs_i(ox) * 1000,
            tz2 * oz * 1000 >= nz * push * oz - abs_i(oz) * 1000,
    ;
    assert(tx * ox + tz2 * oz >= 1) by (nonlinear_arith)
        requires
            push >= 5,
            dd >= 900 * (el - 2),
            el >= 4,
            (tx * ox + tz2 * oz) * 1000 >= push * dd - (abs_i(ox) + abs_i(oz)) * 1000,
            abs_i(ox) <= el,
            abs_i(oz) <= el,
    ;
    // the single term stays inside the saturation bound, so the sum is exact
    lemma_div_tz(cr * 21, 20);
    crate::vec2::lemma_abs_prod_bound2(
        div_tz(cr * 21, 20) - el,
        1000,
        0x2C00_0000,
        1000,
    );
    lemma_div_tz((div_tz(cr * 21, 20) - el) * 1000, dt);
    assert(abs_i(nx) * el == abs_i(nx * el) && abs_i(nz) * el == abs_i(nz * el))
        by (nonlinear_arith)
        requires
            el >= 1,
    ;
    assert(abs_i(nx) * el <= abs_i(ox * 1000));
    assert(abs_i(nx) <= 1000 && abs_i(nz) <= 1000) by (nonlinear_arith)
        requires
            el >= 1,
            abs_i(nx) * el <= abs_i(ox * 1000),
            abs_i(nz) * el <= abs_i(oz * 1000),
            abs_i(ox) <= el,
            abs_i(oz) <= el,
            abs_i(ox * 1000) == abs_i(ox) * 1000,
            abs_i(oz * 1000) == abs_i(oz) * 1000,
    ;
    crate::vec2::lemma_abs_prod_bound2(abs_i(nx), abs_i(push), 1000, 0x100_0000_0000);
    crate::vec2::lemma_abs_prod_bound2(abs_i(nz), abs_i(push), 1000, 0x100_0000_0000);
    assert(abs_i(nx * push) == abs_i(nx) * abs_i(push) && abs_i(nz * push) == abs_i(nz) * abs_i(
        push,
    )) by (nonlinear_arith);
    assert(sat_mag(0 + tx) == tx && sat_mag(0 + tz2) == tz2);
}

/// The magnitude cap on one tick's velocity change: the acceleration limit
/// over the timestep.
pub open spec fn accel_step(max_accel: int, dt: int) -> int {
    div_tz(max_accel * dt, 1000)
}

/// Advance the actual velocity toward the desired one under the acceleration
/// limit: the velocity change is clamped to `max_accel` per second over this
/// timestep, and the result is re-clamped to the speed limit. The result
/// never exceeds the speed limit; whenever the speed clamp is not engaged,
/// the change from the current velocity respects the acceleration budget
/// exactly.
pub fn integrate_velocity(
    current: Vec2Fix,
    desired: Vec2Fix,
    max_speed: i64,
    max_accel: i64,
    dt_ms: i64,
) -> (r: Vec2Fix)
    requires
        current.bounded(MAX_COORD as int),
        desired.bounded(MAX_COORD as int),
        0 <= max_speed <= MAX_COORD,
        0 <= max_accel <= MAX_COORD,
        1 <= dt_ms <= MAX_COORD,
    ensures
        ({
            let astep = accel_step(max_accel as int, dt_ms as int);
            let dx = desired.x - current.x;
            let dz = desired.z - current.z;
            let dlsq = dx * dx + dz * dz;
            let tx = current.x + clamp_comp(dx, dlsq, astep);
            let tz = current.z + clamp_comp(dz, dlsq, astep);
            let tlsq = tx * tx + tz * tz;
            &&& r.x == clamp_comp(tx, tlsq, max_speed as int)
            &&& r.z == clamp_comp(tz, tlsq, max_speed as int)
            &&& (tlsq <= max_speed * max_speed ==> (r.x - current.x) * (r.x - current.x) + (r.z
                - current.z) * (r.z - current.z) <= astep * astep)
        }),
        r.len_sq() <= max_speed * max_speed,
        r.bounded(max_speed as int),
{
    proof {
        crate::vec2::lemma_abs_prod_bound(max_accel as int, dt_ms as int, MAX_COORD as int);
    }
    let astep = div_i128((max_accel as i128) * (dt_ms as i128), 1000) as i64;
    proof {
        lemma_div_tz(max_accel as int * dt_ms as int, 1000);
        assert(max_accel as int * dt_ms as int >= 0) by (nonlinear_arith)
            requires
                max_accel as int >= 0,
                dt_ms as int >= 1,
        ;
    }
    let delta = desired.minus(current);
    let step = delta.clamp_len(astep);
    let tentative = current.plus(step);
    let r = tentative.clamp_len(max_speed);
    r
}

} // verus!
