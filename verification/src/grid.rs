//! Spatial bucket partition of the per-tick agent snapshot, and the neighbor
//! query over it. The bucket map is rebuilt from scratch each tick: every
//! snapshot entry is tagged with its integer bucket coordinate (the floor of
//! its offset from the grid origin over the bucket cell size), and a query
//! visits only entries whose bucket coordinate falls in a window wide enough
//! to cover the sensing range.

use vstd::prelude::*;
use vstd::arithmetic::div_mod::{
    lemma_fundamental_div_mod, lemma_fundamental_div_mod_converse_div,
    lemma_mod_division_less_than_divisor,
};
use crate::vec2::{Vec2Fix, Vec3Fix, MAX_COORD};

verus! {

/// Frame-start snapshot of one agent: identifier, position, velocity and
/// physical radius, all in milli-units.
#[derive(Clone, Copy, Debug, PartialEq, Eq, Structural)]
pub struct AgentSnap {
    pub id: u64,
    pub pos: Vec3Fix,
    pub vel: Vec3Fix,
    pub radius: i64,
}

impl AgentSnap {
    /// Coordinates, velocity and radius are within the solver's input range.
    pub open spec fn valid(self) -> bool {
        &&& self.pos.bounded3(MAX_COORD as int)
        &&& self.vel.bounded3(MAX_COORD as int)
        &&& 1 <= self.radius <= MAX_COORD
    }
}

/// Bucket geometry: the world position of the grid's hashing origin and the
/// bucket cell size along each planar axis (world extent over bucket count,
/// so cells need not be square).
#[derive(Clone, Copy, Debug, PartialEq, Eq, Structural)]
pub struct GridGeom {
    pub origin: Vec2Fix,
    pub bucket_size_x: i64,
    pub bucket_size_z: i64,
}

impl GridGeom {
    /// A grid must have at least one milli-unit of cell in each dimension;
    /// a degenerate grid is a caller precondition fault.
    pub open spec fn valid(self) -> bool {
        &&& self.origin.bounded(MAX_COORD as int)
        &&& 1 <= self.bucket_size_x <= MAX_COORD
        &&& 1 <= self.bucket_size_z <= MAX_COORD
    }
}

/// The bucket coordinate of position `p` along one axis: the floor of the
/// offset from the origin over the bucket size.
pub open spec fn bucket_of(p: int, o: int, bs: int) -> int {
    (p - o) / bs
}

/// Floor division of a bounded value by a positive divisor.
pub fn floor_div(a: i64, b: i64) -> (r: i64)
    requires
        1 <= b <= 0x1000_0000_0000,
        -0x1000_0000_0000 <= a <= 0x1000_0000_0000,
    ensures
        r as int == a as int / b as int,
        a >= 0 ==> 0 <= r <= a,
        a < 0 ==> a <= r <= 0,
{
    if a >= 0 {
        let q: i64 = ((a as u64) / (b as u64)) as i64;
        proof {
            crate::math::lemma_div_tz(a as int, b as int);
        }
        q
    } else {
        let m: i64 = -a;
        let q0: i64 = (((m + b - 1) as u64) / (b as u64)) as i64;
        proof {
            let mi = m as int;
            let bi = b as int;
            let qi = q0 as int;
            lemma_fundamental_div_mod(mi + bi - 1, bi);
            lemma_mod_division_less_than_divisor(mi + bi - 1, bi);
            crate::math::lemma_div_tz(mi + bi - 1, bi);
            assert(mi <= qi * bi < mi + bi && 0 <= qi <= mi) by (nonlinear_arith)
                requires
                    bi >= 1,
                    mi >= 1,
                    mi + bi - 1 == bi * qi + (mi + bi - 1) % bi,
                    0 <= (mi + bi - 1) % bi < bi,
                    qi >= 0,
            ;
            assert((-qi) * bi == -(qi * bi)) by (nonlinear_arith);
            lemma_fundamental_div_mod_converse_div(a as int, bi, -qi, qi * bi - mi);
        }
        -q0
    }
}

/// Ceiling division of a nonnegative value by a positive divisor: the least
/// `r` with `r * b >= a`.
pub fn ceil_div(a: i64, b: i64) -> (r: i64)
    requires
        0 <= a <= 0x1000_0000_0000,
        1 <= b <= 0x1000_0000_0000,
    ensures
        r as int == (a + b - 1) as int / b as int,
        r * b >= a,
        0 <= r <= a,
{
    let q: i64 = (((a + b - 1) as u64) / (b as u64)) as i64;
    proof {
        let ai = a as int;
        let bi = b as int;
        let qi = q as int;
        lemma_fundamental_div_mod(ai + bi - 1, bi);
        lemma_mod_division_less_than_divisor(ai + bi - 1, bi);
        crate::math::lemma_div_tz(ai + bi - 1, bi);
        assert(qi * bi >= ai && 0 <= qi <= ai || ai == 0 && qi == 0) by (nonlinear_arith)
            requires
                bi >= 1,
                ai >= 0,
                ai + bi - 1 == bi * qi + (ai + bi - 1) % bi,
                0 <= (ai + bi - 1) % bi < bi,
                qi >= 0,
        ;
    }
    q
}

/// Two positions within planar distance `r` of each other on one axis land in
/// bucket coordinates at most `k` apart, provided the window radius `k`
/// covers the range (`k * bs >= r`). This is the fact that makes the bucket
/// window search complete.
pub proof fn lemma_bucket_window(p: int, q: int, o: int, bs: int, r: int, k: int)
    requires
        bs >= 1,
        r >= 0,
        -r <= p - q <= r,
        k * bs >= r,
        k >= 0,
    ensures
        -k <= bucket_of(p, o, bs) - bucket_of(q, o, bs) <= k,
{
    let a = p - o;
    let c = q - o;
    let qa = a / bs;
    let qc = c / bs;
    lemma_fundamental_div_mod(a, bs);
    lemma_mod_division_less_than_divisor(a, bs);
    lemma_fundamental_div_mod(c, bs);
    lemma_mod_division_less_than_divisor(c, bs);
    assert(-k <= qa - qc <= k) by (nonlinear_arith)
        requires
            bs >= 1,
            r >= 0,
            k >= 0,
            -r <= a - c <= r,
            k * bs >= r,
            a == bs * qa + a % bs,
            c == bs * qc + c % bs,
            0 <= a % bs < bs,
            0 <= c % bs < bs,
    ;
}

/// One snapshot entry of the bucket map, tagged with its bucket coordinate.
#[derive(Clone, Copy, Debug, PartialEq, Eq, Structural)]
pub struct BucketEntry {
    pub bx: i64,
    pub bz: i64,
    pub agent: AgentSnap,
}

/// The per-tick spatial bucket map: every agent snapshot keyed by its bucket
/// coordinate. Discarded and rebuilt from scratch each tick.
pub struct BucketGrid {
    pub geom: GridGeom,
    pub entries: Vec<BucketEntry>,
}

impl BucketGrid {
    /// Every entry's key is the bucket coordinate of its position, and every
    /// snapshot is in range.
    pub open spec fn wf(self) -> bool {
        &&& self.geom.valid()
        &&& forall|i: int|
            0 <= i < self.entries.len() ==> {
                let e = #[trigger] self.entries[i];
                &&& e.agent.valid()
                &&& e.bx as int == bucket_of(
                    e.agent.pos.x as int,
                    self.geom.origin.x as int,
                    self.geom.bucket_size_x as int,
                )
                &&& e.bz as int == bucket_of(
                    e.agent.pos.z as int,
                    self.geom.origin.z as int,
                    self.geom.bucket_size_z as int,
                )
            }
    }
}

/// The bucket map built from a snapshot: every entry tagged with the bucket
/// coordinate of its position, in snapshot order.
pub open spec fn buckets_of(snapshot: Seq<AgentSnap>, geom: GridGeom) -> Seq<BucketEntry> {
    Seq::new(
        snapshot.len(),
        |i: int|
            BucketEntry {
                bx: bucket_of(
                    snapshot[i].pos.x as int,
                    geom.origin.x as int,
                    geom.bucket_size_x as int,
                ) as i64,
                bz: bucket_of(
                    snapshot[i].pos.z as int,
                    geom.origin.z as int,
                    geom.bucket_size_z as int,
                ) as i64,
                agent: snapshot[i],
            },
    )
}

/// Build the bucket map for one tick: each snapshot entry is inserted into
/// the bucket holding its position, in snapshot order. The result is exactly
/// `buckets_of` the snapshot.
pub fn build_buckets(snapshot: &Vec<AgentSnap>, geom: GridGeom) -> (g: BucketGrid)
    requires
        geom.valid(),
        forall|i: int| 0 <= i < snapshot.len() ==> (#[trigger] snapshot[i]).valid(),
    ensures
        g.wf(),
        g.geom == geom,
        g.entries.len() == snapshot.len(),
        forall|i: int| 0 <= i < snapshot.len() ==> (#[trigger] g.entries[i]).agent == snapshot[i],
        g.entries@ == buckets_of(snapshot@, geom),
{
    let mut entries: Vec<BucketEntry> = Vec::new();
    let mut i: usize = 0;
    while i < snapshot.len()
        invariant
            geom.valid(),
            forall|k: int| 0 <= k < snapshot.len() ==> (#[trigger] snapshot[k]).valid(),
            i <= snapshot.len(),
            entries.len() == i,
            forall|k: int| 0 <= k < i ==> (#[trigger] entries[k]).agent == snapshot[k],
            forall|k: int|
                0 <= k < i ==> {
                    let e = #[trigger] entries[k];
                    &&& e.agent.valid()
                    &&& e.bx as int == bucket_of(
                        e.agent.pos.x as int,
                        geom.origin.x as int,
                        geom.bucket_size_x as int,
                    )
                    &&& e.bz as int == bucket_of(
                        e.agent.pos.z as int,
                        geom.origin.z as int,
                        geom.bucket_size_z as int,
                    )
                },
            forall|k: int|
                0 <= k < i ==> #[trigger] entries@[k] == buckets_of(snapshot@, geom)[k],
        decreases snapshot.len() - i,
    {
        let a = snapshot[i];
        let bx = floor_div(a.pos.x - geom.origin.x, geom.bucket_size_x);
        let bz = floor_div(a.pos.z - geom.origin.z, geom.bucket_size_z);
        entries.push(BucketEntry { bx, bz, agent: a });
        proof {
            assert(entries@[i as int] == buckets_of(snapshot@, geom)[i as int]);
        }
        i = i + 1;
    }
    proof {
        assert(entries@ =~= buckets_of(snapshot@, geom));
    }
    BucketGrid { geom, entries }
}

/// The window radius in buckets along the x axis for sensing range `r`:
/// `ceil(r / bucket_size)`.
pub open spec fn win_x(geom: GridGeom, r: int) -> int {
    (r + geom.bucket_size_x - 1) / (geom.bucket_size_x as int)
}

/// The window radius in buckets along the z axis.
pub open spec fn win_z(geom: GridGeom, r: int) -> int {
    (r + geom.bucket_size_z - 1) / (geom.bucket_size_z as int)
}

/// The neighbor query admits a snapshot: it is another agent, its bucket
/// coordinate lies in the search window, and its squared distance to the
/// querying agent is within `(sensor_range + its radius) squared`.
pub open spec fn admits(
    geom: GridGeom,
    self_id: u64,
    self_pos: Vec3Fix,
    r: int,
    a: AgentSnap,
) -> bool {
    let sbx = bucket_of(self_pos.x as int, geom.origin.x as int, geom.bucket_size_x as int);
    let sbz = bucket_of(self_pos.z as int, geom.origin.z as int, geom.bucket_size_z as int);
    let abx = bucket_of(a.pos.x as int, geom.origin.x as int, geom.bucket_size_x as int);
    let abz = bucket_of(a.pos.z as int, geom.origin.z as int, geom.bucket_size_z as int);
    &&& a.id != self_id
    &&& -win_x(geom, r) <= abx - sbx <= win_x(geom, r)
    &&& -win_z(geom, r) <= abz - sbz <= win_z(geom, r)
    &&& self_pos.dist_sq3(a.pos) <= (r + a.radius) * (r + a.radius)
}

/// The neighbor list a query produces: the admitted snapshots of the bucket
/// map, kept in bucket-map order.
pub open spec fn admitted_prefix(
    entries: Seq<BucketEntry>,
    geom: GridGeom,
    self_id: u64,
    self_pos: Vec3Fix,
    r: int,
) -> Seq<AgentSnap>
    decreases entries.len(),
{
    if entries.len() == 0 {
        Seq::empty()
    } else {
        let rest = admitted_prefix(entries.drop_last(), geom, self_id, self_pos, r);
        if admits(geom, self_id, self_pos, r, entries.last().agent) {
            rest.push(entries.last().agent)
        } else {
            rest
        }
    }
}

/// Collect the neighbors of one agent: every other snapshot in the bucket
/// window around the agent whose distance is within the sensing range plus
/// the neighbor's radius, in bucket-map order. The result is exactly the
/// admitted subsequence of the bucket map: each qualifying agent appears
/// once, in order.
pub fn query_neighbors(g: &BucketGrid, self_id: u64, self_pos: Vec3Fix, sensor_range: i64) -> (ns:
    Vec<AgentSnap>)
    requires
        g.wf(),
        self_pos.bounded3(MAX_COORD as int),
        0 <= sensor_range <= MAX_COORD,
    ensures
        forall|j: int|
            0 <= j < ns.len() ==> admits(
                g.geom,
                self_id,
                self_pos,
                sensor_range as int,
                #[trigger] ns[j],
            ),
        forall|j: int| 0 <= j < ns.len() ==> (#[trigger] ns[j]).valid(),
        forall|i: int|
            0 <= i < g.entries.len() && admits(
                g.geom,
                self_id,
                self_pos,
                sensor_range as int,
                (#[trigger] g.entries[i]).agent,
            ) ==> exists|j: int| 0 <= j < ns.len() && ns[j] == g.entries[i].agent,
        ns@ == admitted_prefix(g.entries@, g.geom, self_id, self_pos, sensor_range as int),
{
    let sbx = floor_div(self_pos.x - g.geom.origin.x, g.geom.bucket_size_x);
    let sbz = floor_div(self_pos.z - g.geom.origin.z, g.geom.bucket_size_z);
    let wx = ceil_div(sensor_range, g.geom.bucket_size_x);
    let wz = ceil_div(sensor_range, g.geom.bucket_size_z);
    let mut ns: Vec<AgentSnap> = Vec::new();
    let mut i: usize = 0;
    while i < g.entries.len()
        invariant
            g.wf(),
            self_pos.bounded3(MAX_COORD as int),
            0 <= sensor_range <= MAX_COORD,
            i <= g.entries.len(),
            sbx as int == bucket_of(
                self_pos.x as int,
                g.geom.origin.x as int,
                g.geom.bucket_size_x as int,
            ),
            sbz as int == bucket_of(
                self_pos.z as int,
                g.geom.origin.z as int,
                g.geom.bucket_size_z as int,
            ),
            wx as int == win_x(g.geom, sensor_range as int),
            wz as int == win_z(g.geom, sensor_range as int),
            -2 * MAX_COORD <= sbx <= 2 * MAX_COORD,
            -2 * MAX_COORD <= sbz <= 2 * MAX_COORD,
            0 <= wx <= MAX_COORD,
            0 <= wz <= MAX_COORD,
            forall|j: int|
                0 <= j < ns.len() ==> admits(
                    g.geom,
                    self_id,
                    self_pos,
                    sensor_range as int,
                    #[trigger] ns[j],
                ),
            forall|j: int| 0 <= j < ns.len() ==> (#[trigger] ns[j]).valid(),
            forall|k: int|
                0 <= k < i && admits(
                    g.geom,
                    self_id,
                    self_pos,
                    sensor_range as int,
                    (#[trigger] g.entries[k]).agent,
                ) ==> exists|j: int| 0 <= j < ns.len() && ns[j] == g.entries[k].agent,
            ns@ == admitted_prefix(
                g.entries@.subrange(0, i as int),
                g.geom,
                self_id,
                self_pos,
                sensor_range as int,
            ),
        decreases g.entries.len() - i,
    {
        let e = g.entries[i];
        proof {
            crate::math::lemma_div_bound(
                e.agent.pos.x as int - g.geom.origin.x as int,
                g.geom.bucket_size_x as int,
                2 * MAX_COORD as int,
            );
            crate::math::lemma_div_bound(
                e.agent.pos.z as int - g.geom.origin.z as int,
                g.geom.bucket_size_z as int,
                2 * MAX_COORD as int,
            );
        }
        let ghost prev = ns@;
        if e.agent.id != self_id {
            let dbx: i64 = e.bx - sbx;
            let dbz: i64 = e.bz - sbz;
            if -wx <= dbx && dbx <= wx && -wz <= dbz && dbz <= wz {
                proof {
                    assert(e.agent.valid());
                    crate::vec2::lemma_abs_prod_bound(
                        sensor_range as int + e.agent.radius as int,
                        sensor_range as int + e.agent.radius as int,
                        2 * MAX_COORD as int,
                    );
                }
                let range: i64 = sensor_range + e.agent.radius;
                proof {
                    assert(range as int * range as int <= 0x4_0000_0000_0000) by (nonlinear_arith)
                        requires
                            0 <= range as int <= 0x200_0000,
                    ;
                }
                let rr: i128 = (range as i128) * (range as i128);
                let d = self_pos.dist_sq3_ex(e.agent.pos);
                if d <= rr {
                    ns.push(e.agent);
                }
            }
        }
        proof {
            assert forall|k: int|
                0 <= k < i as int + 1 && admits(
                    g.geom,
                    self_id,
                    self_pos,
                    sensor_range as int,
                    (#[trigger] g.entries[k]).agent,
                ) implies exists|j: int| 0 <= j < ns@.len() && ns@[j] == g.entries[k].agent by {
                if k < i as int {
                    let j0 = choose|j0: int| 0 <= j0 < prev.len() && prev[j0] == g.entries[k].agent;
                    assert(ns@[j0] == g.entries[k].agent);
                } else {
                    assert(ns@[ns@.len() - 1] == g.entries[k].agent);
                }
            }
            assert(g.entries@.subrange(0, i as int + 1).drop_last() =~= g.entries@.subrange(
                0,
                i as int,
            ));
            assert(g.entries@.subrange(0, i as int + 1).last() == g.entries@[i as int]);
        }
        i = i + 1;
    }
    proof {
        assert(g.entries@.subrange(0, g.entries@.len() as int) =~= g.entries@);
    }
    ns
}

/// Completeness of the bucket window: an agent whose squared distance to the
/// querying position is within the sensing range squared always falls inside
/// the search window, whatever the bucket geometry.
pub proof fn lemma_window_covers(geom: GridGeom, self_pos: Vec3Fix, a: AgentSnap, r: int)
    requires
        geom.valid(),
        self_pos.bounded3(MAX_COORD as int),
        a.valid(),
        0 <= r <= MAX_COORD,
        self_pos.dist_sq3(a.pos) <= r * r,
    ensures
        ({
            let sbx = bucket_of(self_pos.x as int, geom.origin.x as int, geom.bucket_size_x as int);
            let sbz = bucket_of(self_pos.z as int, geom.origin.z as int, geom.bucket_size_z as int);
            let abx = bucket_of(a.pos.x as int, geom.origin.x as int, geom.bucket_size_x as int);
            let abz = bucket_of(a.pos.z as int, geom.origin.z as int, geom.bucket_size_z as int);
            &&& -win_x(geom, r) <= abx - sbx <= win_x(geom, r)
            &&& -win_z(geom, r) <= abz - sbz <= win_z(geom, r)
        }),
{
    let dx = self_pos.x as int - a.pos.x as int;
    let dz = self_pos.z as int - a.pos.z as int;
    let dy = self_pos.y as int - a.pos.y as int;
    assert(dx * dx <= r * r && dz * dz <= r * r) by (nonlinear_arith)
        requires
            dx * dx + dy * dy + dz * dz <= r * r,
    ;
    crate::math::lemma_abs_le(dx, r);
    crate::math::lemma_abs_le(dz, r);
    let bsx = geom.bucket_size_x as int;
    let bsz = geom.bucket_size_z as int;
    let kx = win_x(geom, r);
    let kz = win_z(geom, r);
    lemma_fundamental_div_mod(r + bsx - 1, bsx);
    lemma_mod_division_less_than_divisor(r + bsx - 1, bsx);
    crate::math::lemma_div_tz(r + bsx - 1, bsx);
    assert(kx * bsx >= r && kx >= 0) by (nonlinear_arith)
        requires
            bsx >= 1,
            r >= 0,
            kx == (r + bsx - 1) / bsx,
            r + bsx - 1 == bsx * kx + (r + bsx - 1) % bsx,
            0 <= (r + bsx - 1) % bsx < bsx,
            kx >= 0,
    ;
    lemma_fundamental_div_mod(r + bsz - 1, bsz);
    lemma_mod_division_less_than_divisor(r + bsz - 1, bsz);
    crate::math::lemma_div_tz(r + bsz - 1, bsz);
    assert(kz * bsz >= r && kz >= 0) by (nonlinear_arith)
        requires
            bsz >= 1,
            r >= 0,
            kz == (r + bsz - 1) / bsz,
            r + bsz - 1 == bsz * kz + (r + bsz - 1) % bsz,
            0 <= (r + bsz - 1) % bsz < bsz,
            kz >= 0,
    ;
    lemma_bucket_window(a.pos.x as int, self_pos.x as int, geom.origin.x as int, bsx, r, kx);
    lemma_bucket_window(a.pos.z as int, self_pos.z as int, geom.origin.z as int, bsz, r, kz);
}

/// The neighbor query result is invariant to the bucket size choice, for a
/// fixed sensing range and fixed snapshot, whenever every snapshot the
/// distance test admits is within the sensing range itself (an agent whose
/// own radius stretches the admitting distance beyond the sensing range can
/// fall outside a coarse window, so such inputs are excluded).
pub proof fn lemma_query_bucket_invariance(
    g1: BucketGrid,
    g2: BucketGrid,
    self_id: u64,
    self_pos: Vec3Fix,
    r: int,
)
    requires
        g1.wf(),
        g2.wf(),
        self_pos.bounded3(MAX_COORD as int),
        0 <= r <= MAX_COORD,
        g1.entries.len() == g2.entries.len(),
        forall|i: int|
            0 <= i < g1.entries.len() ==> (#[trigger] g1.entries[i]).agent == g2.entries[i].agent,
        forall|i: int|
            0 <= i < g1.entries.len() ==> {
                let a = (#[trigger] g1.entries[i]).agent;
                self_pos.dist_sq3(a.pos) <= (r + a.radius) * (r + a.radius) ==> self_pos.dist_sq3(
                    a.pos,
                ) <= r * r
            },
    ensures
        forall|i: int|
            0 <= i < g1.entries.len() ==> (admits(
                g1.geom,
                self_id,
                self_pos,
                r,
                (#[trigger] g1.entries[i]).agent,
            ) <==> admits(g2.geom, self_id, self_pos, r, g2.entries[i].agent)),
{
    assert forall|i: int| 0 <= i < g1.entries.len() implies (admits(
        g1.geom,
        self_id,
        self_pos,
        r,
        (#[trigger] g1.entries[i]).agent,
    ) <==> admits(g2.geom, self_id, self_pos, r, g2.entries[i].agent)) by {
        let a = g1.entries[i].agent;
        assert(a.valid());
        if admits(g1.geom, self_id, self_pos, r, a) {
            lemma_window_covers(g2.geom, self_pos, a, r);
        }
        if admits(g2.geom, self_id, self_pos, r, a) {
            lemma_window_covers(g1.geom, self_pos, a, r);
        }
    }
}

} // verus!
