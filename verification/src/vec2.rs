//! Planar fixed-point vectors. Components are `i64` milli-units (a world
//! coordinate of `1.0` is `1000`). The up axis (`y`) is carried through the
//! 3D type but ignored by the planar math, as the solver treats one axis as
//! vertical.

use vstd::prelude::*;
use crate::math::{abs_i, div_tz, div_i128, is_sqrt_up, lemma_div_tz, sqrt_up, sqrt_up_u128};

verus! {

/// Milli-units per world unit; also the length of a normalized vector.
pub const SCALE: i64 = 1000;

/// Headroom bound on intermediate vector components; inputs to the solver are
/// held to the tighter `MAX_COORD`, and every intermediate the pipeline forms
/// stays well inside this.
pub const MAX_MAG: i64 = 0x4_0000_0000_0000;

/// Bound on every input coordinate, velocity and setting handed to the
/// solver, in milli-units (about sixteen thousand world units).
pub const MAX_COORD: i64 = 0x100_0000;

/// A planar vector in milli-units.
#[derive(Clone, Copy, Debug, PartialEq, Eq, Structural)]
pub struct Vec2Fix {
    pub x: i64,
    pub z: i64,
}

/// A world-space vector in milli-units; `y` is the ignored up axis.
#[derive(Clone, Copy, Debug, PartialEq, Eq, Structural)]
pub struct Vec3Fix {
    pub x: i64,
    pub y: i64,
    pub z: i64,
}

impl Vec2Fix {
    /// Squared planar length.
    pub open spec fn len_sq(self) -> int {
        self.x * self.x + self.z * self.z
    }

    /// Planar dot product.
    pub open spec fn dot(self, o: Vec2Fix) -> int {
        self.x * o.x + self.z * o.z
    }

    /// Both components lie in `[-m, m]`.
    pub open spec fn bounded(self, m: int) -> bool {
        -m <= self.x <= m && -m <= self.z <= m
    }

    pub fn zero() -> (r: Vec2Fix)
        ensures
            r == (Vec2Fix { x: 0, z: 0 }),
    {
        Vec2Fix { x: 0, z: 0 }
    }

    pub fn plus(self, o: Vec2Fix) -> (r: Vec2Fix)
        requires
            i64::MIN <= self.x + o.x <= i64::MAX,
            i64::MIN <= self.z + o.z <= i64::MAX,
        ensures
            r.x == self.x + o.x,
            r.z == self.z + o.z,
    {
        Vec2Fix { x: self.x + o.x, z: self.z + o.z }
    }

    pub fn minus(self, o: Vec2Fix) -> (r: Vec2Fix)
        requires
            i64::MIN <= self.x - o.x <= i64::MAX,
            i64::MIN <= self.z - o.z <= i64::MAX,
        ensures
            r.x == self.x - o.x,
            r.z == self.z - o.z,
    {
        Vec2Fix { x: self.x - o.x, z: self.z - o.z }
    }

    /// Squared planar length, as a machine integer.
    pub fn len_sq_ex(self) -> (s: i128)
        requires
            self.bounded(MAX_MAG as int),
        ensures
            s as int == self.len_sq(),
            s >= 0,
    {
        proof {
            crate::math::lemma_sq_le(self.x as int, MAX_MAG as int);
            crate::math::lemma_sq_le(self.z as int, MAX_MAG as int);
            assert(self.x as int * self.x as int >= 0 && self.z as int * self.z as int >= 0)
                by (nonlinear_arith);
        }
        let xx: i128 = (self.x as i128) * (self.x as i128);
        let zz: i128 = (self.z as i128) * (self.z as i128);
        xx + zz
    }

    /// Planar dot product, as a machine integer.
    pub fn dot_ex(self, o: Vec2Fix) -> (d: i128)
        requires
            self.bounded(MAX_MAG as int),
            o.bounded(MAX_MAG as int),
        ensures
            d as int == self.dot(o),
    {
        proof {
            lemma_abs_prod_bound(self.x as int, o.x as int, MAX_MAG as int);
            lemma_abs_prod_bound(self.z as int, o.z as int, MAX_MAG as int);
        }
        (self.x as i128) * (o.x as i128) + (self.z as i128) * (o.z as i128)
    }

    /// Rounded-up planar length: the least `l` with `l * l >= len_sq`.
    pub fn len_up(self) -> (l: i64)
        requires
            self.bounded(MAX_MAG as int),
        ensures
            l as int == sqrt_up(self.len_sq()),
            self.len_sq() >= 1 ==> 1 <= l <= self.len_sq() && is_sqrt_up(self.len_sq(), l as int),
            self.len_sq() == 0 ==> l == 0,
            0 <= l <= 3 * MAX_MAG,
    {
        let s = self.len_sq_ex();
        let r = sqrt_up_u128(s as u128);
        proof {
            crate::math::lemma_sq_le(self.x as int, MAX_MAG as int);
            crate::math::lemma_sq_le(self.z as int, MAX_MAG as int);
            if s >= 1 {
                assert(r as int <= 3 * MAX_MAG as int) by (nonlinear_arith)
                    requires
                        (r as int - 1) * (r as int - 1) < s as int,
                        s as int <= 2 * (MAX_MAG as int * MAX_MAG as int),
                        r >= 1,
                        MAX_MAG as int == 0x4_0000_0000_0000,
                ;
            }
        }
        r as i64
    }
}

/// One component of a vector whose magnitude was clamped to `m`: unchanged
/// when the squared length is within `m * m`, else scaled by `m` over the
/// rounded-up length.
pub open spec fn clamp_comp(c: int, lsq: int, m: int) -> int {
    if lsq <= m * m {
        c
    } else {
        div_tz(c * m, sqrt_up(lsq))
    }
}

/// One component of a vector normalized to length `SCALE`: zero for the zero
/// vector, else scaled by `SCALE` over the rounded-up length.
pub open spec fn norm_comp(c: int, lsq: int) -> int {
    if lsq == 0 {
        0
    } else {
        div_tz(c * SCALE, sqrt_up(lsq))
    }
}

impl Vec2Fix {
    /// Clamp the planar magnitude to `m`: the vector is returned unchanged
    /// when already within the limit, else scaled down onto the circle of
    /// radius `m` (rounding toward zero, so never past the limit).
    pub fn clamp_len(self, m: i64) -> (r: Vec2Fix)
        requires
            0 <= m <= MAX_MAG,
            self.bounded(MAX_MAG as int),
        ensures
            r.x == clamp_comp(self.x as int, self.len_sq(), m as int),
            r.z == clamp_comp(self.z as int, self.len_sq(), m as int),
            r.len_sq() <= m * m,
            r.bounded(m as int),
            self.len_sq() <= m * m ==> r == self,
    {
        let lsq = self.len_sq_ex();
        proof {
            lemma_abs_prod_bound(m as int, m as int, MAX_MAG as int);
        }
        let mm: i128 = (m as i128) * (m as i128);
        if lsq <= mm {
            proof {
                assert(self.x as int * self.x as int <= self.len_sq()
                    && self.z as int * self.z as int <= self.len_sq()) by (nonlinear_arith);
                crate::math::lemma_abs_le(self.x as int, m as int);
                crate::math::lemma_abs_le(self.z as int, m as int);
            }
            self
        } else {
            let l = self.len_up();
            proof {
                lemma_abs_prod_bound(self.x as int, m as int, MAX_MAG as int);
                lemma_abs_prod_bound(self.z as int, m as int, MAX_MAG as int);
            }
            let rx = div_i128((self.x as i128) * (m as i128), l as i128);
            let rz = div_i128((self.z as i128) * (m as i128), l as i128);
            proof {
                let xi = self.x as int;
                let zi = self.z as int;
                let li = l as int;
                let mi = m as int;
                lemma_div_tz(xi * mi, li);
                lemma_div_tz(zi * mi, li);
                crate::math::lemma_div_tz_sq(xi * mi, li);
                crate::math::lemma_div_tz_sq(zi * mi, li);
                assert(xi * xi <= xi * xi + zi * zi && zi * zi <= xi * xi + zi * zi)
                    by (nonlinear_arith);
                crate::math::lemma_abs_le(xi, li);
                crate::math::lemma_abs_le(zi, li);
                assert(-mi <= rx as int <= mi) by (nonlinear_arith)
                    requires
                        li >= 1,
                        mi >= 0,
                        abs_i(rx as int * li) <= abs_i(xi * mi),
                        -li <= xi <= li,
                ;
                assert(-mi <= rz as int <= mi) by (nonlinear_arith)
                    requires
                        li >= 1,
                        mi >= 0,
                        abs_i(rz as int * li) <= abs_i(zi * mi),
                        -li <= zi <= li,
                ;
                crate::math::lemma_scaled_sum_sq(rx as int, rz as int, xi, zi, li, mi);
            }
            Vec2Fix { x: rx as i64, z: rz as i64 }
        }
    }

    /// Normalize to a planar vector of length `SCALE` (a unit direction in
    /// milli-units); the zero vector stays zero. For a nonzero input the
    /// result keeps a strictly positive dot product with the input.
    pub fn normalize_scaled(self) -> (n: Vec2Fix)
        requires
            self.bounded(MAX_MAG as int),
        ensures
            n.x == norm_comp(self.x as int, self.len_sq()),
            n.z == norm_comp(self.z as int, self.len_sq()),
            n.bounded(SCALE as int),
            n.len_sq() <= SCALE * SCALE,
            self.len_sq() == 0 ==> n == (Vec2Fix { x: 0, z: 0 }),
            self.len_sq() >= 1 ==> n.dot(self) >= 1,
    {
        let lsq = self.len_sq_ex();
        if lsq == 0 {
            Vec2Fix { x: 0, z: 0 }
        } else {
            let l = self.len_up();
            proof {
                lemma_abs_prod_bound(self.x as int, SCALE as int, MAX_MAG as int);
                lemma_abs_prod_bound(self.z as int, SCALE as int, MAX_MAG as int);
            }
            let nx = div_i128((self.x as i128) * (SCALE as i128), l as i128);
            let nz = div_i128((self.z as i128) * (SCALE as i128), l as i128);
            proof {
                let xi = self.x as int;
                let zi = self.z as int;
                let li = l as int;
                let si = SCALE as int;
                lemma_div_tz(xi * si, li);
                lemma_div_tz(zi * si, li);
                crate::math::lemma_div_tz_sq(xi * si, li);
                crate::math::lemma_div_tz_sq(zi * si, li);
                assert(xi * xi <= xi * xi + zi * zi && zi * zi <= xi * xi + zi * zi)
                    by (nonlinear_arith);
                crate::math::lemma_abs_le(xi, li);
                crate::math::lemma_abs_le(zi, li);
                assert(-si <= nx as int <= si) by (nonlinear_arith)
                    requires
                        li >= 1,
                        si >= 0,
                        abs_i(nx as int * li) <= abs_i(xi * si),
                        -li <= xi <= li,
                ;
                assert(-si <= nz as int <= si) by (nonlinear_arith)
                    requires
                        li >= 1,
                        si >= 0,
                        abs_i(nz as int * li) <= abs_i(zi * si),
                        -li <= zi <= li,
                ;
                crate::math::lemma_scaled_sum_sq(nx as int, nz as int, xi, zi, li, si);
                lemma_norm_dot_comp(xi, nx as int, li, si);
                lemma_norm_dot_comp(zi, nz as int, li, si);
                assert(nx as int * xi + nz as int * zi >= 1) by (nonlinear_arith)
                    requires
                        li >= 1,
                        si == 1000,
                        xi * xi + zi * zi >= 1,
                        li <= xi * xi + zi * zi,
                        (li - 1) * (li - 1) < xi * xi + zi * zi,
                        -li <= xi <= li,
                        -li <= zi <= li,
                        nx as int * xi * li >= xi * xi * si - abs_i(xi) * li,
                        nz as int * zi * li >= zi * zi * si - abs_i(zi) * li,
                ;
            }
            Vec2Fix { x: nx as i64, z: nz as i64 }
        }
    }

    /// Scale by the ratio `num / den` (truncating toward zero), used for the
    /// `1 / horizon` and `1 / dt` factors and for projections onto scaled
    /// normals.
    pub fn mul_div(self, num: i64, den: i64) -> (r: Vec2Fix)
        requires
            den >= 1,
            abs_i(self.x as int) * abs_i(num as int) <= i64::MAX,
            abs_i(self.z as int) * abs_i(num as int) <= i64::MAX,
        ensures
            r.x == div_tz(self.x * num, den as int),
            r.z == div_tz(self.z * num, den as int),
            abs_i(r.x as int) * den <= abs_i(self.x as int) * abs_i(num as int),
            abs_i(r.z as int) * den <= abs_i(self.z as int) * abs_i(num as int),
            abs_i(r.x as int) <= abs_i(self.x as int) * abs_i(num as int),
            abs_i(r.z as int) <= abs_i(self.z as int) * abs_i(num as int),
    {
        proof {
            lemma_abs_prod_bound2(self.x as int, num as int, abs_i(self.x as int), abs_i(num as int));
            lemma_abs_prod_bound2(self.z as int, num as int, abs_i(self.z as int), abs_i(num as int));
        }
        let rx = div_i128((self.x as i128) * (num as i128), den as i128);
        let rz = div_i128((self.z as i128) * (num as i128), den as i128);
        proof {
            lemma_div_tz(self.x as int * num as int, den as int);
            lemma_div_tz(self.z as int * num as int, den as int);
            assert(abs_i(self.x as int * num as int) == abs_i(self.x as int) * abs_i(num as int)
                && abs_i(self.z as int * num as int) == abs_i(self.z as int) * abs_i(num as int))
                by (nonlinear_arith);
            assert(abs_i(rx as int) * den as int == abs_i(rx as int * den as int)
                && abs_i(rz as int) * den as int == abs_i(rz as int * den as int))
                by (nonlinear_arith)
                requires
                    den as int >= 1,
            ;
        }
        Vec2Fix { x: rx as i64, z: rz as i64 }
    }

    /// Add with each component saturating at `MAX_MAG`, used when summing the
    /// uncapped separation impulses: the final magnitude clamp dominates any
    /// value this large.
    pub fn plus_sat(self, o: Vec2Fix) -> (r: Vec2Fix)
        requires
            self.bounded(MAX_MAG as int),
            o.bounded(MAX_MAG as int),
        ensures
            r.x == sat_mag(self.x + o.x),
            r.z == sat_mag(self.z + o.z),
            r.bounded(MAX_MAG as int),
    {
        let x: i64 = self.x + o.x;
        let z: i64 = self.z + o.z;
        let rx: i64 = if x > MAX_MAG { MAX_MAG } else if x < -MAX_MAG { -MAX_MAG } else { x };
        let rz: i64 = if z > MAX_MAG { MAX_MAG } else if z < -MAX_MAG { -MAX_MAG } else { z };
        Vec2Fix { x: rx, z: rz }
    }
}

/// A value pinned to `[-MAX_MAG, MAX_MAG]`, keeping its sign.
pub open spec fn sat_mag(v: int) -> int {
    if v > MAX_MAG {
        MAX_MAG as int
    } else if v < -MAX_MAG {
        -(MAX_MAG as int)
    } else {
        v
    }
}

/// A normalized pair is a near-unit direction: once the input is at least
/// four milli-units long, the squared length of its normalization lies
/// between `810000 * (sqrt_up(lsq) - 2)^2 / lsq` (just under `SCALE^2` for
/// all but the shortest inputs) and `SCALE^2`.
pub proof fn lemma_norm_comp_near_unit(x: int, z: int)
    requires
        x * x + z * z >= 16,
    ensures
        ({
            let lsq = x * x + z * z;
            let nx = norm_comp(x, lsq);
            let nz = norm_comp(z, lsq);
            let el = sqrt_up(lsq);
            nx * nx + nz * nz <= SCALE * SCALE && (nx * nx + nz * nz) * lsq >= 810000 * ((el - 2)
                * (el - 2))
        }),
{
    let lsq = x * x + z * z;
    crate::math::lemma_sqrt_up_exists(lsq);
    let el = sqrt_up(lsq);
    assert(el >= 4) by (nonlinear_arith)
        requires
            el >= 1,
            el * el >= lsq,
            lsq >= 16,
            (el - 1) * (el - 1) < lsq,
    ;
    let nx = norm_comp(x, lsq);
    let nz = norm_comp(z, lsq);
    lemma_div_tz(x * 1000, el);
    lemma_div_tz(z * 1000, el);
    crate::math::lemma_div_tz_sq(x * 1000, el);
    crate::math::lemma_div_tz_sq(z * 1000, el);
    assert((x * 1000) * (x * 1000) == (x * SCALE as int) * (x * SCALE as int) && (z * 1000) * (z
        * 1000) == (z * SCALE as int) * (z * SCALE as int)) by (nonlinear_arith);
    crate::math::lemma_scaled_sum_sq(nx, nz, x, z, el, SCALE as int);
    assert(x * x <= lsq && z * z <= lsq) by (nonlinear_arith)
        requires
            lsq == x * x + z * z,
    ;
    crate::math::lemma_abs_le(x, el);
    crate::math::lemma_abs_le(z, el);
    lemma_norm_dot_comp(x, nx, el, 1000);
    lemma_norm_dot_comp(z, nz, el, 1000);
    let dd = nx * x + nz * z;
    assert(dd * el >= lsq * 1000 - (abs_i(x) + abs_i(z)) * el) by (nonlinear_arith)
        requires
            dd == nx * x + nz * z,
            lsq == x * x + z * z,
            nx * x * el >= x * x * 1000 - abs_i(x) * el,
            nz * z * el >= z * z * 1000 - abs_i(z) * el,
    ;
    assert(dd >= 900 * (el - 2)) by (nonlinear_arith)
        requires
            el >= 4,
            dd * el >= lsq * 1000 - (abs_i(x) + abs_i(z)) * el,
            abs_i(x) <= el,
            abs_i(z) <= el,
            0 <= abs_i(x),
            0 <= abs_i(z),
            lsq > (el - 1) * (el - 1),
    ;
    assert(dd * dd <= (nx * nx + nz * nz) * lsq) by (nonlinear_arith)
        requires
            dd == nx * x + nz * z,
            lsq == x * x + z * z,
    ;
    assert((nx * nx + nz * nz) * lsq >= 810000 * ((el - 2) * (el - 2))) by (nonlinear_arith)
        requires
            dd >= 900 * (el - 2),
            el >= 4,
            dd * dd <= (nx * nx + nz * nz) * lsq,
    ;
}

/// For one component `c`, the normalized component `nc` (rounded toward zero
/// from `c * s / l`) satisfies `nc * c * l >= c * c * s - |c| * l`.
pub proof fn lemma_norm_dot_comp(c: int, nc: int, l: int, s: int)
    by (nonlinear_arith)
    requires
        l >= 1,
        s >= 1,
        nc * l > c * s - l,
        nc * l < c * s + l,
    ensures
        nc * c * l >= c * c * s - abs_i(c) * l,
{
}

impl Vec3Fix {
    /// The planar part, dropping the up axis.
    pub open spec fn planar_spec(self) -> Vec2Fix {
        Vec2Fix { x: self.x, z: self.z }
    }

    /// All three components lie in `[-m, m]`.
    pub open spec fn bounded3(self, m: int) -> bool {
        -m <= self.x <= m && -m <= self.y <= m && -m <= self.z <= m
    }

    /// Squared 3D distance to another point.
    pub open spec fn dist_sq3(self, o: Vec3Fix) -> int {
        (self.x - o.x) * (self.x - o.x) + (self.y - o.y) * (self.y - o.y) + (self.z - o.z) * (self.z - o.z)
    }

    pub fn zero() -> (r: Vec3Fix)
        ensures
            r == (Vec3Fix { x: 0, y: 0, z: 0 }),
    {
        Vec3Fix { x: 0, y: 0, z: 0 }
    }

    /// The planar part, dropping the up axis.
    pub fn planar(self) -> (r: Vec2Fix)
        ensures
            r == self.planar_spec(),
    {
        Vec2Fix { x: self.x, z: self.z }
    }

    /// Lift a planar vector back to world space with no vertical component.
    pub fn from_planar(v: Vec2Fix) -> (r: Vec3Fix)
        ensures
            r == (Vec3Fix { x: v.x, y: 0, z: v.z }),
    {
        Vec3Fix { x: v.x, y: 0, z: v.z }
    }

    /// Squared 3D distance, as a machine integer.
    pub fn dist_sq3_ex(self, o: Vec3Fix) -> (d: i128)
        requires
            self.bounded3(MAX_MAG as int),
            o.bounded3(MAX_MAG as int),
        ensures
            d as int == self.dist_sq3(o),
            d >= 0,
    {
        let dx: i64 = self.x - o.x;
        let dy: i64 = self.y - o.y;
        let dz: i64 = self.z - o.z;
        proof {
            crate::math::lemma_sq_abs(dx as int, 2 * MAX_MAG as int);
            crate::math::lemma_sq_abs(dy as int, 2 * MAX_MAG as int);
            crate::math::lemma_sq_abs(dz as int, 2 * MAX_MAG as int);
            assert(dx as int * dx as int >= 0 && dy as int * dy as int >= 0
                && dz as int * dz as int >= 0) by (nonlinear_arith);
        }
        (dx as i128) * (dx as i128) + (dy as i128) * (dy as i128) + (dz as i128) * (dz as i128)
    }
}

/// `|a * b| <= m * m` when both magnitudes are at most `m`.
pub proof fn lemma_abs_prod_bound(a: int, b: int, m: int)
    by (nonlinear_arith)
    requires
        -m <= a <= m,
        -m <= b <= m,
    ensures
        -(m * m) <= a * b <= m * m,
{
}

/// `|a * b| <= ma * mb` when `|a| <= ma` and `|b| <= mb`.
pub proof fn lemma_abs_prod_bound2(a: int, b: int, ma: int, mb: int)
    by (nonlinear_arith)
    requires
        -ma <= a <= ma,
        -mb <= b <= mb,
    ensures
        -(ma * mb) <= a * b <= ma * mb,
{
}

} // verus!
