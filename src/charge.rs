//! Point charges and the field they produce, sampled at single points.
//!
//! A charge `q` at `c` contributes, at a point `p` with `d = p - c`:
//! force `K q d / |d|^3`, signed strength `K q / |d|^2` and potential
//! `K q / |d|`, with `K = FIELD_SCALE_FACTOR`. At `p == c` the field is
//! undefined; such a charge contributes nothing there. Several charges
//! superpose by adding force vectors and potentials; the magnitude of the sum
//! is recomputed as the norm of the summed force vector.

use vstd::prelude::*;
use crate::fixed::{SCALE, SQRT_INPUT_LIMIT, abs, div_away, div_away_exec, lemma_div_away, lemma_mul_abs_bound,
    sqrt_floor,
    sqrt_floor_spec};
use crate::arrow::Arrow3;
use crate::field::{Preset, VectorField, arrows_of, sample_ok};
use crate::geometry::{Point3, fits_i64};

verus! {

/// Scale factor of the field strength, chosen for convenient visual ranges.
pub const FIELD_SCALE_FACTOR: i64 = 10000;

/// Largest magnitude of a charge, in fixed-point units (100.0).
pub const CHARGE_MAX: i64 = 100_000;

/// Largest magnitude of a coordinate at which the field is evaluated.
pub const COORD_MAX: i64 = 0x100_0000_0000;

/// Largest number of charges whose field is superposed.
pub const MAX_CHARGES: usize = 1024;

/// Bound on each force component produced by one charge.
pub const PART_MAX: i64 = 1_000_000_000_000_000;

/// The coordinates of `p` are within `COORD_MAX`.
pub open spec fn in_bounds(p: Point3) -> bool {
    -COORD_MAX <= p.x <= COORD_MAX && -COORD_MAX <= p.y <= COORD_MAX && -COORD_MAX <= p.z <= COORD_MAX
}

/// A signed point charge at a location.
#[derive(Clone, Copy, Debug, PartialEq, Eq, Structural)]
pub struct PointCharge {
    pub charge: i64,
    pub loc: Point3,
}

impl PointCharge {
    pub fn new(charge: i64, loc: Point3) -> (r: PointCharge)
        ensures
            r == (PointCharge { charge, loc }),
    {
        PointCharge { charge, loc }
    }

    /// The charge and its location are within the allowed ranges.
    pub open spec fn wf(self) -> bool {
        -CHARGE_MAX <= self.charge <= CHARGE_MAX && in_bounds(self.loc)
    }

    /// Coordinate `i` of `p - loc`.
    pub open spec fn offset(self, p: Point3, i: int) -> int {
        p.coord(i) - self.loc.coord(i)
    }

    /// `|p - loc|^2`.
    pub open spec fn dist_sq(self, p: Point3) -> int {
        self.offset(p, 0) * self.offset(p, 0) + self.offset(p, 1) * self.offset(p, 1) + self.offset(p, 2)
            * self.offset(p, 2)
    }

    /// `K q`, scaled for fixed-point force components.
    pub open spec fn strength(self) -> int {
        FIELD_SCALE_FACTOR * self.charge * SCALE * SCALE
    }

    /// Force component `i` at `p`: `K q d_i / |d|^3`.
    pub open spec fn force_part(self, p: Point3, i: int) -> int {
        let d2 = self.dist_sq(p);
        if d2 == 0 {
            0
        } else {
            div_away(self.strength() * self.offset(p, i), d2 * sqrt_floor_spec(d2))
        }
    }

    /// Signed field strength at `p`: `K q / |d|^2`.
    pub open spec fn magnitude_part(self, p: Point3) -> int {
        let d2 = self.dist_sq(p);
        if d2 == 0 {
            0
        } else {
            div_away(self.strength(), d2)
        }
    }

    /// Potential at `p`: `K q / |d|`.
    pub open spec fn potential_part(self, p: Point3) -> int {
        let d2 = self.dist_sq(p);
        if d2 == 0 {
            0
        } else {
            div_away(FIELD_SCALE_FACTOR * self.charge * SCALE, sqrt_floor_spec(d2))
        }
    }
}

/// Sum of `w` over the charges.
pub open spec fn sum_by(cs: Seq<PointCharge>, w: spec_fn(PointCharge) -> int) -> int
    decreases cs.len(),
{
    if cs.len() == 0 {
        0
    } else {
        sum_by(cs.drop_last(), w) + w(cs.last())
    }
}

/// Component `i` of the summed force of `cs` at `p`.
pub open spec fn total_force(cs: Seq<PointCharge>, p: Point3, i: int) -> int {
    sum_by(cs, |c: PointCharge| c.force_part(p, i))
}

/// The summed potential of `cs` at `p`.
pub open spec fn total_potential(cs: Seq<PointCharge>, p: Point3) -> int {
    sum_by(cs, |c: PointCharge| c.potential_part(p))
}

/// Squared norm of a force vector.
pub open spec fn norm_sq(v: Point3) -> int {
    v.x * v.x + v.y * v.y + v.z * v.z
}

/// The samples of the field of `cs` on the preset's lattice.
pub open spec fn charge_samples(cs: Seq<PointCharge>, preset: Preset) -> Seq<(Point3, FieldData)> {
    Seq::new(
        preset.count() as nat,
        |n: int| (preset.lattice_point(n), field_spec(cs, preset.lattice_point(n))),
    )
}

/// The freshly computed arrows of the charges `cs` under `preset`.
pub open spec fn arrows_spec(cs: Seq<PointCharge>, preset: Preset) -> Seq<Arrow3> {
    arrows_of(preset, charge_samples(cs, preset))
}

/// The superposed field of `cs` at `p`, with the magnitude recomputed from
/// the summed force vector.
pub open spec fn field_spec(cs: Seq<PointCharge>, p: Point3) -> FieldData {
    let f = Point3 {
        x: total_force(cs, p, 0) as i64,
        y: total_force(cs, p, 1) as i64,
        z: total_force(cs, p, 2) as i64,
    };
    FieldData { force_vec: f, force_mag: sqrt_floor_spec(norm_sq(f)) as i64, potential: total_potential(cs, p) as i64 }
}

/// The field at one point: force vector, its magnitude, and the potential.
#[derive(Clone, Copy, Debug, PartialEq, Eq, Structural)]
pub struct FieldData {
    pub force_vec: Point3,
    pub force_mag: i64,
    pub potential: i64,
}

impl PointCharge {
    /// The field of this charge alone at `p`.
    pub fn field_data_at(&self, p: &Point3) -> (r: FieldData)
        requires
            self.wf(),
            in_bounds(*p),
        ensures
            r.force_vec.x == self.force_part(*p, 0),
            r.force_vec.y == self.force_part(*p, 1),
            r.force_vec.z == self.force_part(*p, 2),
            r.force_mag == self.magnitude_part(*p),
            r.potential == self.potential_part(*p),
            -PART_MAX <= r.force_vec.x <= PART_MAX,
            -PART_MAX <= r.force_vec.y <= PART_MAX,
            -PART_MAX <= r.force_vec.z <= PART_MAX,
            -PART_MAX <= r.potential <= PART_MAX,
            self.dist_sq(*p) > 0 && self.charge > 0 ==> r.potential > 0 && r.force_mag > 0
                && self.force_along_offset(*p) > 0,
            self.dist_sq(*p) > 0 && self.charge < 0 ==> r.potential < 0 && r.force_mag < 0
                && self.force_along_offset(*p) < 0,
    {
        let dx: i128 = p.x as i128 - self.loc.x as i128;
        let dy: i128 = p.y as i128 - self.loc.y as i128;
        let dz: i128 = p.z as i128 - self.loc.z as i128;
        let ghost bd: int = 0x200_0000_0000;
        proof {
            lemma_mul_abs_bound(dx as int, dx as int, bd, bd);
            lemma_mul_abs_bound(dy as int, dy as int, bd, bd);
            lemma_mul_abs_bound(dz as int, dz as int, bd, bd);
            assert(dx == self.offset(*p, 0) && dy == self.offset(*p, 1) && dz == self.offset(*p, 2));
            assert(0 <= dx * dx && 0 <= dy * dy && 0 <= dz * dz) by (nonlinear_arith);
            assert(bd * bd * 3 < SQRT_INPUT_LIMIT);
        }
        let d2: i128 = dx * dx + dy * dy + dz * dz;
        if d2 == 0 {
            return FieldData { force_vec: Point3 { x: 0, y: 0, z: 0 }, force_mag: 0, potential: 0 };
        }
        let dist: i128 = sqrt_floor(d2 as u128) as i128;
        let ghost kq: int = self.strength();
        proof {
            assert(d2 > 0 && dx * dx >= 0 && dy * dy >= 0 && dz * dz >= 0) by (nonlinear_arith)
                requires d2 == dx * dx + dy * dy + dz * dz, d2 != 0;
            assert(dist >= 1) by (nonlinear_arith)
                requires dist >= 0, d2 >= 1, d2 < (dist + 1) * (dist + 1);
            assert(d2 < 4 * bd * bd);
            assert(dist < 2 * bd) by (nonlinear_arith)
                requires dist * dist <= d2, d2 < 4 * bd * bd, dist >= 0, bd > 0;
            lemma_mul_abs_bound(d2 as int, dist as int, 4 * bd * bd, 2 * bd);
            assert(4 * bd * bd * (2 * bd) < 0x7fff_ffff_ffff_ffff_ffff_ffff_ffff_ffff);
            crate::fixed::lemma_abs_le_sqrt_floor(dx as int, d2 as int, dist as int);
            crate::fixed::lemma_abs_le_sqrt_floor(dy as int, d2 as int, dist as int);
            crate::fixed::lemma_abs_le_sqrt_floor(dz as int, d2 as int, dist as int);
            assert(abs(kq) <= PART_MAX);
        }
        let k: i128 = FIELD_SCALE_FACTOR as i128 * self.charge as i128 * SCALE as i128 * SCALE as i128;
        let den: i128 = d2 * dist;
        proof {
            assert(dist <= den) by (nonlinear_arith)
                requires den == d2 * dist, d2 >= 1, dist >= 1;
            lemma_part_bound(kq, dx as int, dist as int, den as int);
            lemma_part_bound(kq, dy as int, dist as int, den as int);
            lemma_part_bound(kq, dz as int, dist as int, den as int);
            lemma_mul_abs_bound(k as int, dx as int, PART_MAX as int, 0x200_0000_0000);
            lemma_mul_abs_bound(k as int, dy as int, PART_MAX as int, 0x200_0000_0000);
            lemma_mul_abs_bound(k as int, dz as int, PART_MAX as int, 0x200_0000_0000);
            assert(abs(kq) <= PART_MAX * d2) by (nonlinear_arith)
                requires abs(kq) <= PART_MAX, d2 >= 1;
            let kp = FIELD_SCALE_FACTOR * self.charge * SCALE;
            assert(abs(kp) <= PART_MAX * dist) by (nonlinear_arith)
                requires abs(kp) <= 1_000_000_000_000, dist >= 1, kp == FIELD_SCALE_FACTOR * self.charge * SCALE, PART_MAX == 1_000_000_000_000_000;
            lemma_div_away(kq * dx, den as int, PART_MAX as int);
            lemma_div_away(kq * dy, den as int, PART_MAX as int);
            lemma_div_away(kq * dz, den as int, PART_MAX as int);
            lemma_div_away(kq, d2 as int, PART_MAX as int);
            lemma_div_away(kp, dist as int, PART_MAX as int);
        }
        let fx = div_away_exec(k * dx, den);
        let fy = div_away_exec(k * dy, den);
        let fz = div_away_exec(k * dz, den);
        let mag = div_away_exec(k, d2);
        let pot = div_away_exec(FIELD_SCALE_FACTOR as i128 * self.charge as i128 * SCALE as i128, dist);
        proof {
            assert(sqrt_floor_spec(d2 as int) == dist);
            assert(self.dist_sq(*p) == d2);
            lemma_part_signs(*self, *p);
            lemma_force_sign(*self, *p);
        }
        FieldData {
            force_vec: Point3 { x: fx as i64, y: fy as i64, z: fz as i64 },
            force_mag: mag as i64,
            potential: pot as i64,
        }
    }
}

/// Bound on each superposed force component and potential.
pub const SUM_MAX: i64 = 1_024_000_000_000_000_000;

/// Bound on each force component that `FieldData::update_norm` accepts.
pub const NORM_INPUT_MAX: i64 = 0x4000_0000_0000_0000;

impl FieldData {
    pub fn new(force_vec: Point3, force_mag: i64, potential: i64) -> (r: FieldData)
        ensures
            r == (FieldData { force_vec, force_mag, potential }),
    {
        FieldData { force_vec, force_mag, potential }
    }

    /// The field of no charge at all.
    pub fn zero() -> (r: FieldData)
        ensures
            r == (FieldData { force_vec: Point3 { x: 0, y: 0, z: 0 }, force_mag: 0, potential: 0 }),
    {
        FieldData { force_vec: Point3 { x: 0, y: 0, z: 0 }, force_mag: 0, potential: 0 }
    }

    /// Force vector and potential are both zero.
    pub fn is_zero(&self) -> (r: bool)
        ensures
            r == (self.force_vec.x == 0 && self.force_vec.y == 0 && self.force_vec.z == 0 && self.potential == 0),
    {
        self.force_vec.x == 0 && self.force_vec.y == 0 && self.force_vec.z == 0 && self.potential == 0
    }

    /// Adds force vectors and potentials. The magnitude is not a sum: it is
    /// kept from `self` and must be recomputed with `update_norm`.
    pub fn add(self, right: FieldData) -> (r: FieldData)
        requires
            fits_i64(self.force_vec.x + right.force_vec.x),
            fits_i64(self.force_vec.y + right.force_vec.y),
            fits_i64(self.force_vec.z + right.force_vec.z),
            fits_i64(self.potential + right.potential),
        ensures
            r == add_spec(self, right),
            r.force_vec.x == self.force_vec.x + right.force_vec.x,
            r.force_vec.y == self.force_vec.y + right.force_vec.y,
            r.force_vec.z == self.force_vec.z + right.force_vec.z,
            r.potential == self.potential + right.potential,
            r.force_mag == self.force_mag,
    {
        FieldData {
            force_vec: Point3 {
                x: self.force_vec.x + right.force_vec.x,
                y: self.force_vec.y + right.force_vec.y,
                z: self.force_vec.z + right.force_vec.z,
            },
            force_mag: self.force_mag,
            potential: self.potential + right.potential,
        }
    }

    /// Sets the magnitude to the (floor) norm of the force vector.
    pub fn update_norm(&mut self)
        requires
            -NORM_INPUT_MAX <= old(self).force_vec.x <= NORM_INPUT_MAX,
            -NORM_INPUT_MAX <= old(self).force_vec.y <= NORM_INPUT_MAX,
            -NORM_INPUT_MAX <= old(self).force_vec.z <= NORM_INPUT_MAX,
        ensures
            final(self).force_vec == old(self).force_vec,
            final(self).potential == old(self).potential,
            final(self).force_mag == sqrt_floor_spec(norm_sq(old(self).force_vec)),
            final(self).force_mag >= 0,
    {
        let x = self.force_vec.x as i128;
        let y = self.force_vec.y as i128;
        let z = self.force_vec.z as i128;
        proof {
            let b = NORM_INPUT_MAX as int;
            lemma_mul_abs_bound(x as int, x as int, b, b);
            lemma_mul_abs_bound(y as int, y as int, b, b);
            lemma_mul_abs_bound(z as int, z as int, b, b);
            assert(0 <= x * x && 0 <= y * y && 0 <= z * z) by (nonlinear_arith);
            assert(3 * b * b < SQRT_INPUT_LIMIT);
        }
        let n = (x * x + y * y + z * z) as u128;
        self.force_mag = sqrt_floor(n) as i64;
    }
}

/// Field-wise sum of force vectors and potentials; the magnitude is kept from `a`.
pub open spec fn add_spec(a: FieldData, b: FieldData) -> FieldData {
    FieldData {
        force_vec: Point3 {
            x: (a.force_vec.x + b.force_vec.x) as i64,
            y: (a.force_vec.y + b.force_vec.y) as i64,
            z: (a.force_vec.z + b.force_vec.z) as i64,
        },
        force_mag: a.force_mag,
        potential: (a.potential + b.potential) as i64,
    }
}

/// Adding two samples gives the same force vector and potential in either order.
pub proof fn lemma_add_commutes(a: FieldData, b: FieldData)
    ensures
        add_spec(a, b).force_vec == add_spec(b, a).force_vec,
        add_spec(a, b).potential == add_spec(b, a).potential,
{
}

/// `sum_by` over `cs` equals `sum_by` over `cs` without element `j`, plus `w(cs[j])`.
proof fn lemma_sum_by_remove(cs: Seq<PointCharge>, j: int, w: spec_fn(PointCharge) -> int)
    requires
        0 <= j < cs.len(),
    ensures
        sum_by(cs, w) == sum_by(cs.remove(j), w) + w(cs[j]),
    decreases cs.len(),
{
    if j == cs.len() - 1 {
        assert(cs.remove(j) =~= cs.drop_last());
    } else {
        lemma_sum_by_remove(cs.drop_last(), j, w);
        assert(cs.drop_last().remove(j) =~= cs.remove(j).drop_last());
        assert(cs.remove(j).last() == cs.last());
    }
}

/// `sum_by` does not depend on the order of the charges.
pub proof fn lemma_sum_by_permutation(cs1: Seq<PointCharge>, cs2: Seq<PointCharge>, w: spec_fn(PointCharge) -> int)
    requires
        cs1.to_multiset() == cs2.to_multiset(),
    ensures
        sum_by(cs1, w) == sum_by(cs2, w),
    decreases cs1.len(),
{
    broadcast use vstd::seq_lib::group_to_multiset_ensures;
    if cs1.len() == 0 {
        assert(cs1.len() == cs1.to_multiset().len());
        assert(cs2.len() == cs2.to_multiset().len());
    } else {
        let x = cs1.last();
        assert(cs1.drop_last().push(x) =~= cs1);
        assert(cs1.to_multiset() =~= cs1.drop_last().to_multiset().insert(x));
        assert(cs2.to_multiset().count(x) > 0);
        assert(cs2.contains(x));
        let j = cs2.index_of(x);
        assert(cs2.remove(j).to_multiset() =~= cs2.to_multiset().remove(x));
        assert(cs1.drop_last().to_multiset() =~= cs2.remove(j).to_multiset());
        lemma_sum_by_permutation(cs1.drop_last(), cs2.remove(j), w);
        lemma_sum_by_remove(cs2, j, w);
    }
}

/// Superposition does not depend on the order of the charges: any
/// rearrangement of the same charges gives the same summed force vector and
/// the same summed potential at every point.
pub proof fn lemma_superposition_order(cs1: Seq<PointCharge>, cs2: Seq<PointCharge>, p: Point3)
    requires
        cs1.to_multiset() == cs2.to_multiset(),
    ensures
        total_force(cs1, p, 0) == total_force(cs2, p, 0),
        total_force(cs1, p, 1) == total_force(cs2, p, 1),
        total_force(cs1, p, 2) == total_force(cs2, p, 2),
        total_potential(cs1, p) == total_potential(cs2, p),
{
    lemma_sum_by_permutation(cs1, cs2, |c: PointCharge| c.force_part(p, 0));
    lemma_sum_by_permutation(cs1, cs2, |c: PointCharge| c.force_part(p, 1));
    lemma_sum_by_permutation(cs1, cs2, |c: PointCharge| c.force_part(p, 2));
    lemma_sum_by_permutation(cs1, cs2, |c: PointCharge| c.potential_part(p));
}

/// Two charges of equal magnitude and opposite sign, placed symmetrically
/// about the origin on the x axis, give exactly zero potential at the origin,
/// and a force there that points along the x axis, from the positive charge
/// toward the negative one, worth exactly twice the force of either charge:
/// for `d > 0`, twice the strength `K q / d^2` of the first charge there.
pub proof fn lemma_opposite_pair_at_origin(q: i64, d: i64)
    ensures ({
        let cs = seq![
            PointCharge { charge: q, loc: Point3 { x: (-d) as i64, y: 0, z: 0 } },
            PointCharge { charge: (-q) as i64, loc: Point3 { x: d, y: 0, z: 0 } },
        ];
        let o = Point3 { x: 0, y: 0, z: 0 };
        -i64::MAX <= q && -i64::MAX <= d ==> {
            &&& total_potential(cs, o) == 0
            &&& total_force(cs, o, 1) == 0
            &&& total_force(cs, o, 2) == 0
            &&& total_force(cs, o, 0) == 2 * cs[0].force_part(o, 0)
            &&& q * d > 0 ==> total_force(cs, o, 0) > 0
            &&& q * d < 0 ==> total_force(cs, o, 0) < 0
            &&& d > 0 ==> total_force(cs, o, 0) == 2 * cs[0].magnitude_part(o)
        }
    }),
{
    let a = PointCharge { charge: q, loc: Point3 { x: (-d) as i64, y: 0, z: 0 } };
    let b = PointCharge { charge: (-q) as i64, loc: Point3 { x: d, y: 0, z: 0 } };
    let cs = seq![a, b];
    let o = Point3 { x: 0, y: 0, z: 0 };
    if -i64::MAX <= q && -i64::MAX <= d {
        assert(cs.drop_last() =~= seq![a]);
        assert(seq![a].drop_last() =~= Seq::<PointCharge>::empty());
        assert(a.offset(o, 0) == d && b.offset(o, 0) == -d);
        assert(d * d == (-d) * (-d)) by (nonlinear_arith);
        assert(a.dist_sq(o) == b.dist_sq(o));
        reveal_with_fuel(sum_by, 3);
        let k = FIELD_SCALE_FACTOR * q * SCALE;
        assert(FIELD_SCALE_FACTOR * b.charge * SCALE == -k) by (nonlinear_arith)
            requires b.charge == -q, k == FIELD_SCALE_FACTOR * q * SCALE;
        let r = sqrt_floor_spec(a.dist_sq(o));
        if a.dist_sq(o) != 0 {
            assert(a.dist_sq(o) > 0) by (nonlinear_arith)
                requires a.dist_sq(o) == d * d + 0 * 0 + 0 * 0, a.dist_sq(o) != 0;
            crate::fixed::lemma_sqrt_floor_exists(a.dist_sq(o));
            assert(r >= 1) by (nonlinear_arith)
                requires r >= 0, a.dist_sq(o) >= 1, a.dist_sq(o) < (r + 1) * (r + 1);
            lemma_div_away(k, r, 0);
            assert(a.dist_sq(o) * r > 0) by (nonlinear_arith)
                requires a.dist_sq(o) >= 1, r >= 1;
            vstd::arithmetic::div_mod::lemma_div_basics(a.dist_sq(o) * r);
        }
        assert(a.potential_part(o) + b.potential_part(o) == 0);
        assert(a.force_part(o, 1) == 0 && b.force_part(o, 1) == 0);
        assert(a.force_part(o, 2) == 0 && b.force_part(o, 2) == 0);
        assert(a.offset(o, 1) == 0 && a.offset(o, 2) == 0 && b.offset(o, 1) == 0 && b.offset(o, 2) == 0);
        assert(a.strength() * 0 == 0 && b.strength() * 0 == 0) by (nonlinear_arith);
        assert(total_potential(cs, o) == a.potential_part(o) + b.potential_part(o));
        assert(total_force(cs, o, 1) == a.force_part(o, 1) + b.force_part(o, 1));
        assert(total_force(cs, o, 2) == a.force_part(o, 2) + b.force_part(o, 2));
        assert(total_force(cs, o, 0) == a.force_part(o, 0) + b.force_part(o, 0));
        assert(b.strength() * b.offset(o, 0) == a.strength() * a.offset(o, 0)) by (nonlinear_arith)
            requires
                b.charge == -q, a.charge == q, a.offset(o, 0) == d, b.offset(o, 0) == -d,
                a.strength() == FIELD_SCALE_FACTOR * a.charge * SCALE * SCALE,
                b.strength() == FIELD_SCALE_FACTOR * b.charge * SCALE * SCALE;
        assert(b.force_part(o, 0) == a.force_part(o, 0));
        if d > 0 {
            let d2 = a.dist_sq(o);
            assert(d2 == d * d && d2 > 0) by (nonlinear_arith)
                requires d2 == d * d + 0 * 0 + 0 * 0, d > 0;
            assert(crate::fixed::is_sqrt_floor(d2, d as int)) by (nonlinear_arith)
                requires d2 == d * d, d > 0;
            crate::fixed::lemma_sqrt_floor_spec(d2, d as int);
            crate::fixed::lemma_div_away_scale(a.strength(), d2, d as int);
        }
        if q * d != 0 {
            assert(d != 0) by (nonlinear_arith)
                requires q * d != 0;
            assert(a.dist_sq(o) > 0) by (nonlinear_arith)
                requires a.dist_sq(o) == d * d + 0 * 0 + 0 * 0, d != 0;
            lemma_part_signs(a, o);
            assert(a.charge * a.offset(o, 0) == q * d);
        }
    }
}

impl PointCharge {
    /// The force at `p` dotted with `p - loc`.
    pub open spec fn force_along_offset(self, p: Point3) -> int {
        self.force_part(p, 0) * self.offset(p, 0) + self.force_part(p, 1) * self.offset(p, 1) + self.force_part(p, 2)
            * self.offset(p, 2)
    }
}

/// Each force component of one charge has the sign of the charge times the
/// offset along that axis; the strength and the potential have the sign of
/// the charge. Nothing nonzero rounds to zero.
pub proof fn lemma_part_signs(c: PointCharge, p: Point3)
    requires
        c.dist_sq(p) > 0,
    ensures
        forall|i: int|
            0 <= i < 3 ==> {
                &&& c.charge * c.offset(p, i) > 0 ==> #[trigger] c.force_part(p, i) > 0
                &&& c.charge * c.offset(p, i) < 0 ==> c.force_part(p, i) < 0
                &&& c.charge * c.offset(p, i) == 0 ==> c.force_part(p, i) == 0
            },
        c.charge > 0 ==> c.potential_part(p) > 0 && c.magnitude_part(p) > 0,
        c.charge < 0 ==> c.potential_part(p) < 0 && c.magnitude_part(p) < 0,
        c.charge == 0 ==> c.potential_part(p) == 0 && c.magnitude_part(p) == 0,
{
    let d2 = c.dist_sq(p);
    let r = sqrt_floor_spec(d2);
    crate::fixed::lemma_sqrt_floor_exists(d2);
    assert(r >= 1) by (nonlinear_arith)
        requires d2 >= 1, r >= 0, d2 < (r + 1) * (r + 1);
    assert(d2 * r > 0) by (nonlinear_arith)
        requires d2 >= 1, r >= 1;
    assert forall|i: int| 0 <= i < 3 implies {
        &&& c.charge * c.offset(p, i) > 0 ==> #[trigger] c.force_part(p, i) > 0
        &&& c.charge * c.offset(p, i) < 0 ==> c.force_part(p, i) < 0
        &&& c.charge * c.offset(p, i) == 0 ==> c.force_part(p, i) == 0
    } by {
        let num = c.strength() * c.offset(p, i);
        let qo = c.charge * c.offset(p, i);
        assert(num == (FIELD_SCALE_FACTOR * SCALE * SCALE) * qo) by (nonlinear_arith)
            requires num == FIELD_SCALE_FACTOR * c.charge * SCALE * SCALE * c.offset(p, i), qo == c.charge * c.offset(p, i);
        assert(qo > 0 ==> num > 0) by (nonlinear_arith)
            requires num == (FIELD_SCALE_FACTOR * SCALE * SCALE) * qo, FIELD_SCALE_FACTOR * SCALE * SCALE > 0;
        assert(qo < 0 ==> num < 0) by (nonlinear_arith)
            requires num == (FIELD_SCALE_FACTOR * SCALE * SCALE) * qo, FIELD_SCALE_FACTOR * SCALE * SCALE > 0;
        lemma_div_away(num, d2 * r, 0);
    }
    let k = FIELD_SCALE_FACTOR * c.charge * SCALE;
    assert(c.charge > 0 ==> k > 0 && c.strength() > 0);
    assert(c.charge < 0 ==> k < 0 && c.strength() < 0);
    lemma_div_away(k, r, 0);
    lemma_div_away(c.strength(), d2, 0);
}

/// The force of one charge at `p`, dotted with `p - loc`, has the sign of
/// the charge: it points away from a positive charge and toward a negative one.
pub proof fn lemma_force_sign(c: PointCharge, p: Point3)
    requires
        c.dist_sq(p) > 0,
    ensures
        c.charge > 0 ==> c.force_along_offset(p) > 0,
        c.charge < 0 ==> c.force_along_offset(p) < 0,
{
    lemma_part_signs(c, p);
    let a = c.force_part(p, 0);
    let b = c.force_part(p, 1);
    let e = c.force_part(p, 2);
    let o0 = c.offset(p, 0);
    let o1 = c.offset(p, 1);
    let o2 = c.offset(p, 2);
    assert(o0 != 0 || o1 != 0 || o2 != 0) by {
        if o0 == 0 && o1 == 0 && o2 == 0 {
            assert(c.dist_sq(p) == 0);
        }
    }
    if c.charge > 0 {
        assert(a * o0 >= 0 && b * o1 >= 0 && e * o2 >= 0 && (a * o0 > 0 || b * o1 > 0 || e * o2 > 0)) by (nonlinear_arith)
            requires
                c.charge > 0,
                c.charge * o0 > 0 ==> a > 0, c.charge * o0 < 0 ==> a < 0, c.charge * o0 == 0 ==> a == 0,
                c.charge * o1 > 0 ==> b > 0, c.charge * o1 < 0 ==> b < 0, c.charge * o1 == 0 ==> b == 0,
                c.charge * o2 > 0 ==> e > 0, c.charge * o2 < 0 ==> e < 0, c.charge * o2 == 0 ==> e == 0,
                o0 != 0 || o1 != 0 || o2 != 0;
    } else if c.charge < 0 {
        assert(a * o0 <= 0 && b * o1 <= 0 && e * o2 <= 0 && (a * o0 < 0 || b * o1 < 0 || e * o2 < 0)) by (nonlinear_arith)
            requires
                c.charge < 0,
                c.charge * o0 > 0 ==> a > 0, c.charge * o0 < 0 ==> a < 0, c.charge * o0 == 0 ==> a == 0,
                c.charge * o1 > 0 ==> b > 0, c.charge * o1 < 0 ==> b < 0, c.charge * o1 == 0 ==> b == 0,
                c.charge * o2 > 0 ==> e > 0, c.charge * o2 < 0 ==> e < 0, c.charge * o2 == 0 ==> e == 0,
                o0 != 0 || o1 != 0 || o2 != 0;
    }
}

/// At a point displaced from a charge along axis `i` only, the charge's force
/// has no component off that axis, and along it points strictly away from a
/// positive charge and strictly toward a negative one.
pub proof fn lemma_force_along_axis(c: PointCharge, p: Point3, i: int)
    requires
        0 <= i < 3,
        forall|j: int| 0 <= j < 3 && j != i ==> c.offset(p, j) == 0,
    ensures
        forall|j: int| 0 <= j < 3 && j != i ==> #[trigger] c.force_part(p, j) == 0,
        c.charge * c.offset(p, i) > 0 ==> c.force_part(p, i) > 0,
        c.charge * c.offset(p, i) < 0 ==> c.force_part(p, i) < 0,
{
    if c.dist_sq(p) == 0 {
        assert(c.offset(p, i) == 0) by (nonlinear_arith)
            requires
                c.dist_sq(p) == c.offset(p, 0) * c.offset(p, 0) + c.offset(p, 1) * c.offset(p, 1) + c.offset(p, 2)
                    * c.offset(p, 2),
                c.dist_sq(p) == 0,
                0 <= i < 3,
                i == 0 ==> c.offset(p, i) == c.offset(p, 0),
                i == 1 ==> c.offset(p, i) == c.offset(p, 1),
                i == 2 ==> c.offset(p, i) == c.offset(p, 2);
        assert(c.charge * c.offset(p, i) == 0);
    } else {
        assert(c.dist_sq(p) > 0) by (nonlinear_arith)
            requires
                c.dist_sq(p) == c.offset(p, 0) * c.offset(p, 0) + c.offset(p, 1) * c.offset(p, 1) + c.offset(p, 2)
                    * c.offset(p, 2),
                c.dist_sq(p) != 0;
        lemma_part_signs(c, p);
        assert forall|j: int| 0 <= j < 3 && j != i implies #[trigger] c.force_part(p, j) == 0 by {
            assert(c.charge * c.offset(p, j) == 0);
        }
    }
}

/// The charges are within their ranges and few enough to superpose.
pub open spec fn charges_wf(cs: Seq<PointCharge>) -> bool {
    cs.len() <= MAX_CHARGES && forall|i: int| 0 <= i < cs.len() ==> (#[trigger] cs[i]).wf()
}

/// Whether `p` lies within `COORD_MAX` on every axis.
pub fn point_in_bounds(p: &Point3) -> (r: bool)
    ensures
        r == in_bounds(*p),
{
    -COORD_MAX <= p.x && p.x <= COORD_MAX && -COORD_MAX <= p.y && p.y <= COORD_MAX && -COORD_MAX <= p.z && p.z
        <= COORD_MAX
}

impl PointCharge {
    /// Whether the charge and its location are within the allowed ranges.
    pub fn is_valid(&self) -> (r: bool)
        ensures
            r == self.wf(),
    {
        -CHARGE_MAX <= self.charge && self.charge <= CHARGE_MAX && point_in_bounds(&self.loc)
    }
}

/// `a + sign * b`, coordinate by coordinate.
pub open spec fn offset_point(a: Point3, b: Point3, sign: int) -> Point3 {
    Point3 { x: (a.x + sign * b.x) as i64, y: (a.y + sign * b.y) as i64, z: (a.z + sign * b.z) as i64 }
}

/// `a + sign * b` lies within `COORD_MAX` on every axis.
pub open spec fn offset_in_bounds(a: Point3, b: Point3, sign: int) -> bool {
    &&& -COORD_MAX <= a.x + sign * b.x <= COORD_MAX
    &&& -COORD_MAX <= a.y + sign * b.y <= COORD_MAX
    &&& -COORD_MAX <= a.z + sign * b.z <= COORD_MAX
}

fn shifted(a: &Point3, b: &Point3, negate: bool) -> (r: Option<Point3>)
    ensures
        r == (if offset_in_bounds(*a, *b, if negate { -1 } else { 1 }) {
            Some(offset_point(*a, *b, if negate { -1 } else { 1 }))
        } else {
            None::<Point3>
        }),
{
    let (x, y, z): (i128, i128, i128) = if negate {
        (a.x as i128 - b.x as i128, a.y as i128 - b.y as i128, a.z as i128 - b.z as i128)
    } else {
        (a.x as i128 + b.x as i128, a.y as i128 + b.y as i128, a.z as i128 + b.z as i128)
    };
    let m = COORD_MAX as i128;
    if -m <= x && x <= m && -m <= y && y <= m && -m <= z && z <= m {
        Some(Point3 { x: x as i64, y: y as i64, z: z as i64 })
    } else {
        None
    }
}

impl PointCharge {
    /// The same charge moved by `v`; `None` if it would leave the allowed range.
    pub fn translate(&self, v: &Point3) -> (r: Option<PointCharge>)
        ensures
            r == (if offset_in_bounds(self.loc, *v, 1) {
                Some(PointCharge { charge: self.charge, loc: offset_point(self.loc, *v, 1) })
            } else {
                None::<PointCharge>
            }),
    {
        match shifted(&self.loc, v, false) {
            Some(loc) => Some(PointCharge { charge: self.charge, loc }),
            None => None,
        }
    }

    /// The same charge moved by `-v`; `None` if it would leave the allowed range.
    pub fn inverse_translate(&self, v: &Point3) -> (r: Option<PointCharge>)
        ensures
            r == (if offset_in_bounds(self.loc, *v, -1) {
                Some(PointCharge { charge: self.charge, loc: offset_point(self.loc, *v, -1) })
            } else {
                None::<PointCharge>
            }),
    {
        match shifted(&self.loc, v, true) {
            Some(loc) => Some(PointCharge { charge: self.charge, loc }),
            None => None,
        }
    }
}

/// Whether every charge is valid and there are at most `MAX_CHARGES` of them.
pub fn charges_valid(cs: &Vec<PointCharge>) -> (r: bool)
    ensures
        r == charges_wf(cs@),
{
    if cs.len() > MAX_CHARGES {
        return false;
    }
    let mut i: usize = 0;
    while i < cs.len()
        invariant
            i <= cs@.len(),
            forall|k: int| 0 <= k < i ==> (#[trigger] cs@[k]).wf(),
        decreases cs@.len() - i,
    {
        if !cs[i].is_valid() {
            return false;
        }
        i = i + 1;
    }
    true
}

/// The superposed field of all charges at `p`.
pub fn superpose(charges: &Vec<PointCharge>, p: &Point3) -> (r: FieldData)
    requires
        charges_wf(charges@),
        in_bounds(*p),
    ensures
        r.force_vec.x == total_force(charges@, *p, 0),
        r.force_vec.y == total_force(charges@, *p, 1),
        r.force_vec.z == total_force(charges@, *p, 2),
        r.potential == total_potential(charges@, *p),
        r.force_mag == sqrt_floor_spec(norm_sq(r.force_vec)),
        r.force_mag >= 0,
        r == field_spec(charges@, *p),
        -SUM_MAX <= r.force_vec.x <= SUM_MAX,
        -SUM_MAX <= r.force_vec.y <= SUM_MAX,
        -SUM_MAX <= r.force_vec.z <= SUM_MAX,
        -SUM_MAX <= r.potential <= SUM_MAX,
{
    let mut acc = FieldData::zero();
    let mut k: usize = 0;
    while k < charges.len()
        invariant
            charges_wf(charges@),
            in_bounds(*p),
            k <= charges.len(),
            acc.force_vec.x == total_force(charges@.take(k as int), *p, 0),
            acc.force_vec.y == total_force(charges@.take(k as int), *p, 1),
            acc.force_vec.z == total_force(charges@.take(k as int), *p, 2),
            acc.potential == total_potential(charges@.take(k as int), *p),
            -k * PART_MAX <= acc.force_vec.x <= k * PART_MAX,
            -k * PART_MAX <= acc.force_vec.y <= k * PART_MAX,
            -k * PART_MAX <= acc.force_vec.z <= k * PART_MAX,
            -k * PART_MAX <= acc.potential <= k * PART_MAX,
        decreases charges.len() - k,
    {
        let part = charges[k].field_data_at(p);
        assert(charges@.take(k + 1).drop_last() =~= charges@.take(k as int));
        assert(charges@.take(k + 1).last() == charges@[k as int]);
        acc = acc.add(part);
        k = k + 1;
    }
    assert(charges@.take(k as int) =~= charges@);
    proof {
        assert(k * PART_MAX <= SUM_MAX) by (nonlinear_arith)
            requires k <= MAX_CHARGES, PART_MAX == 1_000_000_000_000_000, MAX_CHARGES == 1024, SUM_MAX == 1_024_000_000_000_000_000;
    }
    acc.update_norm();
    acc
}

impl VectorField for Vec<PointCharge> {
    open spec fn wf(&self) -> bool {
        charges_wf(self@)
    }

    open spec fn field_at(&self, p: Point3) -> FieldData {
        field_spec(self@, p)
    }

    fn field_data_at(&self, p: &Point3) -> (r: FieldData) {
        superpose(self, p)
    }
}

/// `|k * o| <= PART_MAX * den` when `|k| <= PART_MAX`, `|o| <= dist <= den`.
proof fn lemma_part_bound(k: int, o: int, dist: int, den: int)
    requires
        abs(k) <= PART_MAX,
        abs(o) <= dist,
        dist <= den,
    ensures
        abs(k * o) <= PART_MAX * den,
{
    lemma_mul_abs_bound(k, o, PART_MAX as int, dist);
    assert(PART_MAX * dist <= PART_MAX * den) by (nonlinear_arith)
        requires dist <= den;
}

} // verus!
