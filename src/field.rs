//! Sampling the field on a lattice and turning each sample into an arrow.
//!
//! Lattice index `(i, j, k)` stands at `(i, j, k) * grid_s`. Each sample
//! becomes an arrow centered on its lattice point, pointing along the force,
//! whose length grows from `min_len` to `max_len` with the field strength
//! relative to the preset's (or the sampled) greatest field, and whose color
//! follows either the field strength or the potential.

use vstd::prelude::*;
use crate::arrow::{Arrow3, Color};
use crate::charge::{FieldData, SUM_MAX, in_bounds, norm_sq};
use crate::fixed::{SCALE, abs, div_floor, lemma_abs_le_sqrt_floor, lemma_mul_abs_bound, sqrt_floor, sqrt_floor_spec};
use crate::geometry::Point3;

verus! {

/// The usual grid spacing (15.0).
pub const GRID_S: i64 = 15000;

/// Largest grid spacing, in fixed-point units.
pub const GRID_MAX: i64 = 0x10_0000;

/// Largest magnitude of a lattice bound.
pub const LATTICE_MAX: i64 = 0x10_0000;

/// Cap on the relative field strength (1000.0), reached only when a preset's
/// greatest field is far below the sampled one.
pub const REL_MAG_MAX: i64 = 1_000_000;

/// The immutable configuration of a view: lattice, spacing, normalization
/// and coloring.
#[derive(Clone, Copy, Debug)]
pub struct Preset {
    /// Grid spacing, in fixed-point units.
    pub grid_s: i64,
    /// Half-open lattice bounds `[lo, hi)` along each axis, in grid units.
    pub x_range: (i64, i64),
    pub y_range: (i64, i64),
    pub z_range: (i64, i64),
    /// Field strength drawn at full length; `None` takes the greatest sampled one.
    pub greatest_field: Option<i64>,
    /// Potential magnitude drawn at the color extremes; `None` takes the greatest sampled one.
    pub greatest_pot: Option<i64>,
    /// Color by potential rather than by field strength.
    pub potential_shading: bool,
    /// When coloring by potential, use a red to blue scale rather than opacity.
    pub colorful_potential: bool,
}

fn range_valid(r: (i64, i64)) -> (b: bool)
    ensures
        b == range_ok(r),
{
    -LATTICE_MAX <= r.0 && r.0 <= LATTICE_MAX && -LATTICE_MAX <= r.1 && r.1 <= LATTICE_MAX
}

impl Preset {
    /// Whether the preset is within the allowed ranges.
    pub fn is_valid(&self) -> (r: bool)
        ensures
            r == self.wf(),
    {
        let gf_ok = match self.greatest_field {
            Some(v) => v > 0,
            None => true,
        };
        let gp_ok = match self.greatest_pot {
            Some(v) => v > 0,
            None => true,
        };
        0 < self.grid_s && self.grid_s <= GRID_MAX && range_valid(self.x_range) && range_valid(self.y_range)
            && range_valid(self.z_range) && gf_ok && gp_ok
    }
}

/// Number of lattice indices in `[lo, hi)`.
pub open spec fn range_len(r: (i64, i64)) -> int {
    if r.1 > r.0 {
        r.1 - r.0
    } else {
        0
    }
}

pub open spec fn range_ok(r: (i64, i64)) -> bool {
    -LATTICE_MAX <= r.0 <= LATTICE_MAX && -LATTICE_MAX <= r.1 <= LATTICE_MAX
}

pub open spec fn clamp_unit(v: int) -> int {
    if v < 0 {
        0
    } else if v > SCALE {
        SCALE as int
    } else {
        v
    }
}

impl Preset {
    pub open spec fn wf(self) -> bool {
        &&& 0 < self.grid_s <= GRID_MAX
        &&& range_ok(self.x_range) && range_ok(self.y_range) && range_ok(self.z_range)
        &&& (self.greatest_field matches Some(v) ==> v > 0)
        &&& (self.greatest_pot matches Some(v) ==> v > 0)
    }

    pub open spec fn count(self) -> int {
        range_len(self.x_range) * range_len(self.y_range) * range_len(self.z_range)
    }

    /// The `n`-th lattice point, x outermost and z innermost.
    pub open spec fn lattice_point(self, n: int) -> Point3 {
        let ny = range_len(self.y_range);
        let nz = range_len(self.z_range);
        Point3 {
            x: ((self.x_range.0 + n / (ny * nz)) * self.grid_s) as i64,
            y: ((self.y_range.0 + (n / nz) % ny) * self.grid_s) as i64,
            z: ((self.z_range.0 + n % nz) * self.grid_s) as i64,
        }
    }

    /// Diagonal of one grid cell, `sqrt(3) * grid_s`.
    pub open spec fn grid_diag(self) -> int {
        sqrt_floor_spec(3 * self.grid_s * self.grid_s)
    }

    /// Length of the arrow of zero field.
    pub open spec fn min_len(self) -> int {
        self.grid_diag() / 10
    }

    /// Length of the arrow of the greatest field.
    pub open spec fn max_len(self) -> int {
        (8 * self.grid_diag()) / 10
    }
}

/// Field strength relative to `greatest`, where `SCALE` is 1.0.
pub open spec fn rel_mag(mag: int, greatest: int) -> int {
    if greatest <= 0 {
        0
    } else if (mag * SCALE) / greatest > REL_MAG_MAX {
        REL_MAG_MAX as int
    } else {
        (mag * SCALE) / greatest
    }
}

/// Potential mapped from `[-greatest, greatest]` onto `[0, SCALE]`. When
/// `greatest` is not positive (in dynamic mode: every sampled potential is
/// zero) every potential maps to the neutral middle, `SCALE / 2`; this is a
/// choice, as the mapping is undefined there.
pub open spec fn rel_pot(pot: int, greatest: int) -> int {
    if greatest <= 0 {
        SCALE / 2
    } else {
        (SCALE + (pot * SCALE) / greatest) / 2
    }
}

/// Arrow length for a relative field strength.
pub open spec fn arrow_length(preset: Preset, rel: int) -> int {
    preset.min_len() + (rel * (preset.max_len() - preset.min_len())) / (SCALE as int)
}

/// Half of the arrow along force component `f`, for force magnitude `mag`.
pub open spec fn half_extent(len: int, f: int, mag: int) -> int {
    if mag == 0 {
        0
    } else {
        (len * f) / (2 * mag)
    }
}

/// The arrow color. By field strength: black with opacity `2.2 * rel_mag`.
/// By potential, with `adjusted = 1 - 0.7 * (1 - rel_pot)`: black with
/// opacity `adjusted`, or, colorfully, `(adjusted, 0, 1 - adjusted)` opaque.
/// Every channel is clamped to `[0, SCALE]`.
pub open spec fn arrow_color(preset: Preset, rel: int, relp: int) -> Color {
    let adjusted = clamp_unit(SCALE - (7 * (SCALE - relp)) / 10);
    if !preset.potential_shading {
        Color { r: 0, g: 0, b: 0, a: clamp_unit((rel * 22) / 10) as i64 }
    } else if preset.colorful_potential {
        Color { r: adjusted as i64, g: 0, b: (SCALE - adjusted) as i64, a: SCALE }
    } else {
        Color { r: 0, g: 0, b: 0, a: adjusted as i64 }
    }
}

/// The arrow of sample `fd` at `loc`, normalized by `gf` and `gp`.
pub open spec fn arrow_spec(preset: Preset, loc: Point3, fd: FieldData, gf: int, gp: int) -> Arrow3 {
    let rel = rel_mag(fd.force_mag as int, gf);
    let len = arrow_length(preset, rel);
    let mag = fd.force_mag as int;
    let hx = half_extent(len, fd.force_vec.x as int, mag);
    let hy = half_extent(len, fd.force_vec.y as int, mag);
    let hz = half_extent(len, fd.force_vec.z as int, mag);
    Arrow3 {
        tail: Point3 { x: (loc.x - hx) as i64, y: (loc.y - hy) as i64, z: (loc.z - hz) as i64 },
        head: Point3 { x: (loc.x + hx) as i64, y: (loc.y + hy) as i64, z: (loc.z + hz) as i64 },
        clr: arrow_color(preset, rel, rel_pot(fd.potential as int, gp)),
    }
}

/// A sample that `superpose` can produce.
pub open spec fn sample_ok(fd: FieldData) -> bool {
    &&& -SUM_MAX <= fd.force_vec.x <= SUM_MAX
    &&& -SUM_MAX <= fd.force_vec.y <= SUM_MAX
    &&& -SUM_MAX <= fd.force_vec.z <= SUM_MAX
    &&& -SUM_MAX <= fd.potential <= SUM_MAX
    &&& fd.force_mag == sqrt_floor_spec(norm_sq(fd.force_vec))
}

/// Grid-cell diagonal of a preset.
fn grid_diag(preset: &Preset) -> (r: i64)
    requires
        preset.wf(),
    ensures
        r == preset.grid_diag(),
        0 <= r <= 2 * GRID_MAX,
{
    let g = preset.grid_s as u128;
    proof {
        lemma_mul_abs_bound(g as int, g as int, GRID_MAX as int, GRID_MAX as int);
    }
    let gg = g * g;
    let d = sqrt_floor(3 * gg);
    proof {
        assert(3 * gg == 3 * preset.grid_s * preset.grid_s) by (nonlinear_arith)
            requires gg == g * g, g == preset.grid_s;
        assert(d <= 2 * GRID_MAX) by (nonlinear_arith)
            requires d * d <= 3 * gg, gg <= GRID_MAX * GRID_MAX, d >= 0, GRID_MAX > 0;
    }
    d as i64
}

/// Half an arrow along one force component is at most the whole arrow length.
proof fn lemma_half_extent_bound(len: int, f: int, mag: int)
    requires
        len >= 0,
        mag > 0,
        abs(f) <= mag,
    ensures
        -len <= half_extent(len, f, mag) <= len,
{
    lemma_mul_abs_bound(len, f, len, mag);
    assert(len * mag <= len * (2 * mag)) by (nonlinear_arith)
        requires len >= 0, mag > 0;
    crate::fixed::lemma_quotient_bound(len * f, 2 * mag, len);
}

/// The arrow of one sample.
pub fn arrow_for(preset: &Preset, loc: &Point3, fd: &FieldData, gf: i64, gp: i64) -> (r: Arrow3)
    requires
        preset.wf(),
        in_bounds(*loc),
        sample_ok(*fd),
        gf >= 0,
        gp >= 0,
    ensures
        r == arrow_spec(*preset, *loc, *fd, gf as int, gp as int),
        r.clr.bounded(),
{
    let mag = fd.force_mag as i128;
    let f = fd.force_vec;
    proof {
        let n = norm_sq(f);
        assert(f.x * f.x >= 0 && f.y * f.y >= 0 && f.z * f.z >= 0) by (nonlinear_arith);
        lemma_mul_abs_bound(f.x as int, f.x as int, SUM_MAX as int, SUM_MAX as int);
        lemma_mul_abs_bound(f.y as int, f.y as int, SUM_MAX as int, SUM_MAX as int);
        lemma_mul_abs_bound(f.z as int, f.z as int, SUM_MAX as int, SUM_MAX as int);
        assert(crate::fixed::is_sqrt_floor(n, sqrt_floor_spec(n))) by {
            crate::fixed::lemma_sqrt_floor_exists(n);
        }
        lemma_abs_le_sqrt_floor(f.x as int, n, mag as int);
        lemma_abs_le_sqrt_floor(f.y as int, n, mag as int);
        lemma_abs_le_sqrt_floor(f.z as int, n, mag as int);
    }
    // relative strength
    let rel: i128 = if gf <= 0 {
        0
    } else {
        let q = div_floor(mag * SCALE as i128, gf as i128);
        if q > REL_MAG_MAX as i128 {
            REL_MAG_MAX as i128
        } else {
            q
        }
    };
    let diag = grid_diag(preset) as i128;
    let min_len: i128 = div_floor(diag, 10);
    let max_len: i128 = div_floor(8 * diag, 10);
    proof {
        assert(0 <= min_len <= max_len) by {
            vstd::arithmetic::div_mod::lemma_div_is_ordered(diag as int, 8 * diag, 10);
            vstd::arithmetic::div_mod::lemma_div_pos_is_pos(diag as int, 10);
        }
        assert(rel >= 0) by {
            if gf > 0 {
                vstd::arithmetic::div_mod::lemma_div_pos_is_pos(mag * SCALE, gf as int);
            }
        }
        lemma_mul_abs_bound(rel as int, max_len - min_len, REL_MAG_MAX as int, 2 * GRID_MAX);
        assert(rel * (max_len - min_len) >= 0) by (nonlinear_arith)
            requires rel >= 0, max_len >= min_len;
        vstd::arithmetic::div_mod::lemma_div_pos_is_pos(rel * (max_len - min_len), SCALE as int);
        vstd::arithmetic::div_mod::lemma_div_is_ordered(rel * (max_len - min_len), REL_MAG_MAX * (2 * GRID_MAX), SCALE as int);
    }
    let len: i128 = min_len + div_floor(rel * (max_len - min_len), SCALE as i128);
    proof {
        assert(0 <= len <= 0x1_0000_0000);
        lemma_mul_abs_bound(len as int, f.x as int, 0x1_0000_0000, SUM_MAX as int);
        lemma_mul_abs_bound(len as int, f.y as int, 0x1_0000_0000, SUM_MAX as int);
        lemma_mul_abs_bound(len as int, f.z as int, 0x1_0000_0000, SUM_MAX as int);
        if mag > 0 {
            lemma_half_extent_bound(len as int, f.x as int, mag as int);
            lemma_half_extent_bound(len as int, f.y as int, mag as int);
            lemma_half_extent_bound(len as int, f.z as int, mag as int);
        }
    }
    let (hx, hy, hz): (i128, i128, i128) = if mag == 0 {
        (0, 0, 0)
    } else {
        (
            div_floor(len * f.x as i128, 2 * mag),
            div_floor(len * f.y as i128, 2 * mag),
            div_floor(len * f.z as i128, 2 * mag),
        )
    };
    // color
    proof {
        if gp > 0 {
            lemma_mul_abs_bound(fd.potential as int, SCALE as int, SUM_MAX as int, SCALE as int);
            assert(SUM_MAX * SCALE <= (SUM_MAX * SCALE) * gp) by (nonlinear_arith)
                requires gp >= 1, SUM_MAX * SCALE >= 0;
            crate::fixed::lemma_quotient_bound(fd.potential * SCALE, gp as int, SUM_MAX * SCALE);
        }
    }
    let relp: i128 = if gp <= 0 {
        div_floor(SCALE as i128, 2)
    } else {
        div_floor(SCALE as i128 + div_floor(fd.potential as i128 * SCALE as i128, gp as i128), 2)
    };
    let adjusted = clamp_unit_exec(SCALE as i128 - div_floor(7 * (SCALE as i128 - relp), 10));
    let clr = if !preset.potential_shading {
        Color { r: 0, g: 0, b: 0, a: clamp_unit_exec(div_floor(rel * 22, 10)) }
    } else if preset.colorful_potential {
        Color { r: adjusted, g: 0, b: SCALE - adjusted, a: SCALE }
    } else {
        Color { r: 0, g: 0, b: 0, a: adjusted }
    };
    Arrow3 {
        tail: Point3 { x: (loc.x as i128 - hx) as i64, y: (loc.y as i128 - hy) as i64, z: (loc.z as i128 - hz) as i64 },
        head: Point3 { x: (loc.x as i128 + hx) as i64, y: (loc.y as i128 + hy) as i64, z: (loc.z as i128 + hz) as i64 },
        clr,
    }
}

/// Anything that has a field at each point of space.
pub trait VectorField {
    /// The source is within the ranges its field can be computed for.
    spec fn wf(&self) -> bool;

    /// The field at `p`.
    spec fn field_at(&self, p: Point3) -> FieldData;

    fn field_data_at(&self, p: &Point3) -> (r: FieldData)
        requires
            self.wf(),
            in_bounds(*p),
        ensures
            r == self.field_at(*p),
            sample_ok(r),
    ;
}

/// A sample point within bounds, with a field that `superpose` can produce.
pub open spec fn sample_valid(e: (Point3, FieldData)) -> bool {
    in_bounds(e.0) && sample_ok(e.1)
}

/// The `n`-th sample of the lattice: its point and the field there.
pub open spec fn sample_at<F: VectorField>(field: &F, preset: Preset, n: int) -> (Point3, FieldData) {
    (preset.lattice_point(n), field.field_at(preset.lattice_point(n)))
}

/// Index `(a * ny + b) * nz + c` of the lattice decomposes back into `a`, `b`, `c`.
proof fn lemma_lattice_index(a: int, b: int, c: int, ny: int, nz: int)
    requires
        0 <= a,
        0 <= b < ny,
        0 <= c < nz,
    ensures
        ((a * ny + b) * nz + c) / (ny * nz) == a,
        (((a * ny + b) * nz + c) / nz) % ny == b,
        ((a * ny + b) * nz + c) % nz == c,
{
    let n = (a * ny + b) * nz + c;
    vstd::arithmetic::div_mod::lemma_fundamental_div_mod_converse(n, nz, a * ny + b, c);
    vstd::arithmetic::div_mod::lemma_fundamental_div_mod_converse(a * ny + b, ny, a, b);
    assert(n >= 0 && a * ny >= 0) by (nonlinear_arith)
        requires n == (a * ny + b) * nz + c, a >= 0, b >= 0, c >= 0, ny > 0, nz > 0;
    vstd::arithmetic::div_mod::lemma_div_denominator(n, nz, ny);
    assert(nz * ny == ny * nz) by (nonlinear_arith);
}

/// Lattice coordinate `i * grid_s`.
fn lattice_coord(i: i64, g: i64) -> (r: i64)
    requires
        -LATTICE_MAX <= i <= LATTICE_MAX,
        0 < g <= GRID_MAX,
    ensures
        r == i * g,
        -crate::charge::COORD_MAX <= r <= crate::charge::COORD_MAX,
{
    proof {
        lemma_mul_abs_bound(i as int, g as int, LATTICE_MAX as int, GRID_MAX as int);
    }
    i * g
}

/// Samples the field at every lattice point, x outermost and z innermost.
pub fn sample_lattice<F: VectorField>(field: &F, preset: &Preset) -> (r: Vec<(Point3, FieldData)>)
    requires
        field.wf(),
        preset.wf(),
    ensures
        r@.len() == preset.count(),
        forall|n: int| 0 <= n < r@.len() ==> #[trigger] r@[n] == sample_at(field, *preset, n) && sample_valid(r@[n]),
{
    let (lx, hx) = preset.x_range;
    let (ly, hy) = preset.y_range;
    let (lz, hz) = preset.z_range;
    let ghost ny = range_len(preset.y_range);
    let ghost nz = range_len(preset.z_range);
    let g = preset.grid_s;
    let mut out: Vec<(Point3, FieldData)> = Vec::new();
    let mut i: i64 = lx;
    assert((i - lx) * ny * nz == 0) by (nonlinear_arith)
        requires i == lx;
    while i < hx
        invariant
            field.wf(),
            preset.wf(),
            (lx, hx) == preset.x_range && (ly, hy) == preset.y_range && (lz, hz) == preset.z_range,
            g == preset.grid_s,
            ny == range_len(preset.y_range) && nz == range_len(preset.z_range),
            lx <= i && (i <= hx || i == lx),
            out@.len() == (i - lx) * ny * nz,
            forall|n: int| 0 <= n < out@.len() ==> #[trigger] out@[n] == sample_at(field, *preset, n) && sample_valid(out@[n]),
        decreases hx - i,
    {
        let mut j: i64 = ly;
        assert(((i - lx) * ny + (j - ly)) * nz == (i - lx) * ny * nz) by (nonlinear_arith)
            requires j == ly;
        while j < hy
            invariant
                field.wf(),
                preset.wf(),
                (lx, hx) == preset.x_range && (ly, hy) == preset.y_range && (lz, hz) == preset.z_range,
                g == preset.grid_s,
                ny == range_len(preset.y_range) && nz == range_len(preset.z_range),
                lx <= i < hx,
                ly <= j && (j <= hy || j == ly),
                out@.len() == ((i - lx) * ny + (j - ly)) * nz,
                forall|n: int| 0 <= n < out@.len() ==> #[trigger] out@[n] == sample_at(field, *preset, n) && sample_valid(out@[n]),
            decreases hy - j,
        {
            let mut k: i64 = lz;
            while k < hz
                invariant
                    field.wf(),
                    preset.wf(),
                    (lx, hx) == preset.x_range && (ly, hy) == preset.y_range && (lz, hz) == preset.z_range,
                    g == preset.grid_s,
                    ny == range_len(preset.y_range) && nz == range_len(preset.z_range),
                    lx <= i < hx,
                    ly <= j < hy,
                    lz <= k && (k <= hz || k == lz),
                    out@.len() == ((i - lx) * ny + (j - ly)) * nz + (k - lz),
                    forall|n: int| 0 <= n < out@.len() ==> #[trigger] out@[n] == sample_at(field, *preset, n) && sample_valid(out@[n]),
                decreases hz - k,
            {
                let loc = Point3 { x: lattice_coord(i, g), y: lattice_coord(j, g), z: lattice_coord(k, g) };
                let fd = field.field_data_at(&loc);
                proof {
                    lemma_lattice_index(i - lx, j - ly, k - lz, ny, nz);
                    let n = ((i - lx) * ny + (j - ly)) * nz + (k - lz);
                    assert(preset.lattice_point(n) == loc);
                }
                out.push((loc, fd));
                k = k + 1;
            }
            proof {
                assert(((i - lx) * ny + (j - ly)) * nz + (k - lz) == ((i - lx) * ny + (j + 1 - ly)) * nz) by (nonlinear_arith)
                    requires k - lz == nz;
            }
            j = j + 1;
        }
        proof {
            assert(((i - lx) * ny + (j - ly)) * nz == (i + 1 - lx) * ny * nz) by (nonlinear_arith)
                requires j - ly == ny;
        }
        i = i + 1;
    }
    proof {
        assert((i - lx) * ny * nz == preset.count()) by (nonlinear_arith)
            requires i - lx == range_len(preset.x_range), ny == range_len(preset.y_range), nz == range_len(preset.z_range), preset.count() == range_len(preset.x_range) * ny * nz;
    }
    out
}

/// All samples of the lattice, in order.
pub open spec fn samples_of<F: VectorField>(field: &F, preset: Preset) -> Seq<(Point3, FieldData)> {
    Seq::new(preset.count() as nat, |n: int| sample_at(field, preset, n))
}

/// The greatest field strength among the samples (0 if there are none).
pub open spec fn max_force_mag(s: Seq<(Point3, FieldData)>) -> int
    decreases s.len(),
{
    if s.len() == 0 {
        0
    } else {
        let m = max_force_mag(s.drop_last());
        let v = s.last().1.force_mag as int;
        if v > m {
            v
        } else {
            m
        }
    }
}

/// The greatest potential magnitude among the samples (0 if there are none).
pub open spec fn max_abs_potential(s: Seq<(Point3, FieldData)>) -> int
    decreases s.len(),
{
    if s.len() == 0 {
        0
    } else {
        let m = max_abs_potential(s.drop_last());
        let v = abs(s.last().1.potential as int);
        if v > m {
            v
        } else {
            m
        }
    }
}

/// The greatest sampled field strength bounds every sample's, and is one of
/// them unless it is 0.
pub proof fn lemma_max_force_mag(s: Seq<(Point3, FieldData)>)
    ensures
        max_force_mag(s) >= 0,
        forall|n: int| 0 <= n < s.len() ==> (#[trigger] s[n]).1.force_mag <= max_force_mag(s),
        max_force_mag(s) == 0 || exists|n: int| 0 <= n < s.len() && (#[trigger] s[n]).1.force_mag == max_force_mag(s),
    decreases s.len(),
{
    if s.len() > 0 {
        let t = s.drop_last();
        lemma_max_force_mag(t);
        assert forall|n: int| 0 <= n < s.len() implies (#[trigger] s[n]).1.force_mag <= max_force_mag(s) by {
            if n < s.len() - 1 {
                assert(s[n] == t[n]);
            }
        }
        if max_force_mag(s) != 0 {
            if s.last().1.force_mag as int > max_force_mag(t) {
                assert(s[s.len() - 1].1.force_mag == max_force_mag(s));
            } else {
                let n = choose|n: int| 0 <= n < t.len() && (#[trigger] t[n]).1.force_mag == max_force_mag(t);
                assert(s[n] == t[n]);
            }
        }
    }
}

/// The field strength that is drawn at full length.
pub open spec fn field_norm(preset: Preset, s: Seq<(Point3, FieldData)>) -> int {
    match preset.greatest_field {
        Some(v) => v as int,
        None => max_force_mag(s),
    }
}

/// The potential magnitude that is drawn at the color extremes.
pub open spec fn pot_norm(preset: Preset, s: Seq<(Point3, FieldData)>) -> int {
    match preset.greatest_pot {
        Some(v) => v as int,
        None => max_abs_potential(s),
    }
}

/// The arrows of the samples `s`, normalized as the preset says.
pub open spec fn arrows_of(preset: Preset, s: Seq<(Point3, FieldData)>) -> Seq<Arrow3> {
    Seq::new(s.len(), |n: int| arrow_spec(preset, s[n].0, s[n].1, field_norm(preset, s), pot_norm(preset, s)))
}

/// The arrow of a sample with nonzero field is centered on its point, and
/// each of its components is the arrow length times the unit force component,
/// rounded down by less than one unit at each end:
/// `0 <= len * f_i - |f| * (head_i - tail_i) < 2 * |f|`.
pub proof fn lemma_drawn_segment(preset: Preset, loc: Point3, fd: FieldData, gf: int, gp: int)
    requires
        preset.wf(),
        in_bounds(loc),
        sample_ok(fd),
        fd.force_mag > 0,
    ensures ({
        let a = arrow_spec(preset, loc, fd, gf, gp);
        let len = arrow_length(preset, rel_mag(fd.force_mag as int, gf));
        let m = fd.force_mag as int;
        &&& a.head.x + a.tail.x == 2 * loc.x
        &&& a.head.y + a.tail.y == 2 * loc.y
        &&& a.head.z + a.tail.z == 2 * loc.z
        &&& 0 <= len * fd.force_vec.x - m * (a.head.x - a.tail.x) < 2 * m
        &&& 0 <= len * fd.force_vec.y - m * (a.head.y - a.tail.y) < 2 * m
        &&& 0 <= len * fd.force_vec.z - m * (a.head.z - a.tail.z) < 2 * m
    }),
{
    let g = preset.grid_s as int;
    let diag = preset.grid_diag();
    lemma_mul_abs_bound(g, g, GRID_MAX as int, GRID_MAX as int);
    assert(3 * g * g >= 0) by (nonlinear_arith)
        requires g > 0;
    crate::fixed::lemma_sqrt_floor_exists(3 * g * g);
    assert(diag <= 2 * GRID_MAX) by (nonlinear_arith)
        requires diag * diag <= 3 * g * g, g * g <= GRID_MAX * GRID_MAX, diag >= 0, GRID_MAX > 0, 0 < g;
    vstd::arithmetic::div_mod::lemma_div_is_ordered(diag, 8 * diag, 10);
    vstd::arithmetic::div_mod::lemma_div_pos_is_pos(diag, 10);
    vstd::arithmetic::div_mod::lemma_div_is_ordered(8 * diag, 8 * (2 * GRID_MAX), 10);
    let m = fd.force_mag as int;
    let rel = rel_mag(m, gf);
    if gf > 0 {
        vstd::arithmetic::div_mod::lemma_div_pos_is_pos(m * SCALE, gf);
    }
    assert(0 <= rel <= REL_MAG_MAX);
    let w = preset.max_len() - preset.min_len();
    lemma_mul_abs_bound(rel, w, REL_MAG_MAX as int, 2 * GRID_MAX);
    assert(rel * w >= 0) by (nonlinear_arith)
        requires rel >= 0, w >= 0;
    vstd::arithmetic::div_mod::lemma_div_pos_is_pos(rel * w, SCALE as int);
    vstd::arithmetic::div_mod::lemma_div_is_ordered(rel * w, REL_MAG_MAX * (2 * GRID_MAX), SCALE as int);
    let len = arrow_length(preset, rel);
    assert(0 <= len <= 0x1_0000_0000);
    let f = fd.force_vec;
    let n = norm_sq(f);
    assert(f.x * f.x >= 0 && f.y * f.y >= 0 && f.z * f.z >= 0) by (nonlinear_arith);
    crate::fixed::lemma_sqrt_floor_exists(n);
    lemma_abs_le_sqrt_floor(f.x as int, n, m);
    lemma_abs_le_sqrt_floor(f.y as int, n, m);
    lemma_abs_le_sqrt_floor(f.z as int, n, m);
    lemma_half_extent_bound(len, f.x as int, m);
    lemma_half_extent_bound(len, f.y as int, m);
    lemma_half_extent_bound(len, f.z as int, m);
    lemma_half_parts(len * f.x, m);
    lemma_half_parts(len * f.y, m);
    lemma_half_parts(len * f.z, m);
}

/// `0 <= a - m * (2 * (a / (2 * m))) < 2 * m` for `m > 0`.
proof fn lemma_half_parts(a: int, m: int)
    requires
        m > 0,
    ensures
        0 <= a - m * (2 * (a / (2 * m))) < 2 * m,
{
    vstd::arithmetic::div_mod::lemma_fundamental_div_mod(a, 2 * m);
    let h = a / (2 * m);
    assert(m * (2 * h) == (2 * m) * h) by (nonlinear_arith);
}

/// When the field strength drawn at full length is the greatest sampled one
/// (fixed at that value, or found in the pass), the strongest sample has
/// relative strength exactly 1.0, its arrow length is exactly the maximal
/// length, and the drawn segment is that length along the force, up to
/// rounding: `0 <= max_len * f_i - |f| * (head_i - tail_i) < 2 * |f|`.
pub proof fn lemma_strongest_arrow_full_length(preset: Preset, s: Seq<(Point3, FieldData)>, n: int)
    requires
        preset.wf(),
        0 <= n < s.len(),
        sample_valid(s[n]),
        field_norm(preset, s) == max_force_mag(s),
        s[n].1.force_mag == max_force_mag(s),
        max_force_mag(s) > 0,
    ensures
        rel_mag(s[n].1.force_mag as int, field_norm(preset, s)) == SCALE,
        arrow_length(preset, SCALE as int) == preset.max_len(),
        ({
            let a = arrows_of(preset, s)[n];
            let f = s[n].1.force_vec;
            let m = s[n].1.force_mag as int;
            &&& 0 <= preset.max_len() * f.x - m * (a.head.x - a.tail.x) < 2 * m
            &&& 0 <= preset.max_len() * f.y - m * (a.head.y - a.tail.y) < 2 * m
            &&& 0 <= preset.max_len() * f.z - m * (a.head.z - a.tail.z) < 2 * m
        }),
{
    let m = max_force_mag(s);
    vstd::arithmetic::div_mod::lemma_div_multiples_vanish(SCALE as int, m);
    assert(m * SCALE == m * (SCALE as int));
    assert(m * (SCALE as int) == (SCALE as int) * m) by (nonlinear_arith);
    let d = preset.max_len() - preset.min_len();
    vstd::arithmetic::div_mod::lemma_div_multiples_vanish(d, SCALE as int);
    lemma_drawn_segment(preset, s[n].0, s[n].1, field_norm(preset, s), pot_norm(preset, s));
}

/// The greatest field strength and the greatest potential magnitude among the samples.
pub fn field_extremes(samples: &Vec<(Point3, FieldData)>) -> (r: (i64, i64))
    requires
        forall|n: int| 0 <= n < samples@.len() ==> sample_valid(#[trigger] samples@[n]),
    ensures
        r.0 == max_force_mag(samples@),
        r.1 == max_abs_potential(samples@),
        r.0 >= 0,
        r.1 >= 0,
{
    let mut mf: i64 = 0;
    let mut mp: i64 = 0;
    let mut n: usize = 0;
    while n < samples.len()
        invariant
            n <= samples@.len(),
            forall|m: int| 0 <= m < samples@.len() ==> sample_valid(#[trigger] samples@[m]),
            mf == max_force_mag(samples@.take(n as int)),
            mp == max_abs_potential(samples@.take(n as int)),
            mf >= 0,
            mp >= 0,
        decreases samples@.len() - n,
    {
        assert(samples@.take(n + 1).drop_last() =~= samples@.take(n as int));
        assert(samples@.take(n + 1).last() == samples@[n as int]);
        assert(sample_valid(samples@[n as int]));
        let fd = samples[n].1;
        if fd.force_mag > mf {
            mf = fd.force_mag;
        }
        let p = if fd.potential < 0 { -fd.potential } else { fd.potential };
        if p > mp {
            mp = p;
        }
        n = n + 1;
    }
    assert(samples@.take(n as int) =~= samples@);
    (mf, mp)
}

/// Samples `field` on the preset's lattice and builds one arrow per lattice
/// point, in lattice order.
pub fn populate_arrows<F: VectorField>(field: &F, preset: &Preset) -> (r: Vec<Arrow3>)
    requires
        field.wf(),
        preset.wf(),
    ensures
        r@ == arrows_of(*preset, samples_of(field, *preset)),
        forall|n: int| 0 <= n < r@.len() ==> (#[trigger] r@[n]).clr.bounded(),
{
    let samples = sample_lattice(field, preset);
    let ghost s = samples@;
    assert(s =~= samples_of(field, *preset));
    let (mf, mp) = field_extremes(&samples);
    let gf = match preset.greatest_field {
        Some(v) => v,
        None => mf,
    };
    let gp = match preset.greatest_pot {
        Some(v) => v,
        None => mp,
    };
    let mut arrows: Vec<Arrow3> = Vec::new();
    let mut n: usize = 0;
    while n < samples.len()
        invariant
            preset.wf(),
            s == samples@,
            n <= s.len(),
            forall|m: int| 0 <= m < s.len() ==> sample_valid(#[trigger] s[m]),
            gf == field_norm(*preset, s),
            gp == pot_norm(*preset, s),
            gf >= 0,
            gp >= 0,
            arrows@.len() == n,
            forall|m: int| 0 <= m < n ==> #[trigger] arrows@[m] == arrows_of(*preset, s)[m] && arrows@[m].clr.bounded(),
        decreases s.len() - n,
    {
        assert(sample_valid(s[n as int]));
        let a = arrow_for(preset, &samples[n].0, &samples[n].1, gf, gp);
        arrows.push(a);
        n = n + 1;
    }
    assert(arrows@ =~= arrows_of(*preset, s));
    arrows
}

fn clamp_unit_exec(v: i128) -> (r: i64)
    ensures
        r == clamp_unit(v as int),
{
    if v < 0 {
        0
    } else if v > SCALE as i128 {
        SCALE
    } else {
        v as i64
    }
}

} // verus!
