//! Points and homogeneous transforms in fixed point.
//!
//! A [`Mat4`] is a 4x4 homogeneous matrix whose last row is `(0, 0, 0, 1)`;
//! it is stored as its first three rows. Lifting a point to `(x, y, z, 1)`,
//! multiplying and dividing by the resulting `w` (always 1) is then the same
//! as applying the three stored rows, which is what [`Mat4::apply`] does.

use vstd::prelude::*;
use crate::fixed::{SCALE, abs, div_floor, lemma_mul_abs_bound};

verus! {

/// Bound on the magnitude of the linear (rotation and scale) entries of a matrix.
pub const LINEAR_MAX: i64 = 0x100_0000_0000;

/// `v` fits in an `i64`.
pub open spec fn fits_i64(v: int) -> bool {
    i64::MIN <= v <= i64::MAX
}

/// Narrows an `i128` to an `i64` when it fits.
pub fn narrow(v: i128) -> (r: Option<i64>)
    ensures
        r == (if fits_i64(v as int) { Some(v as i64) } else { None::<i64> }),
{
    if i64::MIN as i128 <= v && v <= i64::MAX as i128 {
        Some(v as i64)
    } else {
        None
    }
}

/// A point (or vector) in 3-space, in fixed-point units.
#[derive(Clone, Copy, Debug, PartialEq, Eq, Structural)]
pub struct Point3 {
    pub x: i64,
    pub y: i64,
    pub z: i64,
}

impl Point3 {
    pub fn new(x: i64, y: i64, z: i64) -> (r: Point3)
        ensures
            r == (Point3 { x, y, z }),
    {
        Point3 { x, y, z }
    }

    /// Coordinate `i` (0 for x, 1 for y, 2 for z).
    pub open spec fn coord(self, i: int) -> int {
        if i == 0 {
            self.x as int
        } else if i == 1 {
            self.y as int
        } else {
            self.z as int
        }
    }
}

/// A point in the plane, in fixed-point units.
#[derive(Clone, Copy, Debug, PartialEq, Eq, Structural)]
pub struct Point2 {
    pub x: i64,
    pub y: i64,
}

/// A homogeneous transform with last row `(0, 0, 0, 1)`, stored row-major as
/// its first three rows. Entry `(i, j)` with `j < 3` is a fixed-point factor
/// (`SCALE` is 1.0); entry `(i, 3)` is a translation in fixed-point units.
#[derive(Clone, Copy, Debug)]
pub struct Mat4 {
    pub m: [i64; 12],
}

/// The translation by `v`.
pub fn translation_mat4(v: Point3) -> (r: Mat4)
    ensures
        r == Mat4::translation_spec(v),
        r.wf(),
{
    let r = Mat4 { m: [SCALE, 0, 0, v.x, 0, SCALE, 0, v.y, 0, 0, SCALE, v.z] };
    assert(r.wf()) by {
        assert forall|i: int, j: int| 0 <= i < 3 && 0 <= j < 3 implies -LINEAR_MAX <= #[trigger] r.entry(i, j)
            <= LINEAR_MAX by {
            assert(0 <= 4 * i + j < 12);
        }
    }
    r
}

/// Floor of `a / SCALE`.
pub open spec fn unscale(a: int) -> int {
    a / (SCALE as int)
}

impl Mat4 {
    pub open spec fn entry(self, i: int, j: int) -> int {
        self.m@[4 * i + j] as int
    }

    /// The linear entries are within `LINEAR_MAX`.
    pub open spec fn wf(self) -> bool {
        forall|i: int, j: int|
            0 <= i < 3 && 0 <= j < 3 ==> -LINEAR_MAX <= #[trigger] self.entry(i, j) <= LINEAR_MAX
    }

    /// Row `i` of the linear part applied to `p`, before rescaling.
    pub open spec fn row_dot(self, i: int, p: Point3) -> int {
        self.entry(i, 0) * p.x + self.entry(i, 1) * p.y + self.entry(i, 2) * p.z
    }

    /// Coordinate `i` of the transformed point.
    pub open spec fn apply_coord(self, i: int, p: Point3) -> int {
        unscale(self.row_dot(i, p)) + self.entry(i, 3)
    }

    /// The transform of `p` is representable.
    pub open spec fn apply_fits(self, p: Point3) -> bool {
        fits_i64(self.apply_coord(0, p)) && fits_i64(self.apply_coord(1, p)) && fits_i64(
            self.apply_coord(2, p),
        )
    }

    /// The transformed point, where it is representable.
    pub open spec fn apply_spec(self, p: Point3) -> Point3 {
        Point3 {
            x: self.apply_coord(0, p) as i64,
            y: self.apply_coord(1, p) as i64,
            z: self.apply_coord(2, p) as i64,
        }
    }

    /// Entry `(i, j)` of the product `self * b`.
    pub open spec fn product_entry(self, b: Mat4, i: int, j: int) -> int {
        let s = self.entry(i, 0) * b.entry(0, j) + self.entry(i, 1) * b.entry(1, j) + self.entry(i, 2)
            * b.entry(2, j);
        if j < 3 {
            unscale(s)
        } else {
            unscale(s) + self.entry(i, 3)
        }
    }

    /// Every entry of `self * b` is representable, and its linear part is within bounds.
    pub open spec fn mul_fits(self, b: Mat4) -> bool {
        forall|i: int, j: int|
            0 <= i < 3 && 0 <= j < 4 ==> {
                &&& fits_i64(#[trigger] self.product_entry(b, i, j))
                &&& j < 3 ==> -LINEAR_MAX <= self.product_entry(b, i, j) <= LINEAR_MAX
            }
    }

    pub open spec fn identity_spec() -> Mat4 {
        Mat4 { m: [SCALE, 0, 0, 0, 0, SCALE, 0, 0, 0, 0, SCALE, 0] }
    }

    pub fn identity() -> (r: Mat4)
        ensures
            r == Mat4::identity_spec(),
            r.wf(),
    {
        let r = Mat4 { m: [SCALE, 0, 0, 0, 0, SCALE, 0, 0, 0, 0, SCALE, 0] };
        assert(r.wf()) by {
            assert forall|i: int, j: int| 0 <= i < 3 && 0 <= j < 3 implies -LINEAR_MAX <= #[trigger] r.entry(i, j)
                <= LINEAR_MAX by {
                assert(0 <= 4 * i + j < 12);
            }
        }
        r
    }

    /// A matrix from its first three rows, if its linear entries are within bounds.
    pub fn from_rows(m: [i64; 12]) -> (r: Option<Mat4>)
        ensures
            r == (if (Mat4 { m }).wf() { Some(Mat4 { m }) } else { None::<Mat4> }),
    {
        let c = Mat4 { m };
        let mut i: usize = 0;
        while i < 3
            invariant
                i <= 3,
                c == (Mat4 { m }),
                forall|a: int, b: int|
                    0 <= a < i && 0 <= b < 3 ==> -LINEAR_MAX <= #[trigger] c.entry(a, b) <= LINEAR_MAX,
            decreases 3 - i,
        {
            let mut j: usize = 0;
            while j < 3
                invariant
                    i < 3,
                    j <= 3,
                    c == (Mat4 { m }),
                    forall|a: int, b: int|
                        0 <= a < i && 0 <= b < 3 ==> -LINEAR_MAX <= #[trigger] c.entry(a, b) <= LINEAR_MAX,
                    forall|b: int| 0 <= b < j ==> -LINEAR_MAX <= #[trigger] c.entry(i as int, b) <= LINEAR_MAX,
                decreases 3 - j,
            {
                let v = m[4 * i + j];
                if v < -LINEAR_MAX || v > LINEAR_MAX {
                    assert(!c.wf()) by {
                        assert(!(-LINEAR_MAX <= c.entry(i as int, j as int) <= LINEAR_MAX));
                    }
                    return None;
                }
                j = j + 1;
            }
            i = i + 1;
        }
        Some(c)
    }

    pub open spec fn translation_spec(v: Point3) -> Mat4 {
        Mat4 { m: [SCALE, 0, 0, v.x, 0, SCALE, 0, v.y, 0, 0, SCALE, v.z] }
    }

    fn row_dot_exec(&self, i: usize, p: &Point3) -> (r: i128)
        requires
            self.wf(),
            i < 3,
        ensures
            r == self.row_dot(i as int, *p),
    {
        let a = self.m[4 * i] as i128;
        let b = self.m[4 * i + 1] as i128;
        let c = self.m[4 * i + 2] as i128;
        proof {
            lemma_bounded_product(self.entry(i as int, 0), p.x as int);
            lemma_bounded_product(self.entry(i as int, 1), p.y as int);
            lemma_bounded_product(self.entry(i as int, 2), p.z as int);
        }
        a * (p.x as i128) + b * (p.y as i128) + c * (p.z as i128)
    }

    /// Lifts `p` to homogeneous coordinates, applies `self` and flattens the
    /// result back to 3-space; `None` if a coordinate leaves the `i64` range.
    pub fn apply(&self, p: &Point3) -> (r: Option<Point3>)
        requires
            self.wf(),
        ensures
            r == (if self.apply_fits(*p) { Some(self.apply_spec(*p)) } else { None::<Point3> }),
    {
        let mut out: [i64; 3] = [0, 0, 0];
        let mut i: usize = 0;
        while i < 3
            invariant
                self.wf(),
                i <= 3,
                forall|k: int| 0 <= k < i ==> fits_i64(#[trigger] self.apply_coord(k, *p)) && out@[k]
                    == self.apply_coord(k, *p),
            decreases 3 - i,
        {
            let d = div_floor(self.row_dot_exec(i, p), SCALE as i128);
            match narrow(d + self.m[4 * i + 3] as i128) {
                Some(v) => {
                    out[i] = v;
                },
                None => {
                    assert(!self.apply_fits(*p)) by {
                        assert(!fits_i64(self.apply_coord(i as int, *p)));
                    }
                    return None;
                },
            }
            i = i + 1;
        }
        assert(self.apply_fits(*p)) by {
            assert(fits_i64(self.apply_coord(0, *p)));
            assert(fits_i64(self.apply_coord(1, *p)));
            assert(fits_i64(self.apply_coord(2, *p)));
        }
        Some(Point3 { x: out[0], y: out[1], z: out[2] })
    }
}

impl Mat4 {
    /// `c` holds the entries of `self * b`.
    pub open spec fn is_product(self, b: Mat4, c: Mat4) -> bool {
        forall|i: int, j: int| 0 <= i < 3 && 0 <= j < 4 ==> #[trigger] c.entry(i, j) == self.product_entry(b, i, j)
    }

    fn product_entry_exec(&self, b: &Mat4, i: usize, j: usize) -> (r: i128)
        requires
            self.wf(),
            b.wf(),
            i < 3,
            j < 4,
        ensures
            r == self.product_entry(*b, i as int, j as int),
    {
        let mut s: i128 = 0;
        let mut k: usize = 0;
        while k < 3
            invariant
                self.wf(),
                b.wf(),
                i < 3,
                j < 4,
                k <= 3,
                s == (if k == 0 {
                    0
                } else if k == 1 {
                    self.entry(i as int, 0) * b.entry(0, j as int)
                } else if k == 2 {
                    self.entry(i as int, 0) * b.entry(0, j as int) + self.entry(i as int, 1) * b.entry(1, j as int)
                } else {
                    self.entry(i as int, 0) * b.entry(0, j as int) + self.entry(i as int, 1) * b.entry(1, j as int)
                        + self.entry(i as int, 2) * b.entry(2, j as int)
                }),
                -3 * 0x80_0000_0000_0000_0000_0000_0000 <= s <= 3 * 0x80_0000_0000_0000_0000_0000_0000,
                k == 0 ==> s == 0,
            decreases 3 - k,
        {
            proof {
                lemma_bounded_product(self.entry(i as int, k as int), b.entry(k as int, j as int));
                if k == 0 {
                    assert(s == 0);
                } else if k == 1 {
                    lemma_bounded_product(self.entry(i as int, 0), b.entry(0, j as int));
                } else {
                    lemma_bounded_product(self.entry(i as int, 0), b.entry(0, j as int));
                    lemma_bounded_product(self.entry(i as int, 1), b.entry(1, j as int));
                }
            }
            s = s + (self.m[4 * i + k] as i128) * (b.m[4 * k + j] as i128);
            k = k + 1;
        }
        let d = div_floor(s, SCALE as i128);
        if j < 3 {
            d
        } else {
            d + self.m[4 * i + 3] as i128
        }
    }

    /// The product `self * b` (apply `b` first, then `self`); `None` if an
    /// entry leaves its range.
    pub fn mul(&self, b: &Mat4) -> (r: Option<Mat4>)
        requires
            self.wf(),
            b.wf(),
        ensures
            r.is_some() == self.mul_fits(*b),
            r.is_some() ==> r.unwrap().wf() && self.is_product(*b, r.unwrap()),
    {
        let mut out: [i64; 12] = [0; 12];
        let mut i: usize = 0;
        while i < 3
            invariant
                self.wf(),
                b.wf(),
                i <= 3,
                forall|a: int, c: int|
                    0 <= a < i && 0 <= c < 4 ==> {
                        &&& fits_i64(#[trigger] self.product_entry(*b, a, c))
                        &&& c < 3 ==> -LINEAR_MAX <= self.product_entry(*b, a, c) <= LINEAR_MAX
                        &&& out@[4 * a + c] == self.product_entry(*b, a, c)
                    },
            decreases 3 - i,
        {
            let mut j: usize = 0;
            while j < 4
                invariant
                    self.wf(),
                    b.wf(),
                    i < 3,
                    j <= 4,
                    forall|a: int, c: int|
                        0 <= a < i && 0 <= c < 4 ==> {
                            &&& fits_i64(#[trigger] self.product_entry(*b, a, c))
                            &&& c < 3 ==> -LINEAR_MAX <= self.product_entry(*b, a, c) <= LINEAR_MAX
                            &&& out@[4 * a + c] == self.product_entry(*b, a, c)
                        },
                    forall|c: int|
                        0 <= c < j ==> {
                            &&& fits_i64(#[trigger] self.product_entry(*b, i as int, c))
                            &&& c < 3 ==> -LINEAR_MAX <= self.product_entry(*b, i as int, c) <= LINEAR_MAX
                            &&& out@[4 * i + c] == self.product_entry(*b, i as int, c)
                        },
                decreases 4 - j,
            {
                let v = self.product_entry_exec(b, i, j);
                if j < 3 && (v < -LINEAR_MAX as i128 || v > LINEAR_MAX as i128) {
                    assert(!self.mul_fits(*b)) by {
                        assert(!(-LINEAR_MAX <= self.product_entry(*b, i as int, j as int) <= LINEAR_MAX));
                    }
                    return None;
                }
                match narrow(v) {
                    Some(e) => {
                        out[4 * i + j] = e;
                    },
                    None => {
                        assert(!self.mul_fits(*b)) by {
                            assert(!fits_i64(self.product_entry(*b, i as int, j as int)));
                        }
                        return None;
                    },
                }
                j = j + 1;
            }
            i = i + 1;
        }
        let c = Mat4 { m: out };
        assert(self.is_product(*b, c)) by {
            assert forall|a: int, d: int| 0 <= a < 3 && 0 <= d < 4 implies #[trigger] c.entry(a, d)
                == self.product_entry(*b, a, d) by {
                assert(out@[4 * a + d] == self.product_entry(*b, a, d));
            }
        }
        assert(c.wf()) by {
            assert forall|a: int, d: int| 0 <= a < 3 && 0 <= d < 3 implies -LINEAR_MAX <= #[trigger] c.entry(a, d)
                <= LINEAR_MAX by {
                assert(c.entry(a, d) == self.product_entry(*b, a, d));
            }
        }
        Some(c)
    }
}

impl Mat4 {
    /// Sum of the magnitudes of the linear entries of row `i`.
    pub open spec fn row_abs(self, i: int) -> int {
        abs(self.entry(i, 0)) + abs(self.entry(i, 1)) + abs(self.entry(i, 2))
    }
}

impl Point3 {
    /// Sum of the magnitudes of the coordinates.
    pub open spec fn abs_sum(self) -> int {
        abs(self.x as int) + abs(self.y as int) + abs(self.z as int)
    }
}

/// Applying `t` and then `s` to a point agrees with applying their product
/// `s * t` once, up to rounding: coordinate `i` of the two results differs by
/// at most `(row_abs(s, i) + |x| + |y| + |z|) / SCALE + 2` fixed-point units.
pub proof fn lemma_apply_compose(s: Mat4, t: Mat4, st: Mat4, p: Point3)
    requires
        s.is_product(t, st),
        t.apply_fits(p),
    ensures
        forall|i: int|
            0 <= i < 3 ==> abs(SCALE * (#[trigger] s.apply_coord(i, t.apply_spec(p)) - st.apply_coord(i, p)))
                <= s.row_abs(i) + p.abs_sum() + 2 * SCALE,
{
    let q = t.apply_spec(p);
    assert(q.x == t.apply_coord(0, p) && q.y == t.apply_coord(1, p) && q.z == t.apply_coord(2, p));
    assert forall|i: int| 0 <= i < 3 implies abs(SCALE * (#[trigger] s.apply_coord(i, q) - st.apply_coord(i, p)))
        <= s.row_abs(i) + p.abs_sum() + 2 * SCALE by {
        assert(st.entry(i, 0) == s.product_entry(t, i, 0));
        assert(st.entry(i, 1) == s.product_entry(t, i, 1));
        assert(st.entry(i, 2) == s.product_entry(t, i, 2));
        assert(st.entry(i, 3) == s.product_entry(t, i, 3));
        lemma_compose_row(
            s.entry(i, 0), s.entry(i, 1), s.entry(i, 2), s.entry(i, 3),
            t.entry(0, 0), t.entry(0, 1), t.entry(0, 2), t.entry(0, 3),
            t.entry(1, 0), t.entry(1, 1), t.entry(1, 2), t.entry(1, 3),
            t.entry(2, 0), t.entry(2, 1), t.entry(2, 2), t.entry(2, 3),
            p.x as int, p.y as int, p.z as int,
        );
    }
}

impl Mat4 {
    /// Sum of the magnitudes of column `j` of the stored rows.
    pub open spec fn col_abs(self, j: int) -> int {
        abs(self.entry(0, j)) + abs(self.entry(1, j)) + abs(self.entry(2, j))
    }
}

/// Composing `u` with `t` and then with `s` gives the product `(s * t) * u`
/// up to rounding: entry `(i, j)` of `s * (t * u)` and of `(s * t) * u`
/// differ by at most `(row_abs(s, i) + col_abs(u, j)) / SCALE + 2` units.
pub proof fn lemma_mul_compose(s: Mat4, t: Mat4, u: Mat4, tu: Mat4, s_tu: Mat4, st: Mat4, st_u: Mat4)
    requires
        t.is_product(u, tu),
        s.is_product(tu, s_tu),
        s.is_product(t, st),
        st.is_product(u, st_u),
    ensures
        forall|i: int, j: int|
            0 <= i < 3 && 0 <= j < 4 ==> abs(SCALE * (#[trigger] s_tu.entry(i, j) - st_u.entry(i, j))) <= s.row_abs(i)
                + u.col_abs(j) + 2 * SCALE,
{
    assert forall|i: int, j: int| 0 <= i < 3 && 0 <= j < 4 implies abs(
        SCALE * (#[trigger] s_tu.entry(i, j) - st_u.entry(i, j)),
    ) <= s.row_abs(i) + u.col_abs(j) + 2 * SCALE by {
        assert(tu.entry(0, j) == t.product_entry(u, 0, j));
        assert(tu.entry(1, j) == t.product_entry(u, 1, j));
        assert(tu.entry(2, j) == t.product_entry(u, 2, j));
        assert(s_tu.entry(i, j) == s.product_entry(tu, i, j));
        assert(st.entry(i, 0) == s.product_entry(t, i, 0));
        assert(st.entry(i, 1) == s.product_entry(t, i, 1));
        assert(st.entry(i, 2) == s.product_entry(t, i, 2));
        assert(st.entry(i, 3) == s.product_entry(t, i, 3));
        assert(st_u.entry(i, j) == st.product_entry(u, i, j));
        if j < 3 {
            assert(unscale(0) == 0);
            assert(s.entry(i, 0) * 0 + s.entry(i, 1) * 0 + s.entry(i, 2) * 0 == 0) by (nonlinear_arith);
            lemma_compose_row(
                s.entry(i, 0), s.entry(i, 1), s.entry(i, 2), 0,
                t.entry(0, 0), t.entry(0, 1), t.entry(0, 2), 0,
                t.entry(1, 0), t.entry(1, 1), t.entry(1, 2), 0,
                t.entry(2, 0), t.entry(2, 1), t.entry(2, 2), 0,
                u.entry(0, j), u.entry(1, j), u.entry(2, j),
            );
        } else {
            lemma_compose_row(
                s.entry(i, 0), s.entry(i, 1), s.entry(i, 2), s.entry(i, 3),
                t.entry(0, 0), t.entry(0, 1), t.entry(0, 2), t.entry(0, 3),
                t.entry(1, 0), t.entry(1, 1), t.entry(1, 2), t.entry(1, 3),
                t.entry(2, 0), t.entry(2, 1), t.entry(2, 2), t.entry(2, 3),
                u.entry(0, j), u.entry(1, j), u.entry(2, j),
            );
        }
    }
}

/// The rounding of one coordinate of `s * (t * p)` against `(s * t) * p`,
/// written over the entries of row `i` of `s` (`s0..s3`), of `t` (`tkj`),
/// and the coordinates of `p`.
proof fn lemma_compose_row(
    s0: int, s1: int, s2: int, s3: int,
    t00: int, t01: int, t02: int, t03: int,
    t10: int, t11: int, t12: int, t13: int,
    t20: int, t21: int, t22: int, t23: int,
    p0: int, p1: int, p2: int,
)
    ensures ({
        let q0 = unscale(t00 * p0 + t01 * p1 + t02 * p2) + t03;
        let q1 = unscale(t10 * p0 + t11 * p1 + t12 * p2) + t13;
        let q2 = unscale(t20 * p0 + t21 * p1 + t22 * p2) + t23;
        let r = unscale(s0 * q0 + s1 * q1 + s2 * q2) + s3;
        let c0 = unscale(s0 * t00 + s1 * t10 + s2 * t20);
        let c1 = unscale(s0 * t01 + s1 * t11 + s2 * t21);
        let c2 = unscale(s0 * t02 + s1 * t12 + s2 * t22);
        let c3 = unscale(s0 * t03 + s1 * t13 + s2 * t23) + s3;
        let r2 = unscale(c0 * p0 + c1 * p1 + c2 * p2) + c3;
        abs(SCALE * (r - r2)) <= abs(s0) + abs(s1) + abs(s2) + abs(p0) + abs(p1) + abs(p2) + 2 * SCALE
    }),
{
    let sc = SCALE as int;
    let l0 = t00 * p0 + t01 * p1 + t02 * p2;
    let l1 = t10 * p0 + t11 * p1 + t12 * p2;
    let l2 = t20 * p0 + t21 * p1 + t22 * p2;
    let q0 = unscale(l0) + t03;
    let q1 = unscale(l1) + t13;
    let q2 = unscale(l2) + t23;
    let e0 = l0 % sc;
    let e1 = l1 % sc;
    let e2 = l2 % sc;
    lemma_floor_parts(l0);
    lemma_floor_parts(l1);
    lemma_floor_parts(l2);
    let sq = s0 * q0 + s1 * q1 + s2 * q2;
    let r = unscale(sq) + s3;
    let u = sq % sc;
    lemma_floor_parts(sq);
    let m0 = s0 * t00 + s1 * t10 + s2 * t20;
    let m1 = s0 * t01 + s1 * t11 + s2 * t21;
    let m2 = s0 * t02 + s1 * t12 + s2 * t22;
    let m3 = s0 * t03 + s1 * t13 + s2 * t23;
    let c0 = unscale(m0);
    let c1 = unscale(m1);
    let c2 = unscale(m2);
    let c3 = unscale(m3) + s3;
    let f0 = m0 % sc;
    let f1 = m1 % sc;
    let f2 = m2 % sc;
    let g = m3 % sc;
    lemma_floor_parts(m0);
    lemma_floor_parts(m1);
    lemma_floor_parts(m2);
    lemma_floor_parts(m3);
    let cp = c0 * p0 + c1 * p1 + c2 * p2;
    let r2 = unscale(cp) + c3;
    let v = cp % sc;
    lemma_floor_parts(cp);
    let ee = s0 * e0 + s1 * e1 + s2 * e2;
    lemma_scaled_term(s0, q0, t03, l0, e0);
    lemma_scaled_term(s1, q1, t13, l1, e1);
    lemma_scaled_term(s2, q2, t23, l2, e2);
    assert(sc * sq == s0 * l0 + s1 * l1 + s2 * l2 - ee + sc * m3);
    lemma_row_expand(s0, t00, t01, t02, p0, p1, p2);
    lemma_row_expand(s1, t10, t11, t12, p0, p1, p2);
    lemma_row_expand(s2, t20, t21, t22, p0, p1, p2);
    lemma_column_expand(s0, s1, s2, t00, t10, t20, p0);
    lemma_column_expand(s0, s1, s2, t01, t11, t21, p1);
    lemma_column_expand(s0, s1, s2, t02, t12, t22, p2);
    assert(s0 * l0 + s1 * l1 + s2 * l2 == m0 * p0 + m1 * p1 + m2 * p2);
    let ff = f0 * p0 + f1 * p1 + f2 * p2;
    lemma_split_term(m0, c0, f0, p0);
    lemma_split_term(m1, c1, f1, p1);
    lemma_split_term(m2, c2, f2, p2);
    assert(m0 * p0 + m1 * p1 + m2 * p2 == sc * cp + ff);
    // sc * sq == sc * sc * (r - s3) + sc * u, and the other side likewise.
    assert(sq == sc * (r - s3) + u);
    assert(cp == sc * (r2 - c3) + v);
    assert(m3 == sc * (c3 - s3) + g);
    assert(sc * sq == sc * cp + ff - ee + sc * m3);
    assert(sc * sc * (r - r2) == sc * v + ff - ee + sc * g - sc * u) by (nonlinear_arith)
        requires
            sq == sc * (r - s3) + u,
            cp == sc * (r2 - c3) + v,
            m3 == sc * (c3 - s3) + g,
            sc * sq == sc * cp + ff - ee + sc * m3,
            sc == 1000;
    lemma_mul_abs_bound(s0, e0, abs(s0), sc);
    lemma_mul_abs_bound(s1, e1, abs(s1), sc);
    lemma_mul_abs_bound(s2, e2, abs(s2), sc);
    lemma_mul_abs_bound(f0, p0, sc, abs(p0));
    lemma_mul_abs_bound(f1, p1, sc, abs(p1));
    lemma_mul_abs_bound(f2, p2, sc, abs(p2));
    let bound = abs(s0) + abs(s1) + abs(s2) + abs(p0) + abs(p1) + abs(p2) + 2 * sc;
    assert(abs(sc * sc * (r - r2)) <= sc * bound);
    assert(abs(sc * (r - r2)) <= bound) by (nonlinear_arith)
        requires
            abs(sc * sc * (r - r2)) <= sc * bound,
            sc == 1000;
}

proof fn lemma_scaled_term(s: int, q: int, t: int, l: int, e: int)
    requires
        (SCALE as int) * (q - t) == l - e,
    ensures
        (SCALE as int) * (s * q) == s * l - s * e + (SCALE as int) * (s * t),
{
    let sc = SCALE as int;
    assert(s * (sc * (q - t)) == s * (l - e));
    assert(s * (sc * (q - t)) == sc * (s * q) - sc * (s * t)) by (nonlinear_arith);
    assert(s * (l - e) == s * l - s * e) by (nonlinear_arith);
}

proof fn lemma_row_expand(s: int, t0: int, t1: int, t2: int, p0: int, p1: int, p2: int)
    ensures
        s * (t0 * p0 + t1 * p1 + t2 * p2) == (s * t0) * p0 + (s * t1) * p1 + (s * t2) * p2,
{
    vstd::arithmetic::mul::lemma_mul_is_distributive_add(s, t0 * p0 + t1 * p1, t2 * p2);
    vstd::arithmetic::mul::lemma_mul_is_distributive_add(s, t0 * p0, t1 * p1);
    vstd::arithmetic::mul::lemma_mul_is_associative(s, t0, p0);
    vstd::arithmetic::mul::lemma_mul_is_associative(s, t1, p1);
    vstd::arithmetic::mul::lemma_mul_is_associative(s, t2, p2);
}

proof fn lemma_column_expand(s0: int, s1: int, s2: int, t0: int, t1: int, t2: int, p: int)
    ensures
        (s0 * t0 + s1 * t1 + s2 * t2) * p == (s0 * t0) * p + (s1 * t1) * p + (s2 * t2) * p,
{
    assert((s0 * t0 + s1 * t1 + s2 * t2) * p == (s0 * t0) * p + (s1 * t1) * p + (s2 * t2) * p) by (nonlinear_arith);
}

proof fn lemma_split_term(m: int, c: int, f: int, p: int)
    requires
        m == (SCALE as int) * c + f,
    ensures
        m * p == (SCALE as int) * (c * p) + f * p,
{
    let sc = SCALE as int;
    assert((sc * c + f) * p == sc * (c * p) + f * p) by (nonlinear_arith);
}

/// `a == SCALE * unscale(a) + a % SCALE` with the remainder in `[0, SCALE)`.
proof fn lemma_floor_parts(a: int)
    ensures
        a == (SCALE as int) * unscale(a) + a % (SCALE as int),
        0 <= a % (SCALE as int) < SCALE,
{
    vstd::arithmetic::div_mod::lemma_fundamental_div_mod(a, SCALE as int);
}

/// `|a * b| <= 2^103` for a linear entry and a coordinate.
proof fn lemma_bounded_product(a: int, b: int)
    requires
        -LINEAR_MAX <= a <= LINEAR_MAX,
        i64::MIN <= b <= i64::MAX,
    ensures
        -0x80_0000_0000_0000_0000_0000_0000 <= a * b <= 0x80_0000_0000_0000_0000_0000_0000,
{
    lemma_mul_abs_bound(a, b, LINEAR_MAX as int, 0x8000_0000_0000_0000);
    assert((LINEAR_MAX as int) * 0x8000_0000_0000_0000 == 0x80_0000_0000_0000_0000_0000_0000);
}

} // verus!
