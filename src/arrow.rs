//! World-space and screen-space arrows, their transforms, and the projection
//! of a world-space arrow through a camera onto a viewport.

use vstd::prelude::*;
use crate::fixed::{SCALE, div_floor};
use crate::geometry::{Mat4, Point2, Point3, fits_i64, narrow, unscale};

verus! {

/// Camera-space depth at or before which an arrow is not drawn (1.0).
pub const NEAR_PLANE_Z: i64 = 1000;

/// An RGBA color, each channel in fixed point (`SCALE` is full intensity).
#[derive(Clone, Copy, Debug, PartialEq, Eq, Structural)]
pub struct Color {
    pub r: i64,
    pub g: i64,
    pub b: i64,
    pub a: i64,
}

impl Color {
    /// Every channel lies in `[0, SCALE]`.
    pub open spec fn bounded(self) -> bool {
        0 <= self.r <= SCALE && 0 <= self.g <= SCALE && 0 <= self.b <= SCALE && 0 <= self.a <= SCALE
    }
}

impl Color {
    /// Opaque black, the color of an arrow made without one.
    pub fn black() -> (r: Color)
        ensures
            r == (Color { r: 0, g: 0, b: 0, a: SCALE }),
    {
        Color { r: 0, g: 0, b: 0, a: SCALE }
    }
}

/// An arrow in world space.
#[derive(Clone, Copy, Debug, PartialEq, Eq, Structural)]
pub struct Arrow3 {
    pub tail: Point3,
    pub head: Point3,
    pub clr: Color,
}

/// An arrow on the screen.
#[derive(Clone, Copy, Debug, PartialEq, Eq, Structural)]
pub struct Arrow2 {
    pub tail: Point2,
    pub head: Point2,
    pub clr: Color,
}

impl Arrow2 {
    pub fn from_to_clr(tail: Point2, head: Point2, clr: Color) -> (r: Arrow2)
        ensures
            r == (Arrow2 { tail, head, clr }),
    {
        Arrow2 { tail, head, clr }
    }
}

/// A pinhole projection: camera-space `(x, y, z)` with `z > 0` maps to
/// `(focal_x * x / z, focal_y * y / z)`. The focal factors are fixed-point.
#[derive(Clone, Copy, Debug, PartialEq, Eq, Structural)]
pub struct Perspective {
    pub focal_x: i64,
    pub focal_y: i64,
}

/// A screen rectangle: corner `(x, y)`, width `w` and height `h`.
#[derive(Clone, Copy, Debug, PartialEq, Eq, Structural)]
pub struct Viewport {
    pub x: i64,
    pub y: i64,
    pub w: i64,
    pub h: i64,
}

impl Viewport {
    /// Screen units per projected unit: `0.3 * min(w, h)`.
    pub open spec fn scale_factor(self) -> int {
        (3 * (if self.w < self.h { self.w as int } else { self.h as int })) / 10
    }

    pub open spec fn center_x(self) -> int {
        self.x + self.w / 2
    }

    pub open spec fn center_y(self) -> int {
        self.y + self.h / 2
    }
}

/// Projected coordinate `focal * c / z`.
pub open spec fn perspective_coord(focal: int, c: int, z: int) -> int {
    (focal * c) / z
}

/// Screen coordinate of a projected coordinate.
pub open spec fn screen_coord(projected: int, scale: int, center: int) -> int {
    unscale(projected * scale) + center
}

/// The screen point of camera-space `q` (with `q.z > 0`), if representable.
pub open spec fn project_point_spec(persp: Perspective, view: Viewport, q: Point3) -> Option<Point2> {
    let px = perspective_coord(persp.focal_x as int, q.x as int, q.z as int);
    let py = perspective_coord(persp.focal_y as int, q.y as int, q.z as int);
    if !fits_i64(px) || !fits_i64(py) {
        None
    } else {
        let sx = screen_coord(px, view.scale_factor(), view.center_x());
        let sy = screen_coord(py, view.scale_factor(), view.center_y());
        if fits_i64(sx) && fits_i64(sy) {
            Some(Point2 { x: sx as i64, y: sy as i64 })
        } else {
            None
        }
    }
}

/// Projects a camera-space point in front of the camera.
fn project_point(persp: &Perspective, view: &Viewport, q: &Point3) -> (r: Option<Point2>)
    requires
        q.z > 0,
    ensures
        r == project_point_spec(*persp, *view, *q),
{
    proof {
        crate::fixed::lemma_mul_abs_bound(persp.focal_x as int, q.x as int, 0x8000_0000_0000_0000, 0x8000_0000_0000_0000);
        crate::fixed::lemma_mul_abs_bound(persp.focal_y as int, q.y as int, 0x8000_0000_0000_0000, 0x8000_0000_0000_0000);
    }
    let px = match narrow(div_floor(persp.focal_x as i128 * q.x as i128, q.z as i128)) {
        Some(v) => v,
        None => {
            return None;
        },
    };
    let py = match narrow(div_floor(persp.focal_y as i128 * q.y as i128, q.z as i128)) {
        Some(v) => v,
        None => {
            return None;
        },
    };
    let m: i128 = if view.w < view.h { view.w as i128 } else { view.h as i128 };
    let scale: i128 = div_floor(3 * m, 10);
    let cx: i128 = view.x as i128 + div_floor(view.w as i128, 2);
    let cy: i128 = view.y as i128 + div_floor(view.h as i128, 2);
    proof {
        assert(-0x8000_0000_0000_0000 <= scale <= 0x8000_0000_0000_0000);
        crate::fixed::lemma_mul_abs_bound(px as int, scale as int, 0x8000_0000_0000_0000, 0x8000_0000_0000_0000);
        crate::fixed::lemma_mul_abs_bound(py as int, scale as int, 0x8000_0000_0000_0000, 0x8000_0000_0000_0000);
    }
    let sx = match narrow(div_floor(px as i128 * scale, SCALE as i128) + cx) {
        Some(v) => v,
        None => {
            return None;
        },
    };
    let sy = match narrow(div_floor(py as i128 * scale, SCALE as i128) + cy) {
        Some(v) => v,
        None => {
            return None;
        },
    };
    Some(Point2 { x: sx, y: sy })
}

impl Arrow3 {
    pub fn from_to_clr(tail: Point3, head: Point3, clr: Color) -> (r: Arrow3)
        ensures
            r == (Arrow3 { tail, head, clr }),
    {
        Arrow3 { tail, head, clr }
    }

    /// An arrow in the default color.
    pub fn from_to(tail: Point3, head: Point3) -> (r: Arrow3)
        ensures
            r == (Arrow3 { tail, head, clr: Color { r: 0, g: 0, b: 0, a: SCALE } }),
    {
        Arrow3 { tail, head, clr: Color::black() }
    }

    /// Both endpoints can be transformed by `mat`.
    pub open spec fn transform_fits(self, mat: Mat4) -> bool {
        mat.apply_fits(self.tail) && mat.apply_fits(self.head)
    }

    /// The arrow with both endpoints transformed by `mat`.
    pub open spec fn transformed(self, mat: Mat4) -> Arrow3 {
        Arrow3 { tail: mat.apply_spec(self.tail), head: mat.apply_spec(self.head), clr: self.clr }
    }

    /// Transforms both endpoints in place; returns `false`, leaving the arrow
    /// unchanged, when an endpoint would leave the representable range.
    pub fn map_transform(&mut self, mat: &Mat4) -> (ok: bool)
        requires
            mat.wf(),
        ensures
            ok == old(self).transform_fits(*mat),
            ok ==> *final(self) == old(self).transformed(*mat),
            !ok ==> *final(self) == *old(self),
    {
        let t = mat.apply(&self.tail);
        let h = mat.apply(&self.head);
        match (t, h) {
            (Some(t), Some(h)) => {
                self.tail = t;
                self.head = h;
                true
            },
            _ => false,
        }
    }

    /// The screen arrow of `self` seen through `camera` and `persp` in `view`.
    pub open spec fn project_spec(self, persp: Perspective, camera: Mat4, view: Viewport) -> Option<Arrow2> {
        if !self.transform_fits(camera) {
            None
        } else {
            let t = camera.apply_spec(self.tail);
            let h = camera.apply_spec(self.head);
            if h.z <= NEAR_PLANE_Z || t.z <= NEAR_PLANE_Z {
                None
            } else {
                match (project_point_spec(persp, view, t), project_point_spec(persp, view, h)) {
                    (Some(a), Some(b)) => Some(Arrow2 { tail: a, head: b, clr: self.clr }),
                    _ => None,
                }
            }
        }
    }

    /// Moves the arrow into camera space, culls it when either endpoint is
    /// not beyond the near plane, and otherwise projects both endpoints and
    /// maps them into `view`, centered and scaled by `0.3 * min(w, h)`.
    pub fn project_to_viewport(&self, persp: &Perspective, camera: &Mat4, view: &Viewport) -> (r: Option<Arrow2>)
        requires
            camera.wf(),
        ensures
            r == self.project_spec(*persp, *camera, *view),
            self.transform_fits(*camera) && (camera.apply_spec(self.tail).z <= NEAR_PLANE_Z
                || camera.apply_spec(self.head).z <= NEAR_PLANE_Z) ==> r.is_none(),
            self.transform_fits(*camera) && camera.apply_spec(self.tail).z > NEAR_PLANE_Z
                && camera.apply_spec(self.head).z > NEAR_PLANE_Z
                && project_point_spec(*persp, *view, camera.apply_spec(self.tail)).is_some()
                && project_point_spec(*persp, *view, camera.apply_spec(self.head)).is_some() ==> r.is_some(),
    {
        let headr = match camera.apply(&self.head) {
            Some(p) => p,
            None => {
                return None;
            },
        };
        let tailr = match camera.apply(&self.tail) {
            Some(p) => p,
            None => {
                return None;
            },
        };
        if headr.z <= NEAR_PLANE_Z || tailr.z <= NEAR_PLANE_Z {
            None
        } else {
            match (project_point(persp, view, &tailr), project_point(persp, view, &headr)) {
                (Some(a), Some(b)) => Some(Arrow2::from_to_clr(a, b, self.clr)),
                _ => None,
            }
        }
    }
}

/// Every arrow of `s` can be transformed by `mat`.
pub open spec fn all_fit(s: Seq<Arrow3>, mat: Mat4) -> bool {
    forall|i: int| 0 <= i < s.len() ==> (#[trigger] s[i]).transform_fits(mat)
}

/// The arrows of `s`, each transformed by `mat`.
pub open spec fn transformed_all(s: Seq<Arrow3>, mat: Mat4) -> Seq<Arrow3> {
    Seq::new(s.len(), |i: int| s[i].transformed(mat))
}

/// All arrows transformed by `mat`, or `None` when one of them cannot be.
pub fn transform_all(arrows: &Vec<Arrow3>, mat: &Mat4) -> (r: Option<Vec<Arrow3>>)
    requires
        mat.wf(),
    ensures
        r.is_some() == all_fit(arrows@, *mat),
        r.is_some() ==> r.unwrap()@ == transformed_all(arrows@, *mat),
{
    let mut out: Vec<Arrow3> = Vec::new();
    let mut i: usize = 0;
    while i < arrows.len()
        invariant
            mat.wf(),
            i <= arrows@.len(),
            out@.len() == i,
            forall|k: int| 0 <= k < i ==> (#[trigger] arrows@[k]).transform_fits(*mat),
            forall|k: int| 0 <= k < i ==> #[trigger] out@[k] == arrows@[k].transformed(*mat),
        decreases arrows@.len() - i,
    {
        let mut a = arrows[i];
        if !a.map_transform(mat) {
            return None;
        }
        out.push(a);
        i = i + 1;
    }
    assert(out@ =~= transformed_all(arrows@, *mat));
    Some(out)
}

/// The screen arrows of those of `s` that are visible, in order.
pub open spec fn rendered(s: Seq<Arrow3>, persp: Perspective, camera: Mat4, view: Viewport) -> Seq<Arrow2>
    decreases s.len(),
{
    if s.len() == 0 {
        Seq::empty()
    } else {
        let front = rendered(s.drop_last(), persp, camera, view);
        match s.last().project_spec(persp, camera, view) {
            Some(a) => front.push(a),
            None => front,
        }
    }
}

/// Projects every arrow and keeps the visible ones, in order.
pub fn render_arrows(arrows: &Vec<Arrow3>, persp: &Perspective, camera: &Mat4, view: &Viewport) -> (r: Vec<Arrow2>)
    requires
        camera.wf(),
    ensures
        r@ == rendered(arrows@, *persp, *camera, *view),
{
    let mut out: Vec<Arrow2> = Vec::new();
    let mut i: usize = 0;
    while i < arrows.len()
        invariant
            camera.wf(),
            i <= arrows@.len(),
            out@ == rendered(arrows@.take(i as int), *persp, *camera, *view),
        decreases arrows@.len() - i,
    {
        assert(arrows@.take(i + 1).drop_last() =~= arrows@.take(i as int));
        assert(arrows@.take(i + 1).last() == arrows@[i as int]);
        match arrows[i].project_to_viewport(persp, camera, view) {
            Some(a) => out.push(a),
            None => {},
        }
        i = i + 1;
    }
    assert(arrows@.take(i as int) =~= arrows@);
    out
}

} // verus!
