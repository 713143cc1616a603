//! The field view: charges, their arrows, the transforms applied to the
//! arrows since they were sampled, and the camera.
//!
//! The camera transform and the arrow transforms are kept apart: the camera
//! only moves the eye, while `arrow_transforms` records every transform
//! applied to the arrows, so that arrows sampled anew after a charge changed
//! can be brought back to where the user had moved them.

use vstd::prelude::*;
use crate::arrow::{Arrow2, Arrow3, Perspective, Viewport, all_fit, render_arrows, rendered, transform_all,
    transformed_all};
use crate::charge::{CHARGE_MAX, FieldData, PointCharge, arrows_spec, charge_samples, charges_valid, charges_wf,
    field_spec, in_bounds, point_in_bounds, superpose};
use crate::field::{GRID_S, Preset, populate_arrows, samples_of};
use crate::fixed::{SCALE, abs, div_floor};
use crate::geometry::{Mat4, Point3, fits_i64, lemma_apply_compose, lemma_mul_compose, narrow, translation_mat4};

verus! {

/// Why a view refused a request.
#[derive(Clone, Copy, Debug, PartialEq, Eq, Structural)]
pub enum FieldError {
    /// No charge has the given position in the list.
    InvalidIndex,
    /// A value lies outside the range the view can represent.
    OutOfRange,
}

/// A set of point charges and the arrows that show their field.
pub struct PointChargesFieldView {
    /// The charges whose field is shown; a charge is addressed by its position.
    pub charges: Vec<PointCharge>,
    /// Lattice, spacing, normalization and coloring, fixed at construction.
    pub preset: Preset,
    /// The arrows showing the field, in lattice order.
    pub arrows: Vec<Arrow3>,
    /// The product of all transforms applied to the arrows.
    pub arrow_transforms: Mat4,
    /// From world positions to positions relative to the camera.
    pub camera: Mat4,
    /// From camera space to the projection plane.
    pub persp: Perspective,
}

/// The arrows sampled from `cs` and moved by `at`, or left as sampled when
/// one of them cannot be moved.
pub open spec fn replayed_spec(cs: Seq<PointCharge>, preset: Preset, at: Mat4) -> Seq<Arrow3> {
    let fresh = arrows_spec(cs, preset);
    if all_fit(fresh, at) {
        transformed_all(fresh, at)
    } else {
        fresh
    }
}

impl PointChargesFieldView {
    pub open spec fn wf(&self) -> bool {
        &&& charges_wf(self.charges@)
        &&& self.preset.wf()
        &&& self.arrow_transforms.wf()
        &&& self.camera.wf()
    }

    /// `after` is `before` with only its arrows replaced by `arrows`.
    pub open spec fn same_but_arrows(before: &Self, after: &Self, arrows: Seq<Arrow3>) -> bool {
        &&& after.charges@ == before.charges@
        &&& after.preset == before.preset
        &&& after.arrows@ == arrows
        &&& after.arrow_transforms == before.arrow_transforms
        &&& after.camera == before.camera
        &&& after.persp == before.persp
    }

    /// `after` is `before` after its arrows were sampled anew and moved by
    /// the recorded arrow transforms.
    pub open spec fn rebuilt(before: &Self, after: &Self) -> bool {
        Self::same_but_arrows(before, after, replayed_spec(before.charges@, before.preset, before.arrow_transforms))
    }

    /// `after` is `before` after the transform `t` was applied to its arrows
    /// and recorded.
    pub open spec fn arrows_moved(before: &Self, after: &Self, t: Mat4) -> bool {
        &&& after.charges@ == before.charges@
        &&& after.preset == before.preset
        &&& all_fit(before.arrows@, t)
        &&& after.arrows@ == transformed_all(before.arrows@, t)
        &&& t.is_product(before.arrow_transforms, after.arrow_transforms)
        &&& after.camera == before.camera
        &&& after.persp == before.persp
    }

    /// A view of `charges` under `preset`. The camera is translated by
    /// `camera_offset` and by half a grid cell down y, so that the eye sits at
    /// the middle height of a cell. It holds no arrows until `populate_field`
    /// is called. Refused with `OutOfRange` when the preset or a charge is out
    /// of range, or the shifted camera offset leaves `i64`.
    pub fn new(camera_offset: Point3, preset: Preset, persp: Perspective, charges: Vec<PointCharge>) -> (r: Result<
        PointChargesFieldView,
        FieldError,
    >)
        ensures
            r.is_ok() == (preset.wf() && charges_wf(charges@) && fits_i64(camera_offset.y - preset.grid_s / 2)),
            r matches Ok(v) ==> {
                &&& v.wf()
                &&& v.charges@ == charges@
                &&& v.preset == preset
                &&& v.persp == persp
                &&& v.arrows@.len() == 0
                &&& v.arrow_transforms == Mat4::identity_spec()
                &&& v.camera == Mat4::translation_spec(
                    Point3 { x: camera_offset.x, y: (camera_offset.y - preset.grid_s / 2) as i64, z: camera_offset.z },
                )
            },
    {
        if !preset.is_valid() || !charges_valid(&charges) {
            return Err(FieldError::OutOfRange);
        }
        let y = match narrow(camera_offset.y as i128 - div_floor(preset.grid_s as i128, 2)) {
            Some(y) => y,
            None => {
                return Err(FieldError::OutOfRange);
            },
        };
        Ok(PointChargesFieldView {
            charges,
            preset,
            arrows: Vec::new(),
            arrow_transforms: Mat4::identity(),
            camera: translation_mat4(Point3 { x: camera_offset.x, y, z: camera_offset.z }),
            persp,
        })
    }

    /// A parallel-plate capacitor: a sheet of unit positive charges at
    /// `y = -4 * GRID_S` facing a sheet of unit negative charges at
    /// `y = 4 * GRID_S`, seen from `camera_dist` along z.
    pub fn new_capacitor(camera_dist: i64, greatest_field: i64, greatest_pot: i64, persp: Perspective) -> (r: Result<
        PointChargesFieldView,
        FieldError,
    >)
        ensures
            r.is_ok() == (greatest_field > 0 && greatest_pot > 0),
            r matches Ok(v) ==> {
                &&& v.wf()
                &&& v.charges@ == capacitor_charges()
                &&& v.preset == capacitor_preset(greatest_field, greatest_pot)
                &&& v.persp == persp
                &&& v.arrows@.len() == 0
                &&& v.arrow_transforms == Mat4::identity_spec()
                &&& v.camera == Mat4::translation_spec(Point3 { x: 0, y: 0, z: camera_dist })
            },
    {
        if greatest_field <= 0 || greatest_pot <= 0 {
            return Err(FieldError::OutOfRange);
        }
        let preset = Preset {
            grid_s: GRID_S,
            x_range: (-2, 3),
            y_range: (-3, 3),
            z_range: (-1, 2),
            greatest_field: Some(greatest_field),
            greatest_pot: Some(greatest_pot),
            potential_shading: false,
            colorful_potential: false,
        };
        let charges = capacitor_sheets();
        proof {
            assert forall|n: int| 0 <= n < charges@.len() implies (#[trigger] charges@[n]).wf() by {
                let a = n / 28;
                let b = (n % 28) / 2;
                assert(n == 2 * (14 * a + b) + n % 2);
            }
        }
        Ok(PointChargesFieldView {
            charges,
            preset,
            arrows: Vec::new(),
            arrow_transforms: Mat4::identity(),
            camera: translation_mat4(Point3 { x: 0, y: 0, z: camera_dist }),
            persp,
        })
    }

    /// The superposed field of all charges at `p`.
    pub fn field_data_at(&self, p: &Point3) -> (r: FieldData)
        requires
            self.wf(),
            in_bounds(*p),
        ensures
            r == field_spec(self.charges@, *p),
    {
        superpose(&self.charges, p)
    }

    /// Samples the field anew and replaces the arrows with the result.
    pub fn populate_field(&mut self)
        requires
            old(self).wf(),
        ensures
            final(self).wf(),
            Self::same_but_arrows(old(self), final(self), arrows_spec(old(self).charges@, old(self).preset)),
    {
        let arrows = populate_arrows(&self.charges, &self.preset);
        assert(samples_of(&self.charges, self.preset) =~= charge_samples(self.charges@, self.preset));
        self.arrows = arrows;
    }

    /// Replaces the arrows.
    pub fn set_arrows(&mut self, arrows: Vec<Arrow3>)
        requires
            old(self).wf(),
        ensures
            final(self).wf(),
            Self::same_but_arrows(old(self), final(self), arrows@),
    {
        self.arrows = arrows;
    }

    /// Applies `t` to every arrow and records it in `arrow_transforms`
    /// (`arrow_transforms = t * arrow_transforms`). Refuses, changing nothing,
    /// when a result leaves the representable range.
    pub fn transform_arrows(&mut self, t: &Mat4) -> (r: Result<(), FieldError>)
        requires
            old(self).wf(),
            t.wf(),
        ensures
            final(self).wf(),
            r.is_ok() == (all_fit(old(self).arrows@, *t) && t.mul_fits(old(self).arrow_transforms)),
            r.is_ok() ==> Self::arrows_moved(old(self), final(self), *t),
            r.is_err() ==> r == Err::<(), FieldError>(FieldError::OutOfRange) && *final(self) == *old(self),
    {
        let composed = match t.mul(&self.arrow_transforms) {
            Some(c) => c,
            None => {
                return Err(FieldError::OutOfRange);
            },
        };
        let moved = match transform_all(&self.arrows, t) {
            Some(a) => a,
            None => {
                return Err(FieldError::OutOfRange);
            },
        };
        self.arrows = moved;
        self.arrow_transforms = composed;
        Ok(())
    }

    /// Applies the recorded `arrow_transforms` to the arrows, without
    /// recording it again. Refuses, changing nothing, when a result leaves
    /// the representable range.
    pub fn reapply_arrow_transforms(&mut self) -> (r: Result<(), FieldError>)
        requires
            old(self).wf(),
        ensures
            final(self).wf(),
            r.is_ok() == all_fit(old(self).arrows@, old(self).arrow_transforms),
            r.is_ok() ==> Self::same_but_arrows(
                old(self),
                final(self),
                transformed_all(old(self).arrows@, old(self).arrow_transforms),
            ),
            r.is_err() ==> r == Err::<(), FieldError>(FieldError::OutOfRange) && *final(self) == *old(self),
    {
        match transform_all(&self.arrows, &self.arrow_transforms) {
            Some(a) => {
                self.arrows = a;
                Ok(())
            },
            None => Err(FieldError::OutOfRange),
        }
    }

    /// Samples the field anew and moves the new arrows by the recorded
    /// `arrow_transforms`, which stays as it was. When the new arrows cannot
    /// all be moved they are left as sampled and `OutOfRange` is returned.
    pub fn rebuild_and_replay(&mut self) -> (r: Result<(), FieldError>)
        requires
            old(self).wf(),
        ensures
            final(self).wf(),
            Self::rebuilt(old(self), final(self)),
            r.is_ok() == all_fit(arrows_spec(old(self).charges@, old(self).preset), old(self).arrow_transforms),
            r.is_err() ==> r == Err::<(), FieldError>(FieldError::OutOfRange),
    {
        self.populate_field();
        self.reapply_arrow_transforms()
    }

    /// Moves the camera by `t` (`camera = t * camera`). Refuses, changing
    /// nothing, when an entry leaves its range.
    pub fn transform_camera(&mut self, t: &Mat4) -> (r: Result<(), FieldError>)
        requires
            old(self).wf(),
            t.wf(),
        ensures
            final(self).wf(),
            r.is_ok() == t.mul_fits(old(self).camera),
            r.is_ok() ==> {
                &&& t.is_product(old(self).camera, final(self).camera)
                &&& final(self).charges@ == old(self).charges@
                &&& final(self).preset == old(self).preset
                &&& final(self).arrows@ == old(self).arrows@
                &&& final(self).arrow_transforms == old(self).arrow_transforms
                &&& final(self).persp == old(self).persp
            },
            r.is_err() ==> r == Err::<(), FieldError>(FieldError::OutOfRange) && *final(self) == *old(self),
    {
        match t.mul(&self.camera) {
            Some(c) => {
                self.camera = c;
                Ok(())
            },
            None => Err(FieldError::OutOfRange),
        }
    }

    /// Moves charge `index` to `loc`. The arrows are not resampled.
    pub fn set_charge_location(&mut self, index: usize, loc: Point3) -> (r: Result<(), FieldError>)
        requires
            old(self).wf(),
        ensures
            final(self).wf(),
            index >= old(self).charges@.len() ==> r == Err::<(), FieldError>(FieldError::InvalidIndex),
            index < old(self).charges@.len() && !in_bounds(loc) ==> r == Err::<(), FieldError>(
                FieldError::OutOfRange,
            ),
            r.is_err() ==> *final(self) == *old(self),
            r.is_ok() == (index < old(self).charges@.len() && in_bounds(loc)),
            r.is_ok() ==> final(self).charges@ == old(self).charges@.update(
                index as int,
                PointCharge { charge: old(self).charges@[index as int].charge, loc },
            ),
            r.is_ok() ==> Self::same_but_arrows(
                &PointChargesFieldView { charges: final(self).charges, ..*old(self) },
                final(self),
                old(self).arrows@,
            ),
    {
        if index >= self.charges.len() {
            return Err(FieldError::InvalidIndex);
        }
        if !point_in_bounds(&loc) {
            return Err(FieldError::OutOfRange);
        }
        let c = PointCharge { charge: self.charges[index].charge, loc };
        self.charges.set(index, c);
        proof {
            assert forall|i: int| 0 <= i < self.charges@.len() implies (#[trigger] self.charges@[i]).wf() by {
                if i != index {
                    assert(self.charges@[i] == old(self).charges@[i]);
                }
            }
        }
        Ok(())
    }

    /// Sets the value of charge `index`. The arrows are not resampled.
    pub fn set_charge_magnitude(&mut self, index: usize, value: i64) -> (r: Result<(), FieldError>)
        requires
            old(self).wf(),
        ensures
            final(self).wf(),
            index >= old(self).charges@.len() ==> r == Err::<(), FieldError>(FieldError::InvalidIndex),
            index < old(self).charges@.len() && !(-CHARGE_MAX <= value <= CHARGE_MAX) ==> r == Err::<
                (),
                FieldError,
            >(FieldError::OutOfRange),
            r.is_err() ==> *final(self) == *old(self),
            r.is_ok() == (index < old(self).charges@.len() && -CHARGE_MAX <= value <= CHARGE_MAX),
            r.is_ok() ==> final(self).charges@ == old(self).charges@.update(
                index as int,
                PointCharge { charge: value, loc: old(self).charges@[index as int].loc },
            ),
            r.is_ok() ==> Self::same_but_arrows(
                &PointChargesFieldView { charges: final(self).charges, ..*old(self) },
                final(self),
                old(self).arrows@,
            ),
    {
        if index >= self.charges.len() {
            return Err(FieldError::InvalidIndex);
        }
        if value < -CHARGE_MAX || value > CHARGE_MAX {
            return Err(FieldError::OutOfRange);
        }
        let c = PointCharge { charge: value, loc: self.charges[index].loc };
        self.charges.set(index, c);
        proof {
            assert forall|i: int| 0 <= i < self.charges@.len() implies (#[trigger] self.charges@[i]).wf() by {
                if i != index {
                    assert(self.charges@[i] == old(self).charges@[i]);
                }
            }
        }
        Ok(())
    }

    /// The visible arrows as seen through the camera in `view`, in order.
    pub fn render(&self, view: &Viewport) -> (r: Vec<Arrow2>)
        requires
            self.wf(),
        ensures
            r@ == rendered(self.arrows@, self.persp, self.camera, *view),
    {
        render_arrows(&self.arrows, &self.persp, &self.camera, view)
    }

    /// The lattice bounds along x, y and z.
    pub fn ranges(&self) -> (r: ((i64, i64), (i64, i64), (i64, i64)))
        ensures
            r == (self.preset.x_range, self.preset.y_range, self.preset.z_range),
    {
        (self.preset.x_range, self.preset.y_range, self.preset.z_range)
    }

    /// The field strength drawn at full length, if the preset fixes one.
    pub fn greatest_field(&self) -> (r: Option<i64>)
        ensures
            r == self.preset.greatest_field,
    {
        self.preset.greatest_field
    }

    /// The potential magnitude drawn at the color extremes, if the preset fixes one.
    pub fn greatest_pot(&self) -> (r: Option<i64>)
        ensures
            r == self.preset.greatest_pot,
    {
        self.preset.greatest_pot
    }
}

/// Spacing of the capacitor's charges along x: a third of the grid spacing.
pub const CAPACITOR_STEP_X: i64 = 5000;

/// Spacing of the capacitor's charges along z: half the grid spacing.
pub const CAPACITOR_STEP_Z: i64 = 7500;

/// The capacitor's lattice, normalization and coloring.
pub open spec fn capacitor_preset(greatest_field: i64, greatest_pot: i64) -> Preset {
    Preset {
        grid_s: GRID_S,
        x_range: (-2i64, 3i64),
        y_range: (-3i64, 3i64),
        z_range: (-1i64, 2i64),
        greatest_field: Some(greatest_field),
        greatest_pot: Some(greatest_pot),
        potential_shading: false,
        colorful_potential: false,
    }
}

/// The capacitor's charges: for column `a` in `0..20` (x index `a - 9`) and
/// row `b` in `0..14` (z index `b - 6`), a positive charge on the lower sheet
/// followed by a negative one on the upper sheet.
pub open spec fn capacitor_charges() -> Seq<PointCharge> {
    Seq::new(
        560,
        |n: int|
            {
                let a = n / 28;
                let b = (n % 28) / 2;
                let x = ((a - 9) * CAPACITOR_STEP_X) as i64;
                let z = ((b - 6) * CAPACITOR_STEP_Z) as i64;
                if n % 2 == 0 {
                    PointCharge { charge: SCALE, loc: Point3 { x, y: (-4 * GRID_S) as i64, z } }
                } else {
                    PointCharge { charge: (-SCALE) as i64, loc: Point3 { x, y: (4 * GRID_S) as i64, z } }
                }
            },
    )
}

fn capacitor_sheets() -> (r: Vec<PointCharge>)
    ensures
        r@ == capacitor_charges(),
{
    let mut out: Vec<PointCharge> = Vec::new();
    let mut i: i64 = -9;
    while i < 11
        invariant
            -9 <= i <= 11,
            out@.len() == 28 * (i + 9),
            forall|n: int| 0 <= n < out@.len() ==> #[trigger] out@[n] == capacitor_charges()[n],
        decreases 11 - i,
    {
        let mut j: i64 = -6;
        while j < 8
            invariant
                -9 <= i < 11,
                -6 <= j <= 8,
                out@.len() == 28 * (i + 9) + 2 * (j + 6),
                forall|n: int| 0 <= n < out@.len() ==> #[trigger] out@[n] == capacitor_charges()[n],
            decreases 8 - j,
        {
            let x = i * CAPACITOR_STEP_X;
            let z = j * CAPACITOR_STEP_Z;
            proof {
                let n = 28 * (i + 9) + 2 * (j + 6);
                assert(n / 28 == i + 9 && (n % 28) / 2 == j + 6 && n % 2 == 0);
                assert((n + 1) / 28 == i + 9 && ((n + 1) % 28) / 2 == j + 6 && (n + 1) % 2 == 1);
            }
            out.push(PointCharge { charge: SCALE, loc: Point3 { x, y: -4 * GRID_S, z } });
            out.push(PointCharge { charge: -SCALE, loc: Point3 { x, y: 4 * GRID_S, z } });
            j = j + 1;
        }
        i = i + 1;
    }
    assert(out@ =~= capacitor_charges());
    out
}

/// Transforming the arrows by `t` and then by `s` places every endpoint where
/// transforming them once by the product `s * t` does, up to rounding: each
/// coordinate differs by at most `(row_abs(s, k) + |x| + |y| + |z|) / SCALE + 2`
/// fixed-point units, for the starting endpoint `(x, y, z)`. The recorded
/// transforms agree in the same way, entry by entry.
pub proof fn lemma_transform_twice(
    v0: PointChargesFieldView,
    v1: PointChargesFieldView,
    v2: PointChargesFieldView,
    v3: PointChargesFieldView,
    t: Mat4,
    s: Mat4,
    st: Mat4,
)
    requires
        PointChargesFieldView::arrows_moved(&v0, &v1, t),
        PointChargesFieldView::arrows_moved(&v1, &v2, s),
        PointChargesFieldView::arrows_moved(&v0, &v3, st),
        s.is_product(t, st),
    ensures
        v2.arrows@.len() == v0.arrows@.len() && v3.arrows@.len() == v0.arrows@.len(),
        forall|i: int, k: int|
            0 <= i < v0.arrows@.len() && 0 <= k < 3 ==> {
                &&& abs(SCALE * (#[trigger] v2.arrows@[i].tail.coord(k) - v3.arrows@[i].tail.coord(k)))
                    <= s.row_abs(k) + v0.arrows@[i].tail.abs_sum() + 2 * SCALE
                &&& abs(SCALE * (v2.arrows@[i].head.coord(k) - v3.arrows@[i].head.coord(k)))
                    <= s.row_abs(k) + v0.arrows@[i].head.abs_sum() + 2 * SCALE
            },
        forall|i: int, j: int|
            0 <= i < 3 && 0 <= j < 4 ==> abs(
                SCALE * (#[trigger] v2.arrow_transforms.entry(i, j) - v3.arrow_transforms.entry(i, j)),
            ) <= s.row_abs(i) + v0.arrow_transforms.col_abs(j) + 2 * SCALE,
{
    lemma_mul_compose(s, t, v0.arrow_transforms, v1.arrow_transforms, v2.arrow_transforms, st, v3.arrow_transforms);
    assert forall|i: int, k: int| 0 <= i < v0.arrows@.len() && 0 <= k < 3 implies {
        &&& abs(SCALE * (#[trigger] v2.arrows@[i].tail.coord(k) - v3.arrows@[i].tail.coord(k)))
            <= s.row_abs(k) + v0.arrows@[i].tail.abs_sum() + 2 * SCALE
        &&& abs(SCALE * (v2.arrows@[i].head.coord(k) - v3.arrows@[i].head.coord(k)))
            <= s.row_abs(k) + v0.arrows@[i].head.abs_sum() + 2 * SCALE
    } by {
        let a0 = v0.arrows@[i];
        let a1 = v1.arrows@[i];
        assert(a0.transform_fits(t));
        assert(a1.transform_fits(s));
        assert(a0.transform_fits(st));
        assert(a1 == a0.transformed(t));
        lemma_apply_compose(s, t, st, a0.tail);
        lemma_apply_compose(s, t, st, a0.head);
        let p2 = v2.arrows@[i];
        let p3 = v3.arrows@[i];
        assert(p2 == a1.transformed(s));
        assert(p3 == a0.transformed(st));
        assert(p2.tail.coord(k) == s.apply_coord(k, t.apply_spec(a0.tail)));
        assert(p2.head.coord(k) == s.apply_coord(k, t.apply_spec(a0.head)));
        assert(p3.tail.coord(k) == st.apply_coord(k, a0.tail));
        assert(p3.head.coord(k) == st.apply_coord(k, a0.head));
    }
}

/// Rebuilding twice in a row, with nothing changed in between, gives the
/// same arrows both times: the recorded transform is replayed, not
/// accumulated again.
pub proof fn lemma_rebuild_twice(v0: PointChargesFieldView, v1: PointChargesFieldView, v2: PointChargesFieldView)
    requires
        PointChargesFieldView::rebuilt(&v0, &v1),
        PointChargesFieldView::rebuilt(&v1, &v2),
    ensures
        v2.arrows@ == v1.arrows@,
        v2.arrow_transforms == v0.arrow_transforms,
{
}

} // verus!
