use fieldviz::arrow::{Arrow2, Arrow3, Color, Perspective, Viewport, NEAR_PLANE_Z};
use fieldviz::charge::{superpose, FieldData, PointCharge};
use fieldviz::field::{arrow_for, field_extremes, populate_arrows, sample_lattice, Preset, GRID_S};
use fieldviz::fixed::{div_floor, div_away_exec, sqrt_floor, SCALE};
use fieldviz::geometry::{translation_mat4, Mat4, Point2, Point3};
use fieldviz::view::{FieldError, PointChargesFieldView};

fn p(x: i64, y: i64, z: i64) -> Point3 {
    Point3::new(x, y, z)
}

fn preset(x: (i64, i64), y: (i64, i64), z: (i64, i64), gf: Option<i64>, gp: Option<i64>) -> Preset {
    Preset {
        grid_s: GRID_S,
        x_range: x,
        y_range: y,
        z_range: z,
        greatest_field: gf,
        greatest_pot: gp,
        potential_shading: false,
        colorful_potential: false,
    }
}

fn persp() -> Perspective {
    Perspective { focal_x: 1703, focal_y: 1703 }
}

fn rot_z() -> Mat4 {
    // about 0.1 rad about z
    Mat4::from_rows([995, -100, 0, 0, 100, 995, 0, 0, 0, 0, 1000, 0]).unwrap()
}

fn rot_x() -> Mat4 {
    Mat4::from_rows([1000, 0, 0, 0, 0, 980, -199, 0, 0, 199, 980, 0]).unwrap()
}

#[test]
fn sqrt_and_division_round_down() {
    assert_eq!(sqrt_floor(0), 0);
    assert_eq!(sqrt_floor(15), 3);
    assert_eq!(sqrt_floor(16), 4);
    assert_eq!(sqrt_floor(675_000_000), 25980);
    assert_eq!(div_floor(-7, 2), -4);
    assert_eq!(div_floor(7, 2), 3);
    assert_eq!(div_away_exec(-7, 2), -4);
    assert_eq!(div_away_exec(7, 2), 4);
    assert_eq!(div_away_exec(8, 2), 4);
    assert_eq!(div_away_exec(1, 1000), 1);
    assert_eq!(div_away_exec(0, 1000), 0);
}

#[test]
fn superposition_order_does_not_matter() {
    let a = PointCharge::new(8000, p(15000, 0, 0));
    let b = PointCharge::new(-3000, p(0, 30000, -15000));
    let c = PointCharge::new(5000, p(-45000, 15000, 7500));
    let q = p(1000, 2000, 3000);
    let f1 = superpose(&vec![a, b, c], &q);
    let f2 = superpose(&vec![c, b, a], &q);
    let f3 = superpose(&vec![b, a, c], &q);
    assert_eq!(f1, f2);
    assert_eq!(f1, f3);
    assert_eq!(f1.force_vec, p(-350733, 69831, 62781));
    assert_eq!(f1.potential, 5674546);
    assert_eq!(f1.force_mag, 363086);
}

#[test]
fn magnitude_is_norm_of_sum_not_sum_of_magnitudes() {
    let plus = PointCharge::new(8000, p(-15000, 0, 0));
    let minus = PointCharge::new(-8000, p(15000, 0, 0));
    let q = p(0, 15000, 0);
    let a = plus.field_data_at(&q);
    let b = minus.field_data_at(&q);
    assert_eq!(a.force_vec, p(125710, 125710, 0));
    assert_eq!(b.force_vec, p(125710, -125710, 0));
    assert_eq!(a.force_mag, 177778);
    assert_eq!(b.force_mag, -177778);
    let both = superpose(&vec![plus, minus], &q);
    assert_eq!(both.force_vec, p(251420, 0, 0));
    assert_eq!(both.force_mag, 251420);
    assert_ne!(both.force_mag, a.force_mag.abs() + b.force_mag.abs());
}

#[test]
fn field_data_add_keeps_magnitude_until_update_norm() {
    let a = FieldData::new(p(3, 0, 0), 3, 10);
    let b = FieldData::new(p(0, 4, 0), 4, -4);
    let mut s = a.add(b);
    assert_eq!(s.force_vec, p(3, 4, 0));
    assert_eq!(s.potential, 6);
    assert_eq!(s.force_mag, 3);
    s.update_norm();
    assert_eq!(s.force_mag, 5);
    assert!(FieldData::zero().is_zero());
    assert!(!s.is_zero());
}

#[test]
fn single_charge_field_points_away_along_axis() {
    let c = PointCharge::new(8000, p(GRID_S, GRID_S, GRID_S));
    let f = c.field_data_at(&p(2 * GRID_S, GRID_S, GRID_S));
    assert_eq!(f.force_vec, p(355556, 0, 0));
    assert_eq!(f.force_mag, 355556);
    assert_eq!(f.potential, 5333334);
    let neg = PointCharge::new(-8000, p(GRID_S, GRID_S, GRID_S));
    let g = neg.field_data_at(&p(GRID_S, GRID_S, 0));
    assert_eq!(g.force_vec, p(0, 0, 355556));
    assert_eq!(g.potential, -5333334);
}

#[test]
fn single_charge_at_its_own_point_contributes_nothing() {
    let c = PointCharge::new(8000, p(GRID_S, GRID_S, GRID_S));
    let f = c.field_data_at(&p(GRID_S, GRID_S, GRID_S));
    assert!(f.is_zero());
    assert_eq!(f.force_mag, 0);
    let s = superpose(&vec![c], &p(GRID_S, GRID_S, GRID_S));
    assert!(s.is_zero());
}

#[test]
fn opposite_charges_cancel_potential_at_origin() {
    let cs = vec![PointCharge::new(8000, p(-GRID_S, 0, 0)), PointCharge::new(-8000, p(GRID_S, 0, 0))];
    let f = superpose(&cs, &p(0, 0, 0));
    assert_eq!(f.potential, 0);
    assert_eq!(f.force_vec, p(711112, 0, 0));
}

#[test]
fn superpose_of_no_charges_is_zero() {
    let f = superpose(&vec![], &p(5, 6, 7));
    assert!(f.is_zero());
    assert_eq!(f.force_mag, 0);
}

#[test]
fn matrices_compose_and_apply() {
    let t = translation_mat4(p(10, -20, 30));
    assert_eq!(t.apply(&p(1, 2, 3)), Some(p(11, -18, 33)));
    let id = Mat4::identity();
    assert_eq!(id.apply(&p(-7, 8, 9)), Some(p(-7, 8, 9)));
    let two = t.mul(&t).unwrap();
    assert_eq!(two.apply(&p(0, 0, 0)), Some(p(20, -40, 60)));
    let r = rot_z();
    assert_eq!(r.apply(&p(1000, 0, 0)), Some(p(995, 100, 0)));
    assert!(Mat4::from_rows([1 << 50, 0, 0, 0, 0, 1000, 0, 0, 0, 0, 1000, 0]).is_none());
    let far = translation_mat4(p(i64::MAX, 0, 0));
    assert_eq!(far.apply(&p(1, 0, 0)), None);
}

#[test]
fn near_plane_culls_whole_arrow() {
    let view = Viewport { x: 200_000, y: 200_000, w: 400_000, h: 400_000 };
    let cam = Mat4::identity();
    let a = Arrow3::from_to(p(0, 0, 5000), p(0, 0, NEAR_PLANE_Z));
    assert_eq!(a.project_to_viewport(&persp(), &cam, &view), None);
    let b = Arrow3::from_to(p(0, 0, -3000), p(0, 0, 5000));
    assert_eq!(b.project_to_viewport(&persp(), &cam, &view), None);
    let c = Arrow3::from_to(p(0, 0, 5000), p(1000, 0, 5000));
    let moved = translation_mat4(p(0, 0, -4500));
    assert_eq!(c.project_to_viewport(&persp(), &moved, &view), None);
    assert!(c.project_to_viewport(&persp(), &cam, &view).is_some());
}

#[test]
fn projection_maps_into_viewport_center() {
    let view = Viewport { x: 200_000, y: 200_000, w: 400_000, h: 300_000 };
    let a = Arrow3::from_to(p(0, 0, 2000), p(1000, -1000, 2000));
    let r = a.project_to_viewport(&persp(), &Mat4::identity(), &view).unwrap();
    // scale 0.3 * 300.0 = 90.0; center (400.0, 350.0)
    assert_eq!(r.tail, Point2 { x: 400_000, y: 350_000 });
    // x: 1.703 * 1 / 2 = 0.851, * 90 = 76.59; y rounds down: -0.852 * 90 = -76.68
    assert_eq!(r.head, Point2 { x: 476_590, y: 350_000 - 76_680 });
    assert_eq!(r.clr, Color::black());
    assert_eq!(r, Arrow2::from_to_clr(r.tail, r.head, Color::black()));
}

#[test]
fn lattice_is_sampled_x_outermost() {
    let cs = vec![PointCharge::new(8000, p(GRID_S / 2, GRID_S / 2, GRID_S / 2))];
    let pr = preset((-1, 1), (0, 2), (3, 6), None, None);
    let s = sample_lattice(&cs, &pr);
    assert_eq!(s.len(), 2 * 2 * 3);
    assert_eq!(s[0].0, p(-GRID_S, 0, 3 * GRID_S));
    assert_eq!(s[1].0, p(-GRID_S, 0, 4 * GRID_S));
    assert_eq!(s[3].0, p(-GRID_S, GRID_S, 3 * GRID_S));
    assert_eq!(s[6].0, p(0, 0, 3 * GRID_S));
    assert_eq!(s[11].0, p(0, GRID_S, 5 * GRID_S));
    assert_eq!(s[11].1, superpose(&cs, &p(0, GRID_S, 5 * GRID_S)));
}

#[test]
fn empty_lattice_gives_no_arrows() {
    let cs = vec![PointCharge::new(8000, p(0, 0, 0))];
    let pr = preset((2, 2), (0, 3), (0, 3), None, None);
    assert!(populate_arrows(&cs, &pr).is_empty());
    let pr2 = preset((0, 3), (5, 1), (0, 3), None, None);
    assert!(sample_lattice(&cs, &pr2).is_empty());
}

#[test]
fn strongest_arrow_has_full_length() {
    let cs = vec![PointCharge::new(8000, p(GRID_S / 2, GRID_S / 2, GRID_S / 2))];
    let lattice = preset((-2, 3), (-2, 3), (-2, 3), None, None);
    let s = sample_lattice(&cs, &lattice);
    let (mf, mp) = field_extremes(&s);
    assert!(mf > 0 && mp > 0);
    let fixed = preset((-2, 3), (-2, 3), (-2, 3), Some(mf), Some(mp));
    let dynamic_arrows = populate_arrows(&cs, &lattice);
    let fixed_arrows = populate_arrows(&cs, &fixed);
    assert_eq!(dynamic_arrows, fixed_arrows);
    let n = s.iter().position(|e| e.1.force_mag == mf).unwrap();
    let a = fixed_arrows[n];
    let d = [(a.head.x - a.tail.x) as f64, (a.head.y - a.tail.y) as f64, (a.head.z - a.tail.z) as f64];
    let len = (d[0] * d[0] + d[1] * d[1] + d[2] * d[2]).sqrt();
    // diagonal 25980, maximal length 8 / 10 of it
    assert!((len - 20784.0).abs() <= 4.0, "length {}", len);
    // full strength: opacity 2.2 clamps to 1.0
    assert_eq!(a.clr.a, SCALE);
}

#[test]
fn zero_field_arrow_is_a_point_with_minimal_opacity() {
    let pr = preset((0, 1), (0, 1), (0, 1), Some(1000), Some(1000));
    let a = arrow_for(&pr, &p(0, 0, 0), &FieldData::zero(), 1000, 1000);
    assert_eq!(a.tail, p(0, 0, 0));
    assert_eq!(a.head, p(0, 0, 0));
    assert_eq!(a.clr, Color { r: 0, g: 0, b: 0, a: 0 });
}

#[test]
fn arrow_centered_on_lattice_point_with_exact_length() {
    let pr = preset((0, 1), (0, 1), (0, 1), None, None);
    // half strength along x: length 2598 + 500 * (20784 - 2598) / 1000 = 11691, half 5845
    let fd = FieldData::new(p(500, 0, 0), 500, 0);
    let a = arrow_for(&pr, &p(0, 0, 0), &fd, 1000, 1000);
    assert_eq!(a.tail, p(-5845, 0, 0));
    assert_eq!(a.head, p(5845, 0, 0));
    // opacity 2.2 * 0.5
    assert_eq!(a.clr.a, SCALE);
    let weak = FieldData::new(p(0, -100, 0), 100, 0);
    let b = arrow_for(&pr, &p(0, 0, 0), &weak, 1000, 1000);
    assert_eq!(b.clr.a, 220);
    // length 2598 + 100 * 18186 / 1000 = 4416
    assert_eq!(b.head, p(0, -2208, 0));
    assert_eq!(b.tail, p(0, 2208, 0));
}

#[test]
fn potential_shading_colors() {
    let mut pr = preset((0, 1), (0, 1), (0, 1), None, None);
    pr.potential_shading = true;
    let high = FieldData::new(p(1, 0, 0), 1, 1000);
    let low = FieldData::new(p(1, 0, 0), 1, -1000);
    let mid = FieldData::new(p(1, 0, 0), 1, 0);
    assert_eq!(arrow_for(&pr, &p(0, 0, 0), &high, 1, 1000).clr, Color { r: 0, g: 0, b: 0, a: 1000 });
    assert_eq!(arrow_for(&pr, &p(0, 0, 0), &low, 1, 1000).clr, Color { r: 0, g: 0, b: 0, a: 300 });
    assert_eq!(arrow_for(&pr, &p(0, 0, 0), &mid, 1, 1000).clr, Color { r: 0, g: 0, b: 0, a: 650 });
    pr.colorful_potential = true;
    assert_eq!(arrow_for(&pr, &p(0, 0, 0), &high, 1, 1000).clr, Color { r: 1000, g: 0, b: 0, a: 1000 });
    assert_eq!(arrow_for(&pr, &p(0, 0, 0), &low, 1, 1000).clr, Color { r: 300, g: 0, b: 700, a: 1000 });
    // beyond the configured extreme the color is clamped
    let beyond = FieldData::new(p(1, 0, 0), 1, -5000);
    assert_eq!(arrow_for(&pr, &p(0, 0, 0), &beyond, 1, 1000).clr, Color { r: 0, g: 0, b: 1000, a: 1000 });
}

fn two_charge_view() -> PointChargesFieldView {
    let cs = vec![PointCharge::new(8000, p(5 * GRID_S / 2, GRID_S / 2, GRID_S / 2)),
        PointCharge::new(-8000, p(-5 * GRID_S / 2, GRID_S / 2, GRID_S / 2))];
    let pr = preset((-4, 6), (-2, 4), (-2, 4), Some(602_400), Some(6_495_800));
    let mut v = PointChargesFieldView::new(p(0, -GRID_S / 2, 75_000), pr, persp(), cs).unwrap();
    v.populate_field();
    v
}

#[test]
fn view_populates_lattice_arrows() {
    let v = two_charge_view();
    assert_eq!(v.arrows.len(), 10 * 6 * 6);
    assert_eq!(v.arrows, populate_arrows(&v.charges, &v.preset));
    assert_eq!(v.ranges(), ((-4, 6), (-2, 4), (-2, 4)));
    assert_eq!(v.greatest_field(), Some(602_400));
    assert_eq!(v.greatest_pot(), Some(6_495_800));
    let q = p(0, 0, 0);
    assert_eq!(v.field_data_at(&q), superpose(&v.charges, &q));
}

#[test]
fn transform_twice_matches_combined_transform() {
    let mut v1 = two_charge_view();
    let mut v2 = two_charge_view();
    let t = rot_z();
    let s = rot_x();
    v1.transform_arrows(&t).unwrap();
    v1.transform_arrows(&s).unwrap();
    let st = s.mul(&t).unwrap();
    v2.transform_arrows(&st).unwrap();
    assert_eq!(v1.arrow_transforms.m, v2.arrow_transforms.m);
    let fresh = two_charge_view();
    for i in 0..fresh.arrows.len() {
        let a = fresh.arrows[i];
        let b1 = v1.arrows[i];
        let b2 = v2.arrows[i];
        let tol_t = (2000 + a.tail.x.abs() + a.tail.y.abs() + a.tail.z.abs() + 1000 + 199 + 980) / 1000 + 1;
        let tol_h = (2000 + a.head.x.abs() + a.head.y.abs() + a.head.z.abs() + 1000 + 199 + 980) / 1000 + 1;
        for (u, w, tol) in [(b1.tail, b2.tail, tol_t), (b1.head, b2.head, tol_h)] {
            assert!((u.x - w.x).abs() <= tol && (u.y - w.y).abs() <= tol && (u.z - w.z).abs() <= tol);
        }
    }
}

#[test]
fn rebuild_and_replay_twice_is_stable() {
    let mut v = two_charge_view();
    v.transform_arrows(&rot_z()).unwrap();
    v.transform_arrows(&translation_mat4(p(1000, 0, -2000))).unwrap();
    let rotated = v.arrows.clone();
    let recorded = v.arrow_transforms;
    v.rebuild_and_replay().unwrap();
    let once = v.arrows.clone();
    v.rebuild_and_replay().unwrap();
    assert_eq!(v.arrows, once);
    assert_eq!(v.arrow_transforms.m, recorded.m);
    // the replayed arrows come from resampling, then one application of the record
    let fresh = populate_arrows(&v.charges, &v.preset);
    for i in 0..fresh.len() {
        let mut a = fresh[i];
        assert!(a.map_transform(&recorded));
        assert_eq!(once[i], a);
        let _ = rotated[i];
    }
}

#[test]
fn replay_after_moving_a_charge_keeps_rotation() {
    let mut v = two_charge_view();
    v.transform_arrows(&rot_z()).unwrap();
    let recorded = v.arrow_transforms;
    v.set_charge_location(0, p(3 * GRID_S, GRID_S / 2, GRID_S / 2)).unwrap();
    assert_eq!(v.charges[0].loc, p(3 * GRID_S, GRID_S / 2, GRID_S / 2));
    assert_eq!(v.charges[0].charge, 8000);
    v.rebuild_and_replay().unwrap();
    let mut fresh = populate_arrows(&v.charges, &v.preset);
    for a in fresh.iter_mut() {
        assert!(a.map_transform(&recorded));
    }
    assert_eq!(v.arrows, fresh);
}

#[test]
fn charge_edits_check_index_and_range() {
    let mut v = two_charge_view();
    assert_eq!(v.set_charge_location(2, p(0, 0, 0)), Err(FieldError::InvalidIndex));
    assert_eq!(v.set_charge_magnitude(7, 1000), Err(FieldError::InvalidIndex));
    assert_eq!(v.set_charge_location(0, p(i64::MAX, 0, 0)), Err(FieldError::OutOfRange));
    assert_eq!(v.set_charge_magnitude(1, 100_001), Err(FieldError::OutOfRange));
    assert_eq!(v.set_charge_magnitude(1, -5000), Ok(()));
    assert_eq!(v.charges[1].charge, -5000);
    assert_eq!(v.charges[1].loc, p(-5 * GRID_S / 2, GRID_S / 2, GRID_S / 2));
}

#[test]
fn construction_rejects_bad_presets() {
    let cs = vec![PointCharge::new(8000, p(0, 0, 0))];
    let mut pr = preset((0, 2), (0, 2), (0, 2), None, None);
    pr.grid_s = 0;
    assert!(matches!(PointChargesFieldView::new(p(0, 0, 0), pr, persp(), cs.clone()), Err(FieldError::OutOfRange)));
    let pr2 = preset((0, 2), (0, 2), (0, 2), Some(0), None);
    assert!(PointChargesFieldView::new(p(0, 0, 0), pr2, persp(), cs.clone()).is_err());
    let too_big = vec![PointCharge::new(200_000, p(0, 0, 0))];
    assert!(PointChargesFieldView::new(p(0, 0, 0), preset((0, 2), (0, 2), (0, 2), None, None), persp(), too_big).is_err());
    let v = PointChargesFieldView::new(p(1, 2, 3), preset((0, 2), (0, 2), (0, 2), None, None), persp(), cs).unwrap();
    assert!(v.arrows.is_empty());
    // the eye is half a grid cell below the offset
    assert_eq!(v.camera.m, translation_mat4(p(1, 2 - GRID_S / 2, 3)).m);
    assert_eq!(v.arrow_transforms.m, Mat4::identity().m);
}

#[test]
fn capacitor_has_two_sheets() {
    let v = PointChargesFieldView::new_capacitor(75_000, 1_454_500, 49_524_800, persp()).unwrap();
    assert_eq!(v.camera.m, translation_mat4(p(0, 0, 75_000)).m);
    assert_eq!(v.charges.len(), 560);
    assert_eq!(v.charges[0], PointCharge::new(1000, p(-45_000, -60_000, -45_000)));
    assert_eq!(v.charges[1], PointCharge::new(-1000, p(-45_000, 60_000, -45_000)));
    assert_eq!(v.charges[559], PointCharge::new(-1000, p(50_000, 60_000, 52_500)));
    assert_eq!(v.ranges(), ((-2, 3), (-3, 3), (-1, 2)));
    assert!(PointChargesFieldView::new_capacitor(75_000, 0, 1, persp()).is_err());
}

#[test]
fn camera_moves_independently_of_arrows() {
    let mut v = two_charge_view();
    let before = v.arrows.clone();
    let recorded = v.arrow_transforms;
    v.transform_camera(&translation_mat4(p(0, 0, 1000))).unwrap();
    assert_eq!(v.arrows, before);
    assert_eq!(v.arrow_transforms.m, recorded.m);
    assert_eq!(v.camera.m, translation_mat4(p(0, -GRID_S, 76_000)).m);
}

#[test]
fn render_keeps_visible_arrows_in_order() {
    let v = two_charge_view();
    let view = Viewport { x: 200_000, y: 200_000, w: 400_000, h: 400_000 };
    let out = v.render(&view);
    let expected: Vec<Arrow2> = v.arrows.iter().filter_map(|a| a.project_to_viewport(&v.persp, &v.camera, &view)).collect();
    assert_eq!(out, expected);
    assert!(!out.is_empty());
    let mut behind = two_charge_view();
    behind.transform_camera(&translation_mat4(p(0, 0, -200_000))).unwrap();
    assert!(behind.render(&view).is_empty());
}

#[test]
fn out_of_range_transform_changes_nothing() {
    let mut v = two_charge_view();
    let before = v.arrows.clone();
    let huge = translation_mat4(p(i64::MAX - 10, 0, 0));
    assert_eq!(v.transform_arrows(&huge), Err(FieldError::OutOfRange));
    assert_eq!(v.arrows, before);
    assert_eq!(v.arrow_transforms.m, Mat4::identity().m);
}

#[test]
fn charge_translation_is_checked() {
    let c = PointCharge::new(8000, p(1, 2, 3));
    assert_eq!(c.translate(&p(10, 10, 10)), Some(PointCharge::new(8000, p(11, 12, 13))));
    assert_eq!(c.inverse_translate(&p(10, 10, 10)), Some(PointCharge::new(8000, p(-9, -8, -7))));
    assert_eq!(c.translate(&p(i64::MAX, 0, 0)), None);
}

#[test]
fn no_charges_give_minimal_point_arrows() {
    let cs: Vec<PointCharge> = vec![];
    let pr = preset((0, 2), (0, 1), (0, 1), None, None);
    let s = sample_lattice(&cs, &pr);
    assert_eq!(field_extremes(&s), (0, 0));
    let arrows = populate_arrows(&cs, &pr);
    assert_eq!(arrows.len(), 2);
    assert_eq!(arrows[1].tail, p(GRID_S, 0, 0));
    assert_eq!(arrows[1].head, p(GRID_S, 0, 0));
    assert_eq!(arrows[1].clr.a, 0);
}

#[test]
fn extremes_are_greatest_magnitude_and_potential() {
    let s = vec![
        (p(0, 0, 0), FieldData::new(p(3, 4, 0), 5, -70)),
        (p(1, 0, 0), FieldData::new(p(0, 0, 9), 9, 20)),
        (p(2, 0, 0), FieldData::new(p(0, 2, 0), 2, 65)),
    ];
    assert_eq!(field_extremes(&s), (9, 70));
}

#[test]
fn weak_far_field_keeps_its_sign() {
    let plus = PointCharge::new(1, p(0, 0, 0));
    let f = plus.field_data_at(&p(1_000_000_000, 0, 0));
    assert_eq!(f.force_vec, p(1, 0, 0));
    assert_eq!(f.potential, 1);
    assert_eq!(f.force_mag, 1);
    let minus = PointCharge::new(-1, p(0, 0, 0));
    let g = minus.field_data_at(&p(0, -1_000_000_000, 0));
    assert_eq!(g.force_vec, p(0, 1, 0));
    assert_eq!(g.potential, -1);
    assert_eq!(g.force_mag, -1);
}

#[test]
fn camera_offset_that_cannot_shift_is_refused() {
    let cs = vec![PointCharge::new(8000, p(0, 0, 0))];
    let pr = preset((0, 2), (0, 2), (0, 2), None, None);
    assert!(matches!(PointChargesFieldView::new(p(0, i64::MIN, 0), pr, persp(), cs), Err(FieldError::OutOfRange)));
}

#[test]
fn every_arrow_color_is_bounded() {
    let cs = vec![PointCharge::new(8000, p(GRID_S / 2, GRID_S / 2, GRID_S / 2))];
    let mut pr = preset((-2, 3), (-2, 3), (-2, 3), Some(1), Some(1));
    for (shade, colorful) in [(false, false), (true, false), (true, true)] {
        pr.potential_shading = shade;
        pr.colorful_potential = colorful;
        for a in populate_arrows(&cs, &pr) {
            for ch in [a.clr.r, a.clr.g, a.clr.b, a.clr.a] {
                assert!((0..=SCALE).contains(&ch));
            }
        }
    }
}
