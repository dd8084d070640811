use swp_viewer::bezier::{tessellate, MAX_STEPS};
use swp_viewer::geometry::{CurvePoint, Point};

fn pt(x: i64, y: i64, z: i64) -> Point {
    Point { x, y, z }
}

fn exact(p: Point) -> CurvePoint {
    CurvePoint { x: p.x as i128, y: p.y as i128, z: p.z as i128, den: 1 }
}

fn same(a: &CurvePoint, b: &CurvePoint) -> bool {
    a.x * b.den as i128 == b.x * a.den as i128
        && a.y * b.den as i128 == b.y * a.den as i128
        && a.z * b.den as i128 == b.z * a.den as i128
}

fn control() -> Vec<Point> {
    vec![
        pt(0, 0, 0),
        pt(1_000_000, 3_000_000, -500_000),
        pt(2_000_000, 3_000_000, 250_000),
        pt(3_000_000, 0, 1_000_000),
    ]
}

#[test]
fn tessellation_has_requested_length_and_exact_end_points() {
    let p = control();
    for n in 2..=50usize {
        let r = tessellate(&p, n);
        assert_eq!(r.len(), n);
        assert_eq!(r[0], exact(p[0]));
        assert_eq!(r[n - 1], exact(p[3]));
    }
}

#[test]
fn tessellation_midpoint_is_de_casteljau_value() {
    let p = control();
    let r = tessellate(&p, 3);
    assert_eq!(r[1].den, 8);
    assert_eq!(r[1].x, 12_000_000);
    assert_eq!(r[1].y, 18_000_000);
    // z: 0, -0.5, 0.25, 1 at t = 1/2 -> (0 - 1.5 + 0.75 + 1) / 8 = 0.03125
    assert_eq!(r[1].z, 250_000);
}

#[test]
fn coarse_points_reappear_in_finer_tessellation() {
    let p = control();
    let coarse = tessellate(&p, 4);
    let fine = tessellate(&p, 19);
    for k in 0..4 {
        assert!(same(&coarse[k], &fine[6 * k]));
    }
    // x grows with the index in both: the parameter follows the index.
    for r in [&coarse, &fine] {
        for k in 1..r.len() {
            let a = &r[k - 1];
            let b = &r[k];
            assert!(a.x * (b.den as i128) < b.x * (a.den as i128));
        }
    }
}

#[test]
fn two_point_tessellation_is_the_chord() {
    let p = control();
    let r = tessellate(&p, 2);
    assert_eq!(r, vec![exact(p[0]), exact(p[3])]);
}

#[test]
fn largest_step_count_keeps_end_points() {
    let p = vec![
        pt(i64::MAX, i64::MIN, 0),
        pt(i64::MIN, i64::MAX, 1),
        pt(i64::MAX, i64::MIN, 2),
        pt(i64::MIN, i64::MAX, 3),
    ];
    let r = tessellate(&p, MAX_STEPS);
    assert_eq!(r.len(), MAX_STEPS);
    assert_eq!(r[MAX_STEPS - 1], exact(p[3]));
    let m = (MAX_STEPS - 1) as u64;
    assert_eq!(r[1].den, m * m * m);
}

#[test]
fn ordered_control_points_give_ordered_polyline_on_every_axis() {
    let p = vec![
        pt(-3_000_000, 5, 0),
        pt(-3_000_000, 7, 4_000_000),
        pt(1_000_000, 7, 4_000_000),
        pt(2_000_000, 90, 4_000_001),
    ];
    for n in [2usize, 4, 19, 50] {
        let r = tessellate(&p, n);
        for k in 1..n {
            let (a, b) = (&r[k - 1], &r[k]);
            assert!(a.x * (b.den as i128) <= b.x * (a.den as i128));
            assert!(a.y * (b.den as i128) <= b.y * (a.den as i128));
            assert!(a.z * (b.den as i128) <= b.z * (a.den as i128));
        }
    }
}
