use hexgrid::coord::Coord;

const SQRT3: f32 = 1.732_050_8;

fn to_linear(c: Coord) -> (f32, f32) {
    let (x2, v2) = c.to_linear_parts();
    (x2 as f32 / 2.0, v2 as f32 / (2.0 * SQRT3))
}

fn clamp_floor(v: f32) -> i64 {
    if v > 8_589_934_592.0 {
        8_589_934_592
    } else if v < -8_589_934_592.0 {
        -8_589_934_592
    } else {
        v as i64
    }
}

fn from_linear(x: f32, y: f32) -> Coord {
    let s3 = 3.0f32.sqrt();
    let t1 = clamp_floor((x + s3 * y + 1.0).floor());
    let t2 = clamp_floor((2.0 * x + 1.0).floor());
    let t3 = clamp_floor((-x + s3 * y + 1.0).floor());
    Coord::from_linear_steps(t1, t2, t3)
}

#[test]
fn origin_and_first_rows_project_to_known_pixels() {
    let c00 = to_linear(Coord::new_axial(0, 0));
    let c01 = to_linear(Coord::new_axial(0, 1));
    let c02 = to_linear(Coord::new_axial(0, 2));
    assert!((c00.0 - 0.0).abs() < 1e-5);
    assert!((c00.1 - 0.0).abs() < 1e-5);
    assert!((c01.0 - 0.5).abs() < 1e-5);
    assert!((c01.1 - 0.866_025_4).abs() < 1e-5);
    assert!((c02.0 - 1.0).abs() < 1e-5);
    assert!((c02.1 - 1.732_050_8).abs() < 1e-5);
}

#[test]
fn columns_step_one_pixel_apart() {
    let c = to_linear(Coord::new_axial(1, 0));
    assert!((c.0 - 1.0).abs() < 1e-5);
    assert!((c.1 - 0.0).abs() < 1e-5);
    let far = to_linear(Coord::new_axial(7, 28));
    assert!((far.0 - 21.0).abs() < 1e-4);
    assert!((far.1 - 24.248_711).abs() < 1e-4);
}

#[test]
fn from_linear_buckets_nearby_points() {
    assert_eq!(from_linear(0.0, 0.0), Coord::new_axial(0, 0));
    assert_eq!(from_linear(1.0, 0.0), Coord::new_axial(1, 0));
    assert_eq!(from_linear(0.5, 1.0), Coord::new_axial(0, 1));
    assert_eq!(from_linear(1.5, 1.0), Coord::new_axial(1, 1));
}

#[test]
fn from_linear_wraps_negative_points() {
    assert_eq!(from_linear(-1.0, 0.0), Coord::new_axial(255, 0));
    assert_eq!(from_linear(-0.5, -1.0), Coord::new_axial(0, 255));
    assert_eq!(from_linear(-1.5, -1.0), Coord::new_axial(255, 255));
}

#[test]
fn float_round_trip_recovers_every_coordinate() {
    for q in 0..=255u8 {
        for r in 0..=255u8 {
            let c = Coord::new_axial(q, r);
            let (x, y) = to_linear(c);
            assert_eq!(from_linear(x, y), c, "lost ({}, {}) at ({}, {})", q, r, x, y);
        }
    }
}

#[test]
fn exact_round_trip_recovers_every_coordinate() {
    for q in 0..=255u8 {
        for r in 0..=255u8 {
            let c = Coord::new_axial(q, r);
            let (x2, v2) = c.to_linear_parts();
            assert_eq!(Coord::from_linear_parts(x2 as i32, v2 as i32), c);
        }
    }
}

#[test]
fn orientation_projection_matches_coord_projection() {
    let o = hexgrid::orientation::CoordOrientation::new_axial(3, 2);
    let (x2, v2) = o.to_linear_parts();
    assert_eq!((x2, v2), (8, 6));
    let c = Coord::new_axial(3, 2);
    let (cx2, cv2) = c.to_linear_parts();
    assert_eq!((cx2 as i16, cv2 as i16), (x2, v2));
    let neg = hexgrid::orientation::CoordOrientation::new_axial(-2, -1);
    assert_eq!(neg.to_linear_parts(), (-5, -3));
}

#[test]
fn exact_parts_wrap_negative_points() {
    // x = -1, y = 0 in halves: the cell left of the origin, wrapped
    assert_eq!(Coord::from_linear_parts(-2, 0), Coord::new_axial(255, 0));
    // x = -0.5, y = -sqrt(3)/2: one row up, wrapped
    assert_eq!(Coord::from_linear_parts(-1, -3), Coord::new_axial(0, 255));
}
