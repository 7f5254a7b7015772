use hexgrid::coord::Coord;
use hexgrid::orientation::CoordOrientation;

#[test]
fn cubic_getters_follow_the_axial_pair() {
    let coord = Coord::new_axial(0, 1);
    assert_eq!(coord.x(), 0);
    assert_eq!(coord.y(), -1);
    assert_eq!(coord.z(), 1);
    assert_eq!(coord.q(), 0);
    assert_eq!(coord.r(), 1);
    assert_eq!(coord.to_axial_tuple(), (0, 1));
    assert_eq!(coord.to_cubic_tuple(), (0, -1, 1));
}

#[test]
fn coord_cubic_sum_is_zero_everywhere() {
    for q in 0..=255u8 {
        for r in 0..=255u8 {
            let c = Coord::new_axial(q, r);
            assert_eq!(c.x().wrapping_add(c.y().wrapping_add(c.z())), 0);
        }
    }
}

#[test]
fn orientation_cubic_sum_is_zero_everywhere() {
    for q in -128..=127i16 {
        for r in -128..=127i16 {
            let o = CoordOrientation::new_axial(q as i8, r as i8);
            assert_eq!(o.x().wrapping_add(o.y().wrapping_add(o.z())), 0);
        }
    }
}

#[test]
fn six_rotations_make_the_identity() {
    for q in -128..=127i16 {
        for r in [-128i16, -127, -1, 0, 1, 63, 127] {
            let o = CoordOrientation::new_axial(q as i8, r as i8);
            assert_eq!(o.cw().cw().cw().cw().cw().cw(), o);
            assert_eq!(o.ccw().ccw().ccw().ccw().ccw().ccw(), o);
        }
    }
}

#[test]
fn three_rotations_negate() {
    for q in -128..=127i16 {
        for r in [-128i16, -100, -1, 0, 1, 100, 127] {
            let o = CoordOrientation::new_axial(q as i8, r as i8);
            assert_eq!(o.ccw().ccw().ccw(), o.cw().cw().cw());
            assert_eq!(o.cw().cw().cw(), o.neg());
        }
    }
}

#[test]
fn single_rotations_move_one_side() {
    let east = CoordOrientation::new_axial(1, 0);
    assert_eq!(east.cw(), CoordOrientation::new_axial(0, 1));
    assert_eq!(east.ccw(), CoordOrientation::new_axial(1, -1));
    let southeast = CoordOrientation::new_axial(0, 1);
    assert_eq!(southeast.cw(), CoordOrientation::new_axial(-1, 1));
    assert_eq!(southeast.ccw(), CoordOrientation::new_axial(1, 0));
}

#[test]
fn scaling_multiplies_componentwise_with_wraparound() {
    let o = CoordOrientation::new_axial(2, -1);
    assert_eq!(o.scale(3), CoordOrientation::new_axial(6, -3));
    let big = CoordOrientation::new_axial(100, 0);
    assert_eq!(big.scale(3), CoordOrientation::new_axial(44, 0));
}

#[test]
fn orientation_arithmetic_wraps() {
    let a = CoordOrientation::new_axial(100, -100);
    let b = CoordOrientation::new_axial(50, -50);
    assert_eq!(a.add(b), CoordOrientation::new_axial(-106, 106));
    assert_eq!(a.sub(b), CoordOrientation::new_axial(50, -50));
    assert_eq!(CoordOrientation::new_axial(-128, 0).neg(), CoordOrientation::new_axial(-128, 0));
}

#[test]
fn orientation_distance_is_the_cubic_maximum() {
    let zero = CoordOrientation::new_axial(0, 0);
    assert_eq!(CoordOrientation::new_axial(2, -3).distance_to(zero), 3);
    assert_eq!(CoordOrientation::new_axial(1, 1).distance_to(zero), 2);
    assert_eq!(CoordOrientation::new_axial(0, 0).distance_to(zero), 0);
    assert_eq!(
        CoordOrientation::new_axial(3, -1).distance_to(CoordOrientation::new_axial(1, 1)),
        2,
    );
}

#[test]
fn coord_distance_wraps_across_the_seam() {
    assert_eq!(Coord::new_axial(0, 0).distance_to(Coord::new_axial(3, 0)), 3);
    assert_eq!(Coord::new_axial(0, 0).distance_to(Coord::new_axial(255, 0)), 1);
    assert_eq!(Coord::new_axial(0, 0).distance_to(Coord::new_axial(255, 1)), 1);
    assert_eq!(Coord::new_axial(10, 10).distance_to(Coord::new_axial(10, 10)), 0);
}

#[test]
fn coord_translation_round_trips_through_difference() {
    let a = Coord::new_axial(10, 20);
    let o = CoordOrientation::new_axial(-15, 3);
    let b = a.add_offset(o);
    assert_eq!(b.to_axial_tuple(), (251, 23));
    assert_eq!(b.sub(a), o);
    assert_eq!(b.sub_offset(o), a);
}

#[test]
fn idx_places_rows_before_columns() {
    assert_eq!(Coord::new_axial(3, 2).idx(9, 9, false), Some(23));
    assert_eq!(Coord::new_axial(0, 0).idx(9, 9, false), Some(0));
    assert_eq!(Coord::new_axial(9, 9).idx(9, 9, false), Some(99));
}

#[test]
fn idx_rejects_out_of_range_rows_and_columns() {
    assert_eq!(Coord::new_axial(3, 10).idx(9, 9, false), None);
    assert_eq!(Coord::new_axial(10, 2).idx(9, 9, false), None);
    assert_eq!(Coord::new_axial(3, 10).idx(9, 9, true), None);
}

#[test]
fn idx_wraps_the_column_when_asked() {
    assert_eq!(Coord::new_axial(10, 2).idx(9, 9, true), Some(20));
    assert_eq!(Coord::new_axial(13, 2).idx(9, 9, true), Some(23));
    assert_eq!(Coord::new_axial(255, 0).idx(9, 9, true), Some(5));
}

#[test]
fn wrapping_idx_on_full_height_grids_never_fails() {
    for q in 0..=255u8 {
        for r in 0..=255u8 {
            for max_x in [0u8, 1, 7, 63, 254, 255] {
                assert_ne!(Coord::new_axial(q, r).idx(max_x, 255, true), None);
            }
        }
    }
}

#[test]
fn offset_by_moves_within_bounds() {
    let c = Coord::new_axial(5, 5);
    let moved = c.offset_by(CoordOrientation::new_axial(2, -3), 9, 9, false);
    assert_eq!(moved, Some(Coord::new_axial(7, 2)));
}

#[test]
fn offset_by_rejects_rows_and_columns_off_the_grid() {
    let c = Coord::new_axial(5, 9);
    assert_eq!(c.offset_by(CoordOrientation::new_axial(0, 1), 9, 9, false), None);
    assert_eq!(c.offset_by(CoordOrientation::new_axial(0, 1), 9, 9, true), None);
    assert_eq!(c.offset_by(CoordOrientation::new_axial(0, -10), 9, 9, false), None);
    let edge = Coord::new_axial(9, 0);
    assert_eq!(edge.offset_by(CoordOrientation::new_axial(1, 0), 9, 9, false), None);
}

#[test]
fn offset_by_wraps_the_column_on_planet_maps() {
    let origin = Coord::new_axial(0, 0);
    assert_eq!(
        origin.offset_by(CoordOrientation::new_axial(-1, 0), 9, 9, true),
        Some(Coord::new_axial(9, 0)),
    );
    assert_eq!(origin.offset_by(CoordOrientation::new_axial(-1, 0), 9, 9, false), None);
    let edge = Coord::new_axial(9, 0);
    assert_eq!(
        edge.offset_by(CoordOrientation::new_axial(1, 0), 9, 9, true),
        Some(Coord::new_axial(0, 0)),
    );
}
