use hexgrid::coord::Coord;
use hexgrid::orientation::CoordOrientation;
use hexgrid::ring::{CoordOrientationNeighborIterator, CoordOrientationRingIterator};
use std::collections::HashSet;

#[test]
fn coord_orientation_ring_iterator_small_count() {
    {
        let mut iter = CoordOrientationRingIterator::new(0);
        assert_eq!(iter.next(), Some(CoordOrientation::new_axial(0, 0)));
        assert_eq!(iter.next(), None);
    }
    {
        let mut iter = CoordOrientationRingIterator::new(1);
        let mut coords: HashSet<CoordOrientation> = HashSet::new();
        while let Some(c) = iter.next() {
            coords.insert(c);
        }
        assert!(coords.contains(&CoordOrientation::new_axial(1, 0)));
        assert!(coords.contains(&CoordOrientation::new_axial(0, 1)));
        assert!(coords.contains(&CoordOrientation::new_axial(-1, 1)));
        assert!(coords.contains(&CoordOrientation::new_axial(-1, 0)));
        assert!(coords.contains(&CoordOrientation::new_axial(0, -1)));
        assert!(coords.contains(&CoordOrientation::new_axial(1, -1)));
        assert_eq!(coords.len(), 6);
    }
}

#[test]
fn coord_orientation_neighbor_iterator_small_count() {
    let mut iter = CoordOrientationNeighborIterator::new(0);
    assert_eq!(iter.next(), Some(CoordOrientation::new_axial(0, 0)));
    assert_eq!(iter.next(), None);
}

#[test]
fn ring_iterator_counts_are_six_times_distance() {
    for distance in 1..=16u8 {
        let mut iter = CoordOrientationRingIterator::new(distance);
        let mut coords: HashSet<CoordOrientation> = HashSet::new();
        let mut count: usize = 0;
        while let Some(c) = iter.next() {
            coords.insert(c);
            count += 1;
        }
        assert_eq!(count, distance as usize * 6);
        assert_eq!(coords.len(), distance as usize * 6);
    }
}

#[test]
fn ring_iterator_count_at_largest_radius() {
    let mut iter = CoordOrientationRingIterator::new(127);
    let mut coords: HashSet<CoordOrientation> = HashSet::new();
    let mut count: usize = 0;
    while let Some(c) = iter.next() {
        coords.insert(c);
        count += 1;
    }
    assert_eq!(count, 127 * 6);
    assert_eq!(coords.len(), 127 * 6);
}

#[test]
fn neighbor_iterator_counts_match_closed_form() {
    for distance in 0..=16u8 {
        let d = distance as usize;
        let mut iter = CoordOrientationNeighborIterator::new(distance);
        let mut coords: HashSet<CoordOrientation> = HashSet::new();
        let mut count: usize = 0;
        while let Some(c) = iter.next() {
            coords.insert(c);
            count += 1;
        }
        assert_eq!(count, 3 * d * (d + 1) + 1);
        assert_eq!(coords.len(), 3 * d * (d + 1) + 1);
    }
}

#[test]
fn neighbor_iterator_count_at_largest_radius() {
    let mut iter = CoordOrientationNeighborIterator::new(127);
    let mut count: usize = 0;
    while let Some(_c) = iter.next() {
        count += 1;
    }
    assert_eq!(count, 3 * 127 * 128 + 1);
}

#[test]
fn ring_elements_keep_their_distance_to_the_center() {
    let centers = [
        Coord::new_axial(0, 0),
        Coord::new_axial(5, 5),
        Coord::new_axial(255, 0),
        Coord::new_axial(128, 200),
        Coord::new_axial(255, 255),
    ];
    for center in centers {
        for distance in 0..=12u8 {
            let mut iter = center.iter_neighbors_ring(distance);
            let mut count: usize = 0;
            while let Some(c) = iter.next() {
                assert_eq!(center.distance_to(c), distance);
                count += 1;
            }
            assert_eq!(count, if distance == 0 { 1 } else { distance as usize * 6 });
        }
    }
}

#[test]
fn ring_of_one_is_the_six_axial_neighbors() {
    let center = Coord::new_axial(5, 5);
    let mut iter = center.iter_neighbors_ring(1);
    let mut coords: HashSet<(u8, u8)> = HashSet::new();
    while let Some(c) = iter.next() {
        coords.insert(c.to_axial_tuple());
    }
    let expected: HashSet<(u8, u8)> =
        [(6, 5), (5, 6), (4, 6), (4, 5), (5, 4), (6, 4)].into_iter().collect();
    assert_eq!(coords, expected);
}

#[test]
fn ring_of_one_wraps_around_the_origin() {
    let center = Coord::new_axial(0, 0);
    let mut iter = center.iter_neighbors_ring(1);
    let mut coords: HashSet<(u8, u8)> = HashSet::new();
    while let Some(c) = iter.next() {
        coords.insert(c.to_axial_tuple());
    }
    let expected: HashSet<(u8, u8)> =
        [(1, 0), (0, 1), (255, 1), (255, 0), (0, 255), (1, 255)].into_iter().collect();
    assert_eq!(coords, expected);
}

#[test]
fn coord_neighbor_iterator_covers_the_disk() {
    let center = Coord::new_axial(100, 100);
    let mut iter = center.iter_neighbors(3);
    let mut coords: HashSet<(u8, u8)> = HashSet::new();
    let mut count: usize = 0;
    while let Some(c) = iter.next() {
        assert!(center.distance_to(c) <= 3);
        coords.insert(c.to_axial_tuple());
        count += 1;
    }
    assert_eq!(count, 3 * 3 * 4 + 1);
    assert_eq!(coords.len(), 3 * 3 * 4 + 1);
}
