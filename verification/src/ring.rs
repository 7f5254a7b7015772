//! Lazy enumeration of rings and disks of hex cells.
//!
//! A ring of radius `d` around a center holds exactly the cells at hex
//! distance `d`: one cell for `d = 0`, otherwise `6*d`.  The iterator walks
//! it side by side: it stands on the vertex reached by going `d` steps along
//! the current side direction, then slides toward the next vertex, rotating
//! the side clockwise after every `d` emissions.  A disk of radius `n`
//! chains the rings of radius `0` through `n`, `3*n*(n+1) + 1` cells in all.
//!
//! The whole walk is pinned down by [`ring_elem`]: the `i`-th emission of
//! the ring of radius `d`, as an exact integer pair.  The lemmas at the end
//! prove the geometry: every ring cell lies at distance exactly `d` from
//! the center, no cell is emitted twice, and the disk sequence has the
//! closed-form length.

use vstd::prelude::*;

verus! {

use crate::coord::{spec_coord_distance, spec_translate, Coord};
use crate::orientation::{spec_add, spec_ccw, spec_neg, spec_scale, CoordOrientation};
use crate::wrap::{lemma_wrap_i8_drop_u8, lemma_wrap_i8_id, lemma_wrap_u8_id};
use vstd::arithmetic::div_mod::{
    lemma_fundamental_div_mod,
    lemma_fundamental_div_mod_converse,
    lemma_mod_bound,
};
use vstd::arithmetic::mul::lemma_mul_inequality;
use vstd::math::{abs, max3};

/// How many cells the ring of radius `d` holds.
pub open spec fn ring_len(d: int) -> int {
    if d == 0 {
        1
    } else {
        6 * d
    }
}

/// The walking direction at side `k` of the hexagon, `k` in `[0, 5]`.
pub open spec fn ring_side(k: int) -> (int, int) {
    if k == 0 {
        (1int, 0int)
    } else if k == 1 {
        (0int, 1int)
    } else if k == 2 {
        (-1int, 1int)
    } else if k == 3 {
        (-1int, 0int)
    } else if k == 4 {
        (0int, -1int)
    } else {
        (1int, -1int)
    }
}

/// The `i`-th offset emitted by the ring walk of radius `d`, as an exact
/// axial pair: side `i / d` of the hexagon, `i % d` steps past its vertex.
pub open spec fn ring_elem(d: int, i: int) -> (int, int) {
    if d == 0 {
        (0int, 0int)
    } else {
        let k = i / d;
        let j = i % d;
        if k == 0 {
            (d - j, j)
        } else if k == 1 {
            (-j, d)
        } else if k == 2 {
            (-d, d - j)
        } else if k == 3 {
            (j - d, -j)
        } else if k == 4 {
            (j, -d)
        } else {
            (d, j - d)
        }
    }
}

/// Walking a side direction `d` steps from the vertex, then sliding `j`
/// steps toward the next vertex, lands on the ring cell the closed form
/// names.
proof fn lemma_emit(d: int, k: int, j: int)
    requires
        1 <= d <= 127,
        0 <= k <= 5,
        0 <= j < d,
    ensures
        spec_add(
            spec_scale(ring_side(k), d),
            spec_scale(spec_ccw(spec_neg(ring_side(k))), j),
        ) == ring_elem(d, k * d + j),
{
    lemma_fundamental_div_mod_converse(k * d + j, d, k, j);
    lemma_wrap_i8_id(-1);
    lemma_wrap_i8_id(0);
    lemma_wrap_i8_id(1);
    lemma_wrap_i8_id(d);
    lemma_wrap_i8_id(-d);
    lemma_wrap_i8_id(j);
    lemma_wrap_i8_id(-j);
    lemma_wrap_i8_id(d - j);
    lemma_wrap_i8_id(j - d);
    assert(1int * d == d && (-1int) * d == -d && 0int * d == 0);
    assert(1int * j == j && (-1int) * j == -j && 0int * j == 0);
    if k == 0 {
        assert(spec_scale(ring_side(0), d) == (d, 0int));
        assert(spec_ccw(spec_neg(ring_side(0))) == (-1int, 1int));
        assert(spec_scale((-1int, 1int), j) == (-j, j));
        assert(spec_add((d, 0int), (-j, j)) == (d - j, j));
    } else if k == 1 {
        assert(spec_scale(ring_side(1), d) == (0int, d));
        assert(spec_ccw(spec_neg(ring_side(1))) == (-1int, 0int));
        assert(spec_scale((-1int, 0int), j) == (-j, 0int));
        assert(spec_add((0int, d), (-j, 0int)) == (-j, d));
    } else if k == 2 {
        assert(spec_scale(ring_side(2), d) == (-d, d));
        assert(spec_ccw(spec_neg(ring_side(2))) == (0int, -1int));
        assert(spec_scale((0int, -1int), j) == (0int, -j));
        assert(spec_add((-d, d), (0int, -j)) == (-d, d - j));
    } else if k == 3 {
        assert(spec_scale(ring_side(3), d) == (-d, 0int));
        assert(spec_ccw(spec_neg(ring_side(3))) == (1int, -1int));
        assert(spec_scale((1int, -1int), j) == (j, -j));
        assert(spec_add((-d, 0int), (j, -j)) == (j - d, -j));
    } else if k == 4 {
        assert(spec_scale(ring_side(4), d) == (0int, -d));
        assert(spec_ccw(spec_neg(ring_side(4))) == (1int, 0int));
        assert(spec_scale((1int, 0int), j) == (j, 0int));
        assert(spec_add((0int, -d), (j, 0int)) == (j, -d));
    } else {
        assert(spec_scale(ring_side(5), d) == (d, -d));
        assert(spec_ccw(spec_neg(ring_side(5))) == (0int, 1int));
        assert(spec_scale((0int, 1int), j) == (0int, j));
        assert(spec_add((d, -d), (0int, j)) == (d, j - d));
    }
}

/// Rotating a side direction clockwise gives the next side direction.
proof fn lemma_side_step(k: int)
    requires
        0 <= k <= 5,
    ensures
        crate::orientation::spec_cw(ring_side(k)) == ring_side(
            if k == 5 {
                0int
            } else {
                k + 1
            },
        ),
{
    lemma_wrap_i8_id(-1);
    lemma_wrap_i8_id(0);
    lemma_wrap_i8_id(1);
}

/// Every cell of the ring of radius `d` has maximum absolute cubic
/// component exactly `d`.
proof fn lemma_ring_elem_bounds(d: int, i: int)
    requires
        0 <= d <= 127,
        0 <= i < ring_len(d),
    ensures
        -d <= ring_elem(d, i).0 <= d,
        -d <= ring_elem(d, i).1 <= d,
        -d <= ring_elem(d, i).0 + ring_elem(d, i).1 <= d,
        max3(
            abs(ring_elem(d, i).0) as int,
            abs(ring_elem(d, i).0 + ring_elem(d, i).1) as int,
            abs(ring_elem(d, i).1) as int,
        ) == d,
{
    if d > 0 {
        lemma_fundamental_div_mod(i, d);
        lemma_mod_bound(i, d);
        let k = i / d;
        let j = i % d;
        assert(0 <= k <= 5) by (nonlinear_arith)
            requires
                i == d * k + j,
                0 <= j < d,
                0 <= i < 6 * d,
        ;
    }
}

/// Lazily yields the `6*d` orientation offsets of the ring of radius `d`
/// (the single zero offset when `d` is zero), in walking order.
pub struct CoordOrientationRingIterator {
    side: CoordOrientation,
    side_count: u8,
    distance: u8,
    offset: u8,
}

impl CoordOrientationRingIterator {
    /// The iterator's internal walk state is consistent.
    pub closed spec fn wf(self) -> bool {
        &&& self.distance <= 127
        &&& if self.distance == 0 {
            &&& self.side@ == (0int, 0int)
            &&& self.offset == 0
            &&& 5 <= self.side_count <= 6
        } else {
            &&& self.offset < self.distance
            &&& self.side_count <= 6
            &&& (self.side_count == 6 ==> self.offset == 0)
            &&& self.side@ == ring_side(
                if self.side_count == 6 {
                    0int
                } else {
                    self.side_count as int
                },
            )
        }
    }

    /// The ring radius being walked.
    pub closed spec fn dist(self) -> int {
        self.distance as int
    }

    /// How many offsets have been emitted so far.
    pub closed spec fn pos(self) -> int {
        if self.distance == 0 {
            self.side_count - 5
        } else {
            self.side_count * self.distance + self.offset
        }
    }

    /// Starts the walk of the ring of radius `distance` on its first side.
    pub fn new(distance: u8) -> (it: CoordOrientationRingIterator)
        requires
            distance <= 127,
        ensures
            it.wf(),
            it.dist() == distance,
            it.pos() == 0,
    {
        if distance == 0 {
            CoordOrientationRingIterator {
                side_count: 5,
                side: CoordOrientation::new_axial(0, 0),
                distance: 0,
                offset: 0,
            }
        } else {
            CoordOrientationRingIterator {
                side_count: 0,
                side: CoordOrientation::new_axial(1, 0),
                distance,
                offset: 0,
            }
        }
    }

    /// The next offset of the ring, or `None` once all `ring_len` offsets
    /// have been emitted.
    pub fn next(&mut self) -> (r: Option<CoordOrientation>)
        requires
            old(self).wf(),
        ensures
            final(self).wf(),
            final(self).dist() == old(self).dist(),
            r is Some <==> old(self).pos() < ring_len(old(self).dist()),
            r matches Some(o) ==> o@ == ring_elem(old(self).dist(), old(self).pos()),
            r is Some ==> final(self).pos() == old(self).pos() + 1,
            r is None ==> *final(self) == *old(self),
    {
        proof {
            if self.distance > 0 {
                lemma_mul_inequality(self.side_count as int, 6, self.distance as int);
                if self.side_count <= 5 {
                    lemma_mul_inequality(self.side_count as int, 5, self.distance as int);
                }
            }
        }
        if self.side_count > 5 {
            return None;
        }
        let ghost d: int = self.distance as int;
        let ghost k: int = self.side_count as int;
        let ghost j: int = self.offset as int;
        let side_scaled = self.side.scale(self.distance as i8);
        let toff = self.side.neg().ccw().scale(self.offset as i8);
        let out = side_scaled.add(toff);
        proof {
            if d == 0 {
                lemma_wrap_i8_id(0);
                assert(out@ == (0int, 0int));
            } else {
                lemma_emit(d, k, j);
                assert(out@ == ring_elem(d, k * d + j));
            }
        }
        self.offset = self.offset + 1;
        if self.offset >= self.distance {
            self.offset = 0;
            self.side = self.side.cw();
            self.side_count = self.side_count + 1;
            proof {
                if d == 0 {
                    lemma_wrap_i8_id(0);
                } else {
                    lemma_side_step(k);
                    assert((k + 1) * d == k * d + d) by (nonlinear_arith);
                }
            }
        }
        Some(out)
    }
}

/// An iterator that has not finished has emitted at most a full ring.
proof fn lemma_pos_le_len(it: CoordOrientationRingIterator)
    requires
        it.wf(),
    ensures
        it.pos() <= ring_len(it.dist()),
{
    if it.dist() > 0 && it.side_count < 6 {
        lemma_mul_inequality(it.side_count as int, 5, it.distance as int);
    }
}

/// Where the ring of radius `d` starts inside the disk enumeration: after
/// the center cell and the `6*e` cells of every ring of radius `e < d`.
pub open spec fn ring_start(d: int) -> int {
    if d <= 0 {
        0
    } else {
        3 * (d - 1) * d + 1
    }
}

/// The cells of the ring of radius `d`, in walking order.
pub open spec fn ring_seq(d: int) -> Seq<(int, int)> {
    Seq::new(ring_len(d) as nat, |i: int| ring_elem(d, i))
}

/// The cells of the disk of radius `n`: the rings of radius `0` through
/// `n`, concatenated in order of increasing radius.
pub open spec fn disk_seq(n: int) -> Seq<(int, int)>
    decreases n,
{
    if n <= 0 {
        ring_seq(0)
    } else {
        disk_seq(n - 1) + ring_seq(n)
    }
}

/// A full ring reaches exactly the start of the next ring in the disk.
proof fn lemma_ring_start_next(d: int)
    requires
        0 <= d,
    ensures
        ring_start(d) + ring_len(d) == ring_start(d + 1),
{
    if d == 0 {
        assert(ring_start(1) == 3 * 0 * 1 + 1);
    } else {
        assert(3 * (d - 1) * d + 1 + 6 * d == 3 * d * (d + 1) + 1) by (nonlinear_arith);
    }
}

/// Law: the disk of radius `n` holds exactly `3*n*(n+1) + 1` cells.
pub proof fn lemma_disk_len(n: int)
    requires
        0 <= n,
    ensures
        disk_seq(n).len() == 3 * n * (n + 1) + 1,
    decreases n,
{
    if n == 0 {
        assert(3 * 0 * 1 + 1 == 1);
    } else {
        lemma_disk_len(n - 1);
        assert(ring_len(n) == 6 * n);
        assert(3 * (n - 1) * n + 1 + 6 * n == 3 * n * (n + 1) + 1) by (nonlinear_arith);
    }
}

/// The disk's total length is where a ring of radius `n + 1` would start.
proof fn lemma_disk_len_is_ring_start(n: int)
    requires
        0 <= n,
    ensures
        disk_seq(n).len() == ring_start(n + 1),
{
    lemma_disk_len(n);
    assert(3 * n * (n + 1) + 1 == 3 * ((n + 1) - 1) * (n + 1) + 1);
}

/// Ring starts grow with the radius.
proof fn lemma_ring_start_mono(a: int, b: int)
    requires
        0 <= a <= b,
    ensures
        ring_start(a) <= ring_start(b),
{
    if a > 0 {
        assert(3 * (a - 1) * a <= 3 * (b - 1) * b) by (nonlinear_arith)
            requires
                1 <= a <= b,
        ;
    }
}

/// Inside the disk of radius `n`, the cell at `ring_start(d) + j` is the
/// `j`-th cell of the ring of radius `d`.
proof fn lemma_disk_index(n: int, d: int, j: int)
    requires
        0 <= d <= n,
        0 <= j < ring_len(d),
    ensures
        0 <= ring_start(d) + j < disk_seq(n).len(),
        disk_seq(n)[ring_start(d) + j] == ring_elem(d, j),
    decreases n,
{
    if n == 0 {
        assert(disk_seq(0)[0] == ring_elem(0, 0));
    } else if d < n {
        lemma_disk_index(n - 1, d, j);
    } else {
        lemma_disk_len_is_ring_start(n - 1);
        assert(disk_seq(n - 1).len() == ring_start(n));
    }
}

/// Lazily yields every orientation offset within radius `distance`: the
/// rings of radius `0` through `distance`, chained.
pub struct CoordOrientationNeighborIterator {
    ring_iter: CoordOrientationRingIterator,
    distance: u8,
}

impl CoordOrientationNeighborIterator {
    /// The inner ring walk is consistent and has not passed the target
    /// radius.
    pub closed spec fn wf(self) -> bool {
        &&& self.ring_iter.wf()
        &&& self.distance <= 127
        &&& self.ring_iter.dist() <= self.distance
    }

    /// The disk radius being enumerated.
    pub closed spec fn target(self) -> int {
        self.distance as int
    }

    /// How many offsets have been emitted so far.
    pub closed spec fn pos(self) -> int {
        ring_start(self.ring_iter.dist()) + self.ring_iter.pos()
    }

    /// Starts the disk enumeration at the center cell.
    pub fn new(distance: u8) -> (it: CoordOrientationNeighborIterator)
        requires
            distance <= 127,
        ensures
            it.wf(),
            it.target() == distance,
            it.pos() == 0,
    {
        CoordOrientationNeighborIterator {
            ring_iter: CoordOrientationRingIterator::new(0),
            distance,
        }
    }

    /// The next offset of the disk, or `None` once every cell within the
    /// target radius has been emitted.
    pub fn next(&mut self) -> (r: Option<CoordOrientation>)
        requires
            old(self).wf(),
        ensures
            final(self).wf(),
            final(self).target() == old(self).target(),
            r is Some <==> old(self).pos() < disk_seq(old(self).target()).len(),
            r matches Some(o) ==> o@ == disk_seq(old(self).target())[old(self).pos()],
            r is Some ==> final(self).pos() == old(self).pos() + 1,
            r is None ==> *final(self) == *old(self),
    {
        let ghost n: int = self.distance as int;
        let ghost d0: int = self.ring_iter.dist();
        let ghost p0: int = self.ring_iter.pos();
        proof {
            lemma_pos_le_len(self.ring_iter);
            lemma_ring_start_next(d0);
            lemma_ring_start_mono(d0 + 1, n + 1);
            lemma_disk_len_is_ring_start(n);
        }
        let first = self.ring_iter.next();
        match first {
            Option::Some(c) => {
                proof {
                    lemma_disk_index(n, d0, p0);
                }
                return Some(c);
            },
            Option::None => {},
        }
        if self.distance <= self.ring_iter.distance {
            return None;
        }
        let next_distance = self.ring_iter.distance + 1;
        self.ring_iter = CoordOrientationRingIterator::new(next_distance);
        let out = self.ring_iter.next();
        proof {
            lemma_disk_index(n, d0 + 1, 0);
        }
        out
    }
}

impl CoordOrientation {
    /// Lazily enumerates the orientation offsets at hex distance exactly
    /// `distance` from the zero orientation.
    pub fn iter_neighbors_ring(distance: u8) -> (it: CoordOrientationRingIterator)
        requires
            distance <= 127,
        ensures
            it.wf(),
            it.dist() == distance,
            it.pos() == 0,
    {
        CoordOrientationRingIterator::new(distance)
    }

    /// Lazily enumerates the orientation offsets at hex distance at most
    /// `distance` from the zero orientation.
    pub fn iter_neighbors(distance: u8) -> (it: CoordOrientationNeighborIterator)
        requires
            distance <= 127,
        ensures
            it.wf(),
            it.target() == distance,
            it.pos() == 0,
    {
        CoordOrientationNeighborIterator::new(distance)
    }
}

/// Lazily yields the coordinates of the ring of a given radius around a
/// center, each the center translated by a ring offset.
pub struct CoordRingIterator {
    center: Coord,
    offset: CoordOrientationRingIterator,
}

impl CoordRingIterator {
    pub closed spec fn wf(self) -> bool {
        self.offset.wf()
    }

    /// The center being circled.
    pub closed spec fn center(self) -> (int, int) {
        self.center@
    }

    /// The ring radius being walked.
    pub closed spec fn dist(self) -> int {
        self.offset.dist()
    }

    /// How many coordinates have been emitted so far.
    pub closed spec fn pos(self) -> int {
        self.offset.pos()
    }

    fn new(center: Coord, distance: u8) -> (it: CoordRingIterator)
        requires
            distance <= 127,
        ensures
            it.wf(),
            it.center() == center@,
            it.dist() == distance,
            it.pos() == 0,
    {
        CoordRingIterator { center, offset: CoordOrientationRingIterator::new(distance) }
    }

    /// The next coordinate of the ring, or `None` once the ring is done.
    pub fn next(&mut self) -> (r: Option<Coord>)
        requires
            old(self).wf(),
        ensures
            final(self).wf(),
            final(self).center() == old(self).center(),
            final(self).dist() == old(self).dist(),
            r is Some <==> old(self).pos() < ring_len(old(self).dist()),
            r matches Some(c) ==> c@ == spec_translate(
                old(self).center(),
                ring_elem(old(self).dist(), old(self).pos()),
            ),
            r is Some ==> final(self).pos() == old(self).pos() + 1,
            r is None ==> *final(self) == *old(self),
    {
        match self.offset.next() {
            Option::Some(o) => Some(self.center.add_offset(o)),
            Option::None => None,
        }
    }
}

/// Lazily yields the coordinates of the disk of a given radius around a
/// center.
pub struct CoordNeighborIterator {
    center: Coord,
    offset: CoordOrientationNeighborIterator,
}

impl CoordNeighborIterator {
    pub closed spec fn wf(self) -> bool {
        self.offset.wf()
    }

    /// The center of the disk.
    pub closed spec fn center(self) -> (int, int) {
        self.center@
    }

    /// The disk radius being enumerated.
    pub closed spec fn target(self) -> int {
        self.offset.target()
    }

    /// How many coordinates have been emitted so far.
    pub closed spec fn pos(self) -> int {
        self.offset.pos()
    }

    fn new(center: Coord, distance: u8) -> (it: CoordNeighborIterator)
        requires
            distance <= 127,
        ensures
            it.wf(),
            it.center() == center@,
            it.target() == distance,
            it.pos() == 0,
    {
        CoordNeighborIterator { center, offset: CoordOrientationNeighborIterator::new(distance) }
    }

    /// The next coordinate of the disk, or `None` once every cell within
    /// the target radius has been emitted.
    pub fn next(&mut self) -> (r: Option<Coord>)
        requires
            old(self).wf(),
        ensures
            final(self).wf(),
            final(self).center() == old(self).center(),
            final(self).target() == old(self).target(),
            r is Some <==> old(self).pos() < disk_seq(old(self).target()).len(),
            r matches Some(c) ==> c@ == spec_translate(
                old(self).center(),
                disk_seq(old(self).target())[old(self).pos()],
            ),
            r is Some ==> final(self).pos() == old(self).pos() + 1,
            r is None ==> *final(self) == *old(self),
    {
        match self.offset.next() {
            Option::Some(o) => Some(self.center.add_offset(o)),
            Option::None => None,
        }
    }
}

impl Coord {
    /// Lazily enumerates the coordinates at hex distance exactly `distance`
    /// from this one.
    pub fn iter_neighbors_ring(self, distance: u8) -> (it: CoordRingIterator)
        requires
            distance <= 127,
        ensures
            it.wf(),
            it.center() == self@,
            it.dist() == distance,
            it.pos() == 0,
    {
        CoordRingIterator::new(self, distance)
    }

    /// Lazily enumerates the coordinates at hex distance at most `distance`
    /// from this one.
    pub fn iter_neighbors(self, distance: u8) -> (it: CoordNeighborIterator)
        requires
            distance <= 127,
        ensures
            it.wf(),
            it.center() == self@,
            it.target() == distance,
            it.pos() == 0,
    {
        CoordNeighborIterator::new(self, distance)
    }
}

/// Law: every cell the ring walk of radius `d` emits lies at hex distance
/// exactly `d` from the center it circles, whatever the center.
pub proof fn lemma_ring_element_distance(c: Coord, d: int, i: int)
    requires
        0 <= d <= 127,
        0 <= i < ring_len(d),
    ensures
        spec_coord_distance(c@, spec_translate(c@, ring_elem(d, i))) == d,
{
    lemma_ring_elem_bounds(d, i);
    let e = ring_elem(d, i);
    let t = spec_translate(c@, e);
    lemma_wrap_i8_drop_u8(c@.0 + e.0, c@.0);
    lemma_wrap_i8_drop_u8(c@.1 + e.1, c@.1);
    lemma_wrap_i8_id(-e.0);
    lemma_wrap_i8_id(-e.1);
    lemma_wrap_i8_id(e.0 + e.1);
    lemma_wrap_u8_id(abs(e.0) as int);
    lemma_wrap_u8_id(abs(e.0 + e.1) as int);
    lemma_wrap_u8_id(abs(e.1) as int);
    assert(crate::coord::spec_coord_diff(c@, t) == (-e.0, -e.1));
    assert(crate::orientation::spec_y((-e.0, -e.1)) == e.0 + e.1);
}

/// Every disk index falls inside exactly one ring: the returned pair gives
/// the ring radius and the position along that ring.
proof fn lemma_disk_decompose(n: int, i: int) -> (r: (int, int))
    requires
        0 <= n,
        0 <= i < disk_seq(n).len(),
    ensures
        0 <= r.0 <= n,
        0 <= r.1 < ring_len(r.0),
        i == ring_start(r.0) + r.1,
        disk_seq(n)[i] == ring_elem(r.0, r.1),
    decreases n,
{
    if n == 0 {
        (0int, 0int)
    } else if i < disk_seq(n - 1).len() {
        lemma_disk_decompose(n - 1, i)
    } else {
        lemma_disk_len_is_ring_start(n - 1);
        let j = i - ring_start(n);
        lemma_disk_index(n, n, j);
        (n, j)
    }
}

/// Law: the disk enumeration never emits the same cell twice: cells of one
/// ring differ along the walk, and cells of different rings lie at
/// different distances.
pub proof fn lemma_disk_no_duplicates(n: int, i1: int, i2: int)
    requires
        0 <= n <= 127,
        0 <= i1 < disk_seq(n).len(),
        0 <= i2 < disk_seq(n).len(),
        i1 != i2,
    ensures
        disk_seq(n)[i1] != disk_seq(n)[i2],
{
    let r1 = lemma_disk_decompose(n, i1);
    let r2 = lemma_disk_decompose(n, i2);
    lemma_ring_elem_bounds(r1.0, r1.1);
    lemma_ring_elem_bounds(r2.0, r2.1);
    if r1.0 == r2.0 {
        lemma_ring_no_duplicates(r1.0, r1.1, r2.1);
    }
}

/// Law: the ring walk of radius `d` never emits the same cell twice.
pub proof fn lemma_ring_no_duplicates(d: int, i1: int, i2: int)
    requires
        0 <= d <= 127,
        0 <= i1 < ring_len(d),
        0 <= i2 < ring_len(d),
        i1 != i2,
    ensures
        ring_elem(d, i1) != ring_elem(d, i2),
{
    assert(d >= 1);
    lemma_fundamental_div_mod(i1, d);
    lemma_mod_bound(i1, d);
    lemma_fundamental_div_mod(i2, d);
    lemma_mod_bound(i2, d);
    let k1 = i1 / d;
    let j1 = i1 % d;
    let k2 = i2 / d;
    let j2 = i2 % d;
    assert(0 <= k1 <= 5 && 0 <= k2 <= 5) by (nonlinear_arith)
        requires
            i1 == d * k1 + j1,
            i2 == d * k2 + j2,
            0 <= j1 < d,
            0 <= j2 < d,
            0 <= i1 < 6 * d,
            0 <= i2 < 6 * d,
    ;
    assert(k1 != k2 || j1 != j2) by (nonlinear_arith)
        requires
            i1 == d * k1 + j1,
            i2 == d * k2 + j2,
            i1 != i2,
    ;
}

/// Law: the ring walk omits nothing: every offset whose largest absolute
/// cubic component is exactly `d` appears in the walk of radius `d`, at the
/// returned position.
pub proof fn lemma_ring_complete(d: int, a: int, b: int) -> (i: int)
    requires
        0 <= d <= 127,
        max3(abs(a) as int, abs(a + b) as int, abs(b) as int) == d,
    ensures
        0 <= i < ring_len(d),
        ring_elem(d, i) == (a, b),
{
    if d == 0 {
        0int
    } else if a + b == d && b < d {
        lemma_fundamental_div_mod_converse(b, d, 0, b);
        b
    } else if b == d && a > -d {
        lemma_fundamental_div_mod_converse(d + (-a), d, 1, -a);
        d + (-a)
    } else if a == -d && b > 0 {
        lemma_fundamental_div_mod_converse(2 * d + (d - b), d, 2, d - b);
        2 * d + (d - b)
    } else if a + b == -d && b > -d {
        lemma_fundamental_div_mod_converse(3 * d + (-b), d, 3, -b);
        3 * d + (-b)
    } else if b == -d && a < d {
        lemma_fundamental_div_mod_converse(4 * d + a, d, 4, a);
        4 * d + a
    } else {
        assert(a == d && -d <= b < 0);
        lemma_fundamental_div_mod_converse(5 * d + (d + b), d, 5, d + b);
        5 * d + (d + b)
    }
}

/// Law: the disk enumeration omits nothing: every offset within the target
/// radius appears in the disk sequence, at the returned position.
pub proof fn lemma_disk_complete(n: int, a: int, b: int) -> (i: int)
    requires
        0 <= n <= 127,
        max3(abs(a) as int, abs(a + b) as int, abs(b) as int) <= n,
    ensures
        0 <= i < disk_seq(n).len(),
        disk_seq(n)[i] == (a, b),
{
    let d = max3(abs(a) as int, abs(a + b) as int, abs(b) as int);
    let j = lemma_ring_complete(d, a, b);
    lemma_disk_index(n, d, j);
    ring_start(d) + j
}

} // verus!
