//! An absolute position on a bounded hex grid.
//!
//! A coordinate stores the axial pair `(q, r)` as unsigned bytes, so the map
//! is a 256-by-256 rhombus and "negative" positions wrap around.  The cubic
//! reading widens to 16-bit signed values, where `y = -x - z` is exact.
//!
//! Besides the wrapping vector algebra shared with
//! [`CoordOrientation`](crate::orientation::CoordOrientation), a coordinate
//! maps into a flat row-major tile buffer (optionally wrapping on the
//! horizontal axis) and converts to and from Cartesian space.  The Cartesian
//! conversions work on exact integer parts — doubled abscissas and
//! `sqrt(3)`-scaled ordinates — so that the geometry is verified; scaling by
//! the irrational constants themselves is left to the caller.

use vstd::prelude::*;

verus! {

use crate::orientation::{spec_cubic_max, spec_sub, CoordOrientation};
use crate::wrap::{
    bits_to_signed,
    lemma_wrap_i8_bounds,
    lemma_wrap_i8_drop_u8,
    lemma_wrap_i8_id,
    lemma_wrap_u8_equal,
    lemma_wrap_u8_id,
    lemma_wrapping_add_signed_u8,
    lemma_wrapping_sub_u8,
    wrap_i8,
    wrap_u8,
};
use vstd::arithmetic::div_mod::{
    lemma_div_multiples_vanish,
    lemma_div_nonincreasing,
    lemma_fundamental_div_mod,
    lemma_fundamental_div_mod_converse,
    lemma_hoist_over_denominator,
    lemma_mod_bound,
    lemma_mod_multiples_basic,
};
use vstd::arithmetic::mul::lemma_mul_upper_bound;

/// An absolute hex-grid position, axial `(q, r)` in unsigned bytes.
#[derive(Clone, Copy, Default, Debug, Hash, PartialOrd, PartialEq, Ord, Eq)]
pub struct Coord(u8, u8);

impl View for Coord {
    type V = (int, int);

    closed spec fn view(&self) -> (int, int) {
        (self.0 as int, self.1 as int)
    }
}

/// The cubic `y` component of a coordinate; exact in the widened signed
/// domain, no wraparound.
pub open spec fn spec_coord_y(v: (int, int)) -> int {
    -v.0 - v.1
}

/// Translation by an orientation, each axis wrapping modulo 256.
pub open spec fn spec_translate(c: (int, int), o: (int, int)) -> (int, int) {
    (wrap_u8(c.0 + o.0), wrap_u8(c.1 + o.1))
}

/// The difference of two coordinates, read as an orientation.
pub open spec fn spec_coord_diff(a: (int, int), b: (int, int)) -> (int, int) {
    (wrap_i8(a.0 - b.0), wrap_i8(a.1 - b.1))
}

/// The hex distance between two coordinates: the wrapping difference taken
/// as an orientation, then the maximum absolute cubic component.
pub open spec fn spec_coord_distance(a: (int, int), b: (int, int)) -> int {
    spec_cubic_max(spec_coord_diff(a, b))
}

/// The flat row-major buffer index of a coordinate on a grid whose largest
/// column index is `max_x` and largest row index is `max_z`.  A row out of
/// range is absent; a column out of range is absent unless the grid wraps
/// horizontally, in which case it is reduced modulo the row length.
pub open spec fn spec_idx(v: (int, int), max_x: int, max_z: int, wraps_x: bool) -> Option<int> {
    if v.1 > max_z || (!wraps_x && v.0 > max_x) {
        None
    } else {
        Some(v.1 * (max_x + 1) + (v.0 % (max_x + 1)))
    }
}

/// Translation re-checked against grid bounds: the sum is computed in the
/// signed domain, rows outside `[0, height]` are absent, and the column
/// either wraps modulo `width + 1` or must lie in `[0, width]`.
pub open spec fn spec_offset_by(
    c: (int, int),
    o: (int, int),
    width: int,
    height: int,
    wraps_x: bool,
) -> Option<(int, int)> {
    let q = c.0 + o.0;
    let r = c.1 + o.1;
    if r < 0 || r > height {
        None
    } else if wraps_x {
        Some((q % (width + 1), r))
    } else if q < 0 || q > width {
        None
    } else {
        Some((q, r))
    }
}

/// Clamping into the 16-bit signed range, as a float-to-`i16` cast does.
pub open spec fn spec_sat_i16(v: int) -> int {
    if v > 32767 {
        32767
    } else if v < -32768 {
        -32768
    } else {
        v
    }
}

/// The grid coordinate recovered from the three floor-bucket tests of the
/// inverse Cartesian projection: `t1 = floor(x + sqrt(3)*y + 1)`,
/// `t2 = floor(2*x + 1)` and `t3 = floor(-x + sqrt(3)*y + 1)`.
pub open spec fn spec_from_linear_steps(t1: int, t2: int, t3: int) -> (int, int) {
    let qf = (t2 + t1) / 3;
    let rf = (t1 + t3) / 3;
    (wrap_u8(spec_sat_i16(qf - rf)), wrap_u8(spec_sat_i16(rf)))
}

/// The grid coordinate under an exact Cartesian point given as integer
/// parts: `x2 = 2*x` and `v2 = 2*sqrt(3)*y`.
pub open spec fn spec_from_linear_parts(x2: int, v2: int) -> (int, int) {
    spec_from_linear_steps((x2 + v2 + 2) / 2, x2 + 1, (v2 - x2 + 2) / 2)
}

/// Floor division by a small positive constant, total over the range the
/// Cartesian conversions need.
fn div_floor(n: i64, d: u8) -> (r: i64)
    requires
        1 <= d <= 4,
        -0x4_0000_0000i64 <= n <= 0x4_0000_0000i64,
    ensures
        r == n as int / d as int,
        -0x4_0000_0004i64 <= r <= 0x4_0000_0000i64,
        (d as int) * r <= n as int,
        (n as int) < (d as int) * (r + 1),
{
    let shift: i64 = 0x4_0000_0000;
    let shifted: u64 = (n + (d as i64) * shift) as u64;
    proof {
        lemma_div_nonincreasing(shifted as int, d as int);
    }
    let quot: u64 = shifted / (d as u64);
    let r = (quot as i64) - shift;
    proof {
        lemma_hoist_over_denominator(n as int, shift as int, d as nat);
        lemma_fundamental_div_mod(n as int, d as int);
        let m = n as int % d as int;
        lemma_mod_bound(n as int, d as int);
        assert(-0x4_0000_0004 <= r as int <= 0x4_0000_0000
            && (d as int) * (r as int) <= n as int
            && (n as int) < (d as int) * (r as int + 1)) by (nonlinear_arith)
            requires
                n as int == (d as int) * (r as int) + m,
                0 <= m < d as int,
                1 <= d as int <= 4,
                -0x4_0000_0000 <= n as int <= 0x4_0000_0000,
        ;
    }
    r
}

/// Reduce a wide signed value into the unsigned byte range, as the cast
/// chain `as i16 as u8` of the projection does.
fn wrap_to_byte(v: i16) -> (r: u8)
    ensures
        r as int == wrap_u8(v as int),
{
    let lifted: u32 = (v as i32 + 32768) as u32;
    let m: u32 = lifted % 256;
    proof {
        lemma_mod_multiples_basic(128, 256);
        lemma_wrap_u8_equal(v as int + 32768, v as int);
        lemma_mod_bound(lifted as int, 256);
    }
    m as u8
}

/// Clamp a wide value into the 16-bit signed range.
fn saturate_i16(v: i64) -> (r: i16)
    ensures
        r as int == spec_sat_i16(v as int),
{
    if v > 32767 {
        32767
    } else if v < -32768 {
        -32768
    } else {
        v as i16
    }
}

/// The column reduced modulo the row length, Euclidean, so that negative
/// columns wrap to the right-hand side.
fn wrap_column(q: i16, m: u16) -> (r: u16)
    requires
        1 <= m <= 256,
    ensures
        r as int == q as int % m as int,
        r < m,
{
    if q >= 0 {
        let r = (q as u16) % m;
        proof {
            lemma_mod_bound(q as int, m as int);
        }
        r
    } else {
        let neg: u32 = (-(q as i32)) as u32;
        let md: u32 = neg % (m as u32);
        proof {
            lemma_fundamental_div_mod(neg as int, m as int);
            lemma_mod_bound(neg as int, m as int);
            let k = neg as int / m as int;
            if md == 0 {
                assert(q as int == (-k) * (m as int) + 0) by (nonlinear_arith)
                    requires
                        neg as int == (m as int) * k + (md as int),
                        md as int == 0,
                        q as int == -(neg as int),
                ;
                lemma_fundamental_div_mod_converse(q as int, m as int, -k, 0);
            } else {
                assert(q as int == (-k - 1) * (m as int) + ((m as int) - (md as int)))
                    by (nonlinear_arith)
                    requires
                        neg as int == (m as int) * k + (md as int),
                        q as int == -(neg as int),
                ;
                lemma_fundamental_div_mod_converse(
                    q as int,
                    m as int,
                    -k - 1,
                    m as int - md as int,
                );
            }
        }
        if md == 0 {
            0
        } else {
            m - (md as u16)
        }
    }
}

impl Coord {
    /// Builds a coordinate from an axial pair; always succeeds.  The
    /// unsigned domain means a "negative" axial position is represented by
    /// its wraparound, so `-1` is stored as 255.
    pub fn new_axial(q: u8, r: u8) -> (c: Coord)
        ensures
            c@ == (q as int, r as int),
    {
        Coord(q, r)
    }

    /// The axial column component.
    pub fn q(&self) -> (r: u8)
        ensures
            r as int == self@.0,
    {
        self.0
    }

    /// The axial row component.
    pub fn r(&self) -> (r: u8)
        ensures
            r as int == self@.1,
    {
        self.1
    }

    /// Both axial components at once.
    pub fn to_axial_tuple(&self) -> (t: (u8, u8))
        ensures
            t.0 as int == self@.0,
            t.1 as int == self@.1,
    {
        (self.0, self.1)
    }

    /// The cubic `x` component, widened to a signed 16-bit value.
    pub fn x(&self) -> (r: i16)
        ensures
            r as int == self@.0,
    {
        self.0 as i16
    }

    /// The cubic `y` component, `-x - z`; exact, since the widened domain
    /// cannot overflow on bytes.
    pub fn y(&self) -> (r: i16)
        ensures
            r as int == spec_coord_y(self@),
    {
        -(self.0 as i16) - (self.1 as i16)
    }

    /// The cubic `z` component, widened to a signed 16-bit value.
    pub fn z(&self) -> (r: i16)
        ensures
            r as int == self@.1,
    {
        self.1 as i16
    }

    /// All three cubic components; they sum to exactly zero.
    pub fn to_cubic_tuple(&self) -> (t: (i16, i16, i16))
        ensures
            t.0 as int == self@.0,
            t.1 as int == spec_coord_y(self@),
            t.2 as int == self@.1,
    {
        (self.x(), self.y(), self.z())
    }

    /// The doubled Cartesian projection: `(2*x, 2*sqrt(3)*y)` as exact
    /// integers `(2q + r, 3r)`.
    ///
    /// A pointy-top hex of unit spacing sits at Cartesian `x = q + r/2`,
    /// `y = r*sqrt(3)/2`.  A caller that wants floating-point pixels divides
    /// the first part by 2 and the second by `2*sqrt(3)`.
    pub fn to_linear_parts(self) -> (p: (u16, u16))
        ensures
            p.0 as int == 2 * self@.0 + self@.1,
            p.1 as int == 3 * self@.1,
    {
        (2 * (self.0 as u16) + (self.1 as u16), 3 * (self.1 as u16))
    }

    /// The grid coordinate containing a Cartesian point, from the three
    /// floor-bucket tests `t1 = floor(x + sqrt(3)*y + 1)`,
    /// `t2 = floor(2*x + 1)`, `t3 = floor(-x + sqrt(3)*y + 1)`.
    ///
    /// The caller computes the three floors (the only inexact step); this
    /// function does the remaining bucket arithmetic exactly.  The machine
    /// bound on the inputs keeps every intermediate sum inside `i64`.
    pub fn from_linear_steps(t1: i64, t2: i64, t3: i64) -> (c: Coord)
        requires
            -0x2_0000_0000i64 <= t1 <= 0x2_0000_0000i64,
            -0x2_0000_0000i64 <= t2 <= 0x2_0000_0000i64,
            -0x2_0000_0000i64 <= t3 <= 0x2_0000_0000i64,
        ensures
            c@ == spec_from_linear_steps(t1 as int, t2 as int, t3 as int),
    {
        let qf = div_floor(t2 + t1, 3);
        let rf = div_floor(t1 + t3, 3);
        let qa = saturate_i16(qf - rf);
        let ra = saturate_i16(rf);
        Coord(wrap_to_byte(qa), wrap_to_byte(ra))
    }

    /// The grid coordinate under an exact Cartesian point given as integer
    /// parts `x2 = 2*x` and `v2 = 2*sqrt(3)*y`, the representation
    /// [`to_linear_parts`](Coord::to_linear_parts) produces.
    pub fn from_linear_parts(x2: i32, v2: i32) -> (c: Coord)
        ensures
            c@ == spec_from_linear_parts(x2 as int, v2 as int),
    {
        let t1 = div_floor(x2 as i64 + v2 as i64 + 2, 2);
        let t3 = div_floor(v2 as i64 - x2 as i64 + 2, 2);
        Coord::from_linear_steps(t1, x2 as i64 + 1, t3)
    }

    /// The flat row-major buffer index on a `(max_x + 1) x (max_z + 1)`
    /// grid; `None` exactly when the row exceeds `max_z`, or the column
    /// exceeds `max_x` on a grid that does not wrap.
    pub fn idx(self, max_x: u8, max_z: u8, wraps_x: bool) -> (r: Option<usize>)
        ensures
            r is Some <==> spec_idx(self@, max_x as int, max_z as int, wraps_x) is Some,
            r matches Some(i) ==> spec_idx(self@, max_x as int, max_z as int, wraps_x)
                == Some(i as int),
    {
        if self.1 > max_z || (!wraps_x && self.0 > max_x) {
            return None;
        }
        let row_len: usize = max_x as usize + 1;
        let x: usize = (self.0 as usize) % row_len;
        let z: usize = self.1 as usize;
        proof {
            lemma_mod_bound(self@.0, row_len as int);
            lemma_mul_upper_bound(z as int, 255, row_len as int, 256);
        }
        Some(z * row_len + x)
    }

    /// Translation re-checked against grid bounds; `None` for a row outside
    /// `[0, height]`, and for a column outside `[0, width]` unless the grid
    /// wraps horizontally.
    pub fn offset_by(
        self,
        offset: CoordOrientation,
        width: u8,
        height: u8,
        wraps_x: bool,
    ) -> (r: Option<Coord>)
        ensures
            r is Some <==> spec_offset_by(
                self@,
                offset@,
                width as int,
                height as int,
                wraps_x,
            ) is Some,
            r matches Some(c) ==> spec_offset_by(
                self@,
                offset@,
                width as int,
                height as int,
                wraps_x,
            ) == Some(c@),
    {
        let q: i16 = self.0 as i16 + offset.q() as i16;
        let rr: i16 = self.1 as i16 + offset.r() as i16;
        if rr < 0 || rr > height as i16 {
            return None;
        }
        if wraps_x {
            let qm: u16 = wrap_column(q, width as u16 + 1);
            Some(Coord(qm as u8, rr as u8))
        } else {
            if q < 0 || q > width as i16 {
                return None;
            }
            Some(Coord(q as u8, rr as u8))
        }
    }

    /// The hex distance to another coordinate: the wrapping difference read
    /// as an orientation, at its distance from the zero orientation.
    pub fn distance_to(self, other: Coord) -> (d: u8)
        ensures
            d as int == spec_coord_distance(self@, other@),
    {
        let diff = self.sub(other);
        proof {
            lemma_wrap_i8_bounds(self@.0 - other@.0);
            lemma_wrap_i8_bounds(self@.1 - other@.1);
            lemma_wrap_i8_id(diff@.0);
            lemma_wrap_i8_id(diff@.1);
            assert(spec_sub(diff@, (0int, 0int)) == diff@);
        }
        diff.distance_to(CoordOrientation::new_axial(0, 0))
    }

    /// Translation by an orientation, each axis wrapping modulo 256.
    pub fn add_offset(self, rhs: CoordOrientation) -> (c: Coord)
        ensures
            c@ == spec_translate(self@, rhs@),
    {
        let oq = rhs.q();
        let or = rhs.r();
        proof {
            lemma_wrapping_add_signed_u8(self.0, oq);
            lemma_wrapping_add_signed_u8(self.1, or);
        }
        Coord(self.0.wrapping_add_signed(oq), self.1.wrapping_add_signed(or))
    }

    /// Translation by the negation of an orientation.
    pub fn sub_offset(self, rhs: CoordOrientation) -> (c: Coord)
        ensures
            c@ == (wrap_u8(self@.0 - rhs@.0), wrap_u8(self@.1 - rhs@.1)),
    {
        let n = rhs.neg();
        let oq = n.q();
        let or = n.r();
        proof {
            lemma_wrapping_add_signed_u8(self.0, oq);
            lemma_wrapping_add_signed_u8(self.1, or);
            crate::wrap::lemma_wrap_u8_drop_i8(-rhs@.0, self@.0);
            crate::wrap::lemma_wrap_u8_drop_i8(-rhs@.1, self@.1);
        }
        Coord(self.0.wrapping_add_signed(oq), self.1.wrapping_add_signed(or))
    }

    /// The difference of two coordinates, as the orientation that translates
    /// `other` onto `self`.
    pub fn sub(self, other: Coord) -> (o: CoordOrientation)
        ensures
            o@ == spec_coord_diff(self@, other@),
    {
        let dq: u8 = self.0.wrapping_sub(other.0);
        let dr: u8 = self.1.wrapping_sub(other.1);
        proof {
            lemma_wrapping_sub_u8(self.0, other.0);
            lemma_wrapping_sub_u8(self.1, other.1);
            lemma_wrap_i8_drop_u8(self@.0 - other@.0, 0);
            lemma_wrap_i8_drop_u8(self@.1 - other@.1, 0);
        }
        CoordOrientation::new_axial(bits_to_signed(dq), bits_to_signed(dr))
    }
}

/// Law: the widened cubic components of any coordinate sum to exactly zero.
pub proof fn lemma_coord_cubic_sum_zero(c: Coord)
    ensures
        c@.0 + spec_coord_y(c@) + c@.1 == 0,
{
}

/// Law: on a full-height grid that wraps horizontally, indexing never
/// fails, whatever the coordinate and the column bound.
pub proof fn lemma_wrapping_idx_total(c: Coord, max_x: u8)
    ensures
        spec_idx(c@, max_x as int, 255, true) is Some,
{
}

/// Law: projecting to Cartesian parts and back recovers the coordinate
/// exactly, for every coordinate on the grid.
pub proof fn lemma_linear_round_trip(c: Coord)
    ensures
        spec_from_linear_parts(2 * c@.0 + c@.1, 3 * c@.1) == c@,
{
    let q = c@.0;
    let r = c@.1;
    let x2 = 2 * q + r;
    let v2 = 3 * r;
    lemma_div_multiples_vanish(q + 2 * r + 1, 2);
    assert((x2 + v2 + 2) / 2 == q + 2 * r + 1);
    lemma_div_multiples_vanish(r - q + 1, 2);
    assert((v2 - x2 + 2) / 2 == r - q + 1);
    let t1 = q + 2 * r + 1;
    let t2 = x2 + 1;
    let t3 = r - q + 1;
    lemma_fundamental_div_mod_converse(t2 + t1, 3, q + r, 2);
    lemma_fundamental_div_mod_converse(t1 + t3, 3, r, 2);
    lemma_wrap_u8_id(q);
    lemma_wrap_u8_id(r);
}

} // verus!
