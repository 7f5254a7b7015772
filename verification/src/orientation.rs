//! A relative displacement vector in axial hex space.
//!
//! An orientation stores the axial pair `(q, r)` as signed bytes.  The cubic
//! reading is `x = q`, `z = r`, `y = -x - z`, so the cubic components always
//! sum to zero modulo 256.  All arithmetic wraps on overflow; the spec
//! functions below state each operation exactly, over [`wrap_i8`].

use vstd::prelude::*;

verus! {

use crate::wrap::{
    abs_i8,
    lemma_wrap_i8_bounds,
    lemma_wrap_i8_drop,
    lemma_wrap_i8_id,
    lemma_wrap_u8_id,
    lemma_wrapping_add_i8,
    lemma_wrapping_mul_i8,
    lemma_wrapping_sub_i8,
    max_u8,
    wrap_i8,
    wrap_u8,
};
use vstd::math::{abs, max3};

/// A direction plus magnitude on the hex grid, in axial coordinates.
#[derive(Clone, Copy, Default, Debug, Hash, PartialOrd, PartialEq, Ord, Eq)]
pub struct CoordOrientation(i8, i8);

impl View for CoordOrientation {
    type V = (int, int);

    closed spec fn view(&self) -> (int, int) {
        (self.0 as int, self.1 as int)
    }
}

/// The cubic `y` component, `-x - z` wrapped into a signed byte.
pub open spec fn spec_y(v: (int, int)) -> int {
    wrap_i8(-v.0 - v.1)
}

/// Rotation by 60 degrees clockwise: negate, then read the cubic components
/// `(z, y)` of the negation as the new axial pair.
pub open spec fn spec_cw(v: (int, int)) -> (int, int) {
    (wrap_i8(-v.1), wrap_i8(v.0 + v.1))
}

/// Rotation by 60 degrees counterclockwise: the new axial pair is `(y, x)`
/// of the negation.
pub open spec fn spec_ccw(v: (int, int)) -> (int, int) {
    (wrap_i8(v.0 + v.1), wrap_i8(-v.0))
}

/// Componentwise wrapping negation.
pub open spec fn spec_neg(v: (int, int)) -> (int, int) {
    (wrap_i8(-v.0), wrap_i8(-v.1))
}

/// Componentwise wrapping sum.
pub open spec fn spec_add(a: (int, int), b: (int, int)) -> (int, int) {
    (wrap_i8(a.0 + b.0), wrap_i8(a.1 + b.1))
}

/// Componentwise wrapping difference.
pub open spec fn spec_sub(a: (int, int), b: (int, int)) -> (int, int) {
    (wrap_i8(a.0 - b.0), wrap_i8(a.1 - b.1))
}

/// Componentwise wrapping scaling.
pub open spec fn spec_scale(v: (int, int), k: int) -> (int, int) {
    (wrap_i8(v.0 * k), wrap_i8(v.1 * k))
}

/// The largest absolute cubic component of a displacement, each component
/// folded through an absolute value truncated to a byte.
pub open spec fn spec_cubic_max(d: (int, int)) -> int {
    max3(
        wrap_u8(abs(d.0) as int),
        wrap_u8(abs(spec_y(d)) as int),
        wrap_u8(abs(d.1) as int),
    )
}

/// The hex distance between two orientations: the wrapping cubic difference,
/// then the maximum absolute cubic component.
pub open spec fn spec_distance(a: (int, int), b: (int, int)) -> int {
    spec_cubic_max(spec_sub(a, b))
}

impl CoordOrientation {
    /// Builds an orientation from an axial pair; always succeeds.
    pub fn new_axial(q: i8, r: i8) -> (c: CoordOrientation)
        ensures
            c@ == (q as int, r as int),
    {
        CoordOrientation(q, r)
    }

    /// The axial column component.
    pub fn q(&self) -> (r: i8)
        ensures
            r as int == self@.0,
    {
        self.0
    }

    /// The axial row component.
    pub fn r(&self) -> (r: i8)
        ensures
            r as int == self@.1,
    {
        self.1
    }

    /// Both axial components at once.
    pub fn to_axial_tuple(&self) -> (t: (i8, i8))
        ensures
            t.0 as int == self@.0,
            t.1 as int == self@.1,
    {
        (self.0, self.1)
    }

    /// The cubic `x` component, which axial storage keeps directly.
    pub fn x(&self) -> (r: i8)
        ensures
            r as int == self@.0,
    {
        self.0
    }

    /// The cubic `y` component, derived as `-x - z` with wraparound.
    pub fn y(&self) -> (r: i8)
        ensures
            r as int == spec_y(self@),
    {
        let n: i8 = (0 as i8).wrapping_sub(self.0);
        let out: i8 = n.wrapping_sub(self.1);
        proof {
            lemma_wrapping_sub_i8(0 as i8, self.0);
            lemma_wrapping_sub_i8(n, self.1);
            lemma_wrap_i8_drop(-self@.0, -self@.1);
            assert(wrap_i8(-self@.1 + wrap_i8(-self@.0)) == wrap_i8(-self@.1 + -self@.0));
        }
        out
    }

    /// The cubic `z` component, which axial storage keeps directly.
    pub fn z(&self) -> (r: i8)
        ensures
            r as int == self@.1,
    {
        self.1
    }

    /// All three cubic components; they sum to zero modulo 256.
    pub fn to_cubic_tuple(&self) -> (t: (i8, i8, i8))
        ensures
            t.0 as int == self@.0,
            t.1 as int == spec_y(self@),
            t.2 as int == self@.1,
    {
        (self.x(), self.y(), self.z())
    }

    /// The doubled Cartesian projection: `(2x, 2*sqrt(3)*y)` in exact
    /// integers.
    ///
    /// A pointy-top hex of unit spacing sits at Cartesian `x = q + r/2` and
    /// `y = r*sqrt(3)/2`, so `2x` is the exact integer `2q + r`, and `y`
    /// scaled by `2*sqrt(3)` is the exact integer `3r`.  A caller that wants
    /// floating-point pixels divides the first part by 2 and the second by
    /// `2*sqrt(3)`.
    pub fn to_linear_parts(self) -> (p: (i16, i16))
        ensures
            p.0 as int == 2 * self@.0 + self@.1,
            p.1 as int == 3 * self@.1,
    {
        (2 * (self.0 as i16) + (self.1 as i16), 3 * (self.1 as i16))
    }

    /// The hex-grid distance metric: the maximum absolute cubic component of
    /// the wrapping difference.
    pub fn distance_to(self, other: CoordOrientation) -> (d: u8)
        ensures
            d as int == spec_distance(self@, other@),
    {
        let diff = self.sub(other);
        let (dx, dy, dz): (i8, i8, i8) = diff.to_cubic_tuple();
        proof {
            lemma_wrap_i8_bounds(self@.0 - other@.0);
            lemma_wrap_i8_bounds(self@.1 - other@.1);
            lemma_wrap_i8_bounds(-spec_sub(self@, other@).0 - spec_sub(self@, other@).1);
            lemma_wrap_u8_id(abs(dx as int) as int);
            lemma_wrap_u8_id(abs(dy as int) as int);
            lemma_wrap_u8_id(abs(dz as int) as int);
        }
        max_u8(max_u8(abs_i8(dx), abs_i8(dy)), abs_i8(dz))
    }

    /// Componentwise wrapping multiplication by a scalar.
    pub fn scale(self, scale: i8) -> (c: CoordOrientation)
        ensures
            c@ == spec_scale(self@, scale as int),
    {
        proof {
            lemma_wrapping_mul_i8(self.0, scale);
            lemma_wrapping_mul_i8(self.1, scale);
        }
        CoordOrientation(self.0.wrapping_mul(scale), self.1.wrapping_mul(scale))
    }

    /// Rotates 60 degrees clockwise.
    pub fn cw(self) -> (c: CoordOrientation)
        ensures
            c@ == spec_cw(self@),
    {
        let n = self.neg();
        let (_x, y, z): (i8, i8, i8) = n.to_cubic_tuple();
        proof {
            lemma_wrap_i8_drop(-self@.0, -wrap_i8(-self@.1));
            lemma_wrap_i8_drop(-self@.1, self@.0);
            assert(spec_y(spec_neg(self@)) == wrap_i8(self@.0 + self@.1));
        }
        CoordOrientation::new_axial(z, y)
    }

    /// Rotates 60 degrees counterclockwise.
    pub fn ccw(self) -> (c: CoordOrientation)
        ensures
            c@ == spec_ccw(self@),
    {
        let n = self.neg();
        let (x, y, _z): (i8, i8, i8) = n.to_cubic_tuple();
        proof {
            lemma_wrap_i8_drop(-self@.0, -wrap_i8(-self@.1));
            lemma_wrap_i8_drop(-self@.1, self@.0);
            assert(spec_y(spec_neg(self@)) == wrap_i8(self@.0 + self@.1));
        }
        CoordOrientation::new_axial(y, x)
    }

    /// Componentwise wrapping sum of two orientations.
    pub fn add(self, rhs: CoordOrientation) -> (c: CoordOrientation)
        ensures
            c@ == spec_add(self@, rhs@),
    {
        proof {
            lemma_wrapping_add_i8(self.0, rhs.0);
            lemma_wrapping_add_i8(self.1, rhs.1);
        }
        CoordOrientation(self.0.wrapping_add(rhs.0), self.1.wrapping_add(rhs.1))
    }

    /// Componentwise wrapping difference of two orientations.
    pub fn sub(self, rhs: CoordOrientation) -> (c: CoordOrientation)
        ensures
            c@ == spec_sub(self@, rhs@),
    {
        proof {
            lemma_wrapping_sub_i8(self.0, rhs.0);
            lemma_wrapping_sub_i8(self.1, rhs.1);
        }
        CoordOrientation(self.0.wrapping_sub(rhs.0), self.1.wrapping_sub(rhs.1))
    }

    /// Componentwise wrapping negation.
    pub fn neg(self) -> (c: CoordOrientation)
        ensures
            c@ == spec_neg(self@),
    {
        proof {
            lemma_wrapping_sub_i8(0 as i8, self.0);
            lemma_wrapping_sub_i8(0 as i8, self.1);
        }
        CoordOrientation((0 as i8).wrapping_sub(self.0), (0 as i8).wrapping_sub(self.1))
    }
}

/// Three clockwise rotations negate, over arbitrary integer pairs.
proof fn lemma_cw_cubed(v: (int, int))
    ensures
        spec_cw(spec_cw(spec_cw(v))) == spec_neg(v),
{
    let q = v.0;
    let r = v.1;
    lemma_wrap_i8_drop(q + r, 0);
    lemma_wrap_i8_drop(-r, wrap_i8(q + r));
    lemma_wrap_i8_drop(q + r, -r);
    assert(spec_cw(spec_cw(v)) == (wrap_i8(-q - r), wrap_i8(q)));
    lemma_wrap_i8_drop(q, 0);
    lemma_wrap_i8_drop(q, wrap_i8(-q - r));
    lemma_wrap_i8_drop(-q - r, q);
}

/// Three counterclockwise rotations negate, over arbitrary integer pairs.
proof fn lemma_ccw_cubed(v: (int, int))
    ensures
        spec_ccw(spec_ccw(spec_ccw(v))) == spec_neg(v),
{
    let q = v.0;
    let r = v.1;
    lemma_wrap_i8_drop(-q, wrap_i8(q + r));
    lemma_wrap_i8_drop(q + r, -q);
    lemma_wrap_i8_drop(q + r, 0);
    assert(spec_ccw(spec_ccw(v)) == (wrap_i8(r), wrap_i8(-q - r)));
    lemma_wrap_i8_drop(-q - r, wrap_i8(r));
    lemma_wrap_i8_drop(r, -q - r);
    lemma_wrap_i8_drop(r, 0);
}

/// Law: the cubic components of any orientation sum to zero under the same
/// wrapping addition the getters use: `x + (y + z)` wrapped at each step.
pub proof fn lemma_cubic_sum_zero(o: CoordOrientation)
    ensures
        wrap_i8(o@.0 + wrap_i8(spec_y(o@) + o@.1)) == 0,
{
    let q = o@.0;
    let r = o@.1;
    lemma_wrap_i8_drop(-q - r, r);
    lemma_wrap_i8_drop(r - q - r, q);
    lemma_wrap_i8_id(0);
}

/// Law: rotating six times in either direction returns the original
/// orientation.
pub proof fn lemma_rotation_closure(o: CoordOrientation)
    ensures
        spec_cw(spec_cw(spec_cw(spec_cw(spec_cw(spec_cw(o@)))))) == o@,
        spec_ccw(spec_ccw(spec_ccw(spec_ccw(spec_ccw(spec_ccw(o@)))))) == o@,
{
    lemma_cw_cubed(o@);
    lemma_cw_cubed(spec_neg(o@));
    lemma_ccw_cubed(o@);
    lemma_ccw_cubed(spec_neg(o@));
    lemma_wrap_i8_drop(-o@.0, 0);
    lemma_wrap_i8_drop(-o@.1, 0);
    lemma_wrap_i8_id(o@.0);
    lemma_wrap_i8_id(o@.1);
}

/// Law: three rotations either way equal the wrapping negation.
pub proof fn lemma_three_rotations_negate(o: CoordOrientation)
    ensures
        spec_cw(spec_cw(spec_cw(o@))) == spec_neg(o@),
        spec_ccw(spec_ccw(spec_ccw(o@))) == spec_neg(o@),
{
    lemma_cw_cubed(o@);
    lemma_ccw_cubed(o@);
}

} // verus!
