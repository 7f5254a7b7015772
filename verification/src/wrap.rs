//! Two's-complement wraparound arithmetic, modelled as modular arithmetic
//! over a ring of size 256 per axis.
//!
//! Every coordinate operation in this crate is total: arithmetic that leaves
//! the 8-bit domain wraps around instead of failing.  The spec functions here
//! give that wraparound a mathematical reading, and the lemmas let proofs move
//! wraps in and out of sums, negations and products.

use vstd::prelude::*;

verus! {

use vstd::arithmetic::div_mod::{
    lemma_fundamental_div_mod,
    lemma_mod_bound,
    lemma_mod_equivalence,
    lemma_mod_multiples_basic,
    lemma_mod_sub_multiples_vanish,
    lemma_small_mod,
};
use vstd::wrapping::{i8_specs, u8_specs};

/// The unique value in `[-128, 127]` congruent to `v` modulo 256.
pub open spec fn wrap_i8(v: int) -> int {
    ((v + 128) % 256) - 128
}

/// The unique value in `[0, 255]` congruent to `v` modulo 256.
pub open spec fn wrap_u8(v: int) -> int {
    v % 256
}

pub proof fn lemma_wrap_i8_bounds(v: int)
    ensures
        -128 <= wrap_i8(v) <= 127,
{
    lemma_mod_bound(v + 128, 256);
}

/// Wrapping is the identity on values already in range.
pub proof fn lemma_wrap_i8_id(v: int)
    requires
        -128 <= v <= 127,
    ensures
        wrap_i8(v) == v,
{
    lemma_small_mod((v + 128) as nat, 256);
}

pub proof fn lemma_wrap_u8_id(v: int)
    requires
        0 <= v <= 255,
    ensures
        wrap_u8(v) == v,
{
    lemma_small_mod(v as nat, 256);
}

/// A wrapped value differs from the original by a multiple of 256.
pub proof fn lemma_wrap_i8_congruent(v: int)
    ensures
        (wrap_i8(v) - v) % 256 == 0,
{
    lemma_fundamental_div_mod(v + 128, 256);
    let q = (v + 128) / 256;
    assert(wrap_i8(v) - v == (-q) * 256);
    lemma_mod_multiples_basic(-q, 256);
}

pub proof fn lemma_wrap_u8_congruent(v: int)
    ensures
        (wrap_u8(v) - v) % 256 == 0,
{
    lemma_fundamental_div_mod(v, 256);
    let q = v / 256;
    assert(wrap_u8(v) - v == (-q) * 256);
    lemma_mod_multiples_basic(-q, 256);
}

/// Values congruent modulo 256 wrap to the same representative.
pub proof fn lemma_wrap_i8_equal(a: int, b: int)
    requires
        (a - b) % 256 == 0,
    ensures
        wrap_i8(a) == wrap_i8(b),
{
    lemma_mod_equivalence(a + 128, b + 128, 256);
}

pub proof fn lemma_wrap_u8_equal(a: int, b: int)
    requires
        (a - b) % 256 == 0,
    ensures
        wrap_u8(a) == wrap_u8(b),
{
    lemma_mod_equivalence(a, b, 256);
}

/// Inside an outer wrap, a wrapped summand can be replaced by the plain
/// value, whichever sign it carries.
pub proof fn lemma_wrap_i8_drop(a: int, c: int)
    ensures
        wrap_i8(c + wrap_i8(a)) == wrap_i8(c + a),
        wrap_i8(c - wrap_i8(a)) == wrap_i8(c - a),
{
    lemma_wrap_i8_congruent(a);
    let d = wrap_i8(a) - a;
    lemma_fundamental_div_mod(d, 256);
    let k = d / 256;
    assert((c + wrap_i8(a)) - (c + a) == k * 256);
    assert((c - wrap_i8(a)) - (c - a) == (-k) * 256);
    lemma_mod_multiples_basic(k, 256);
    lemma_mod_multiples_basic(-k, 256);
    lemma_wrap_i8_equal(c + wrap_i8(a), c + a);
    lemma_wrap_i8_equal(c - wrap_i8(a), c - a);
}

/// The same, when the summand was wrapped into the unsigned range.
pub proof fn lemma_wrap_i8_drop_u8(a: int, c: int)
    ensures
        wrap_i8(c + wrap_u8(a)) == wrap_i8(c + a),
        wrap_i8(c - wrap_u8(a)) == wrap_i8(c - a),
{
    lemma_wrap_u8_congruent(a);
    let d = wrap_u8(a) - a;
    lemma_fundamental_div_mod(d, 256);
    let k = d / 256;
    assert((c + wrap_u8(a)) - (c + a) == k * 256);
    assert((c - wrap_u8(a)) - (c - a) == (-k) * 256);
    lemma_mod_multiples_basic(k, 256);
    lemma_mod_multiples_basic(-k, 256);
    lemma_wrap_i8_equal(c + wrap_u8(a), c + a);
    lemma_wrap_i8_equal(c - wrap_u8(a), c - a);
}

/// The unsigned counterpart: under an unsigned wrap, inner wraps of either
/// signedness can be dropped.
pub proof fn lemma_wrap_u8_drop_i8(a: int, c: int)
    ensures
        wrap_u8(c + wrap_i8(a)) == wrap_u8(c + a),
        wrap_u8(c - wrap_i8(a)) == wrap_u8(c - a),
{
    lemma_wrap_i8_congruent(a);
    let d = wrap_i8(a) - a;
    lemma_fundamental_div_mod(d, 256);
    let k = d / 256;
    assert((c + wrap_i8(a)) - (c + a) == k * 256);
    assert((c - wrap_i8(a)) - (c - a) == (-k) * 256);
    lemma_mod_multiples_basic(k, 256);
    lemma_mod_multiples_basic(-k, 256);
    lemma_wrap_u8_equal(c + wrap_i8(a), c + a);
    lemma_wrap_u8_equal(c - wrap_i8(a), c - a);
}

/// What `i8::wrapping_add` returns, read as a wrap of the exact sum.
pub proof fn lemma_wrapping_add_i8(x: i8, y: i8)
    ensures
        i8_specs::wrapping_add(x, y) as int == wrap_i8(x + y),
{
    lemma_mod_multiples_basic(1, 256);
    lemma_mod_multiples_basic(-1, 256);
    if x + y > i8::MAX {
        lemma_wrap_i8_id(x + y - 256);
        lemma_wrap_i8_equal(x + y, x + y - 256);
    } else if x + y < i8::MIN {
        lemma_wrap_i8_id(x + y + 256);
        lemma_wrap_i8_equal(x + y, x + y + 256);
    } else {
        lemma_wrap_i8_id(x + y);
    }
}

/// What `i8::wrapping_sub` returns, read as a wrap of the exact difference.
pub proof fn lemma_wrapping_sub_i8(x: i8, y: i8)
    ensures
        i8_specs::wrapping_sub(x, y) as int == wrap_i8(x - y),
{
    lemma_mod_multiples_basic(1, 256);
    lemma_mod_multiples_basic(-1, 256);
    if x - y > i8::MAX {
        lemma_wrap_i8_id(x - y - 256);
        lemma_wrap_i8_equal(x - y, x - y - 256);
    } else if x - y < i8::MIN {
        lemma_wrap_i8_id(x - y + 256);
        lemma_wrap_i8_equal(x - y, x - y + 256);
    } else {
        lemma_wrap_i8_id(x - y);
    }
}

/// What `i8::wrapping_mul` returns, read as a wrap of the exact product.
pub proof fn lemma_wrapping_mul_i8(x: i8, y: i8)
    ensures
        i8_specs::wrapping_mul(x, y) as int == wrap_i8(x * y),
{
    let v = (x * y) as int;
    let m = v % 256;
    lemma_mod_bound(v, 256);
    lemma_wrap_u8_congruent(v);
    lemma_mod_sub_multiples_vanish(m - v, 256);
    if m <= 127 {
        lemma_wrap_i8_id(m);
        lemma_wrap_i8_equal(m, v);
    } else {
        lemma_wrap_i8_id(m - 256);
        lemma_wrap_i8_equal(m - 256, v);
    }
}

/// What `u8::wrapping_add_signed` returns, read as a wrap of the exact sum.
pub proof fn lemma_wrapping_add_signed_u8(x: u8, y: i8)
    ensures
        u8_specs::wrapping_add_signed(x, y) as int == wrap_u8(x + y),
{
    lemma_mod_multiples_basic(1, 256);
    lemma_mod_multiples_basic(-1, 256);
    if x + y > u8::MAX {
        lemma_wrap_u8_id(x + y - 256);
        lemma_wrap_u8_equal(x + y, x + y - 256);
    } else if x + y < 0 {
        lemma_wrap_u8_id(x + y + 256);
        lemma_wrap_u8_equal(x + y, x + y + 256);
    } else {
        lemma_wrap_u8_id(x + y);
    }
}

/// What `u8::wrapping_sub` returns, read as a wrap of the exact difference.
pub proof fn lemma_wrapping_sub_u8(x: u8, y: u8)
    ensures
        u8_specs::wrapping_sub(x, y) as int == wrap_u8(x - y),
{
    lemma_mod_multiples_basic(-1, 256);
    if x - y < 0 {
        lemma_wrap_u8_id(x - y + 256);
        lemma_wrap_u8_equal(x - y, x - y + 256);
    } else {
        lemma_wrap_u8_id(x - y);
    }
}

/// Reinterpret the bits of a `u8` as an `i8`.
pub(crate) fn bits_to_signed(v: u8) -> (r: i8)
    ensures
        r as int == wrap_i8(v as int),
{
    proof {
        lemma_mod_multiples_basic(1, 256);
        if v < 128 {
            lemma_wrap_i8_id(v as int);
        } else {
            lemma_wrap_i8_id(v - 256);
            lemma_wrap_i8_equal(v as int, v - 256);
        }
    }
    if v >= 128 {
        (v as i16 - 256) as i8
    } else {
        v as i8
    }
}

/// The absolute value of an `i8`, total even at the minimum value.
pub(crate) fn abs_i8(v: i8) -> (r: u8)
    ensures
        r as int == vstd::math::abs(v as int),
{
    let wide: i16 = v as i16;
    if wide < 0 {
        (-wide) as u8
    } else {
        wide as u8
    }
}

/// The larger of two bytes.
pub(crate) fn max_u8(a: u8, b: u8) -> (r: u8)
    ensures
        r as int == vstd::math::max(a as int, b as int),
{
    if a >= b {
        a
    } else {
        b
    }
}

} // verus!
