//! Fixed-point units shared by every module, with the integer helpers that
//! convert between them.

use vstd::prelude::*;

verus! {

/// Sub-units of world position per tile.
pub const SUB: i64 = 1_000_000;

/// Largest magnitude of a world position: that of tile `i32::MIN`.
pub const POS_LIMIT: i64 = 2_147_483_648_000_000;

/// Microseconds per second.
pub const MICROS: u64 = 1_000_000;

/// Division rounding towards zero, as Rust's `/` and `as` casts do.
pub open spec fn trunc_div(a: int, b: int) -> int {
    if a >= 0 {
        a / b
    } else {
        -((-a) / b)
    }
}

/// The tile coordinate that holds a world position (rounding towards zero).
pub open spec fn tile_of(p: int) -> int {
    trunc_div(p, SUB as int)
}

/// A value clamped into the range of world positions.
pub open spec fn clamp_pos(v: int) -> int {
    if v > POS_LIMIT {
        POS_LIMIT as int
    } else if v < -POS_LIMIT {
        -POS_LIMIT
    } else {
        v
    }
}

/// Absolute value.
pub open spec fn abs(v: int) -> int {
    if v < 0 {
        -v
    } else {
        v
    }
}

/// Dividing by a positive number never grows a magnitude.
pub proof fn lemma_div_shrinks(n: int, e: int)
    requires
        e >= 1,
    ensures
        -abs(n) <= n / e <= abs(n),
{
    let q = n / e;
    let r = n % e;
    vstd::arithmetic::div_mod::lemma_fundamental_div_mod(n, e);
    assert(0 <= r < e);
    if n >= 0 {
        assert(0 <= q <= n) by (nonlinear_arith)
            requires n == e * q + r, 0 <= r < e, e >= 1, n >= 0;
    } else {
        assert(n <= q < 0) by (nonlinear_arith)
            requires n == e * q + r, 0 <= r < e, e >= 1, n < 0;
    }
}

/// A quotient is bounded by the bound of the dividend over the divisor.
pub proof fn lemma_div_bound(n: int, d: int, b: int)
    requires
        d > 0,
        b >= 0,
        -(b * d) <= n <= b * d,
    ensures
        -b <= n / d <= b,
{
    vstd::arithmetic::div_mod::lemma_div_is_ordered(n, b * d, d);
    vstd::arithmetic::div_mod::lemma_div_is_ordered(-(b * d), n, d);
    assert(b * d == d * b) by (nonlinear_arith);
    assert(-(b * d) == d * (-b)) by (nonlinear_arith);
    vstd::arithmetic::div_mod::lemma_fundamental_div_mod_converse(b * d, d, b, 0);
    vstd::arithmetic::div_mod::lemma_fundamental_div_mod_converse(-(b * d), d, -b, 0);
}

/// Floor division of `a` by a positive `b`.
pub fn floor_div(a: i128, b: i128) -> (r: i128)
    requires
        b > 0,
        a > i128::MIN,
    ensures
        r == a / b,
{
    if a >= 0 {
        a / b
    } else {
        let q = (-a - 1) / b;
        proof {
            let na: int = -a - 1;
            let bb: int = b as int;
            let qq: int = na / bb;
            let rr: int = na % bb;
            assert(na == bb * qq + rr) by (nonlinear_arith)
                requires bb > 0, na >= 0, qq == na / bb, rr == na % bb;
            assert(0 <= rr < bb);
            assert(a as int == bb * (-qq - 1) + (bb - 1 - rr)) by (nonlinear_arith)
                requires na == bb * qq + rr, na == -a - 1;
            vstd::arithmetic::div_mod::lemma_fundamental_div_mod_converse(
                a as int, bb, -qq - 1, bb - 1 - rr);
        }
        -q - 1
    }
}

/// Division of `a` by a positive `b`, rounding towards zero.
pub fn trunc_div_exec(a: i128, b: i128) -> (r: i128)
    requires
        b > 0,
        a > i128::MIN,
    ensures
        r == trunc_div(a as int, b as int),
{
    if a >= 0 {
        a / b
    } else {
        -((-a) / b)
    }
}

/// A position clamped into `[-POS_LIMIT, POS_LIMIT]`.
pub fn clamp_to_world(v: i128) -> (r: i64)
    ensures
        r == clamp_pos(v as int),
{
    if v > POS_LIMIT as i128 {
        POS_LIMIT
    } else if v < -(POS_LIMIT as i128) {
        -POS_LIMIT
    } else {
        v as i64
    }
}

} // verus!
