//! Machine-integer remainder and quotient, stated over mathematical integers.
//!
//! Rust's `%` and `/` on signed integers truncate toward zero; the spec
//! functions here describe exactly that behaviour so that the contracts of the
//! ciphers can be written over `int`.
use vstd::prelude::*;

verus! {

/// Absolute value of a mathematical integer.
pub open spec fn abs(x: int) -> int {
    if x >= 0 { x } else { -x }
}

/// Whether a mathematical integer fits in an `i32`.
pub open spec fn in_i32(x: int) -> bool {
    i32::MIN <= x <= i32::MAX
}

/// Remainder of the truncating division `x / d` (the sign follows `x`).
pub open spec fn rem_t(x: int, d: int) -> int {
    if x >= 0 { x % abs(d) } else { -((-x) % abs(d)) }
}

/// Quotient of the division `x / d`, rounded toward zero.
pub open spec fn div_t(x: int, d: int) -> int {
    if (x >= 0) == (d > 0) || x == 0 { abs(x) / abs(d) } else { -(abs(x) / abs(d)) }
}

/// Whether `x % d` can be evaluated on `i32` without a panic.
pub open spec fn rem_defined(x: i32, d: i32) -> bool {
    d != 0 && !(x == i32::MIN && d == -1)
}

/// `x % d` on `i32`.
pub fn rem_i32(x: i32, d: i32) -> (r: i32)
    requires
        rem_defined(x, d),
    ensures
        r == rem_t(x as int, d as int),
{
    match x.checked_rem(d) {
        Some(r) => r,
        None => 0,
    }
}

/// `x / d` on `i32`.
pub fn div_i32(x: i32, d: i32) -> (q: i32)
    requires
        rem_defined(x, d),
    ensures
        q == div_t(x as int, d as int),
{
    proof {
        let ax = abs(x as int);
        let ad = abs(d as int);
        assert(0 <= ax / ad <= ax) by (nonlinear_arith)
            requires ax >= 0, ad >= 1;
        if ad >= 2 {
            assert(ax / ad <= ax / 2) by (nonlinear_arith)
                requires ax >= 0, ad >= 2;
        } else {
            assert(ad == 1);
            vstd::arithmetic::div_mod::lemma_div_basics(ax);
        }
    }
    match x.checked_div(d) {
        Some(q) => q,
        None => 0,
    }
}

/// The truncating remainder is smaller in magnitude than the divisor and
/// carries the sign of the dividend.
pub proof fn lemma_rem_t_bounds(x: int, d: int)
    requires
        d != 0,
    ensures
        abs(rem_t(x, d)) < abs(d),
        x >= 0 ==> 0 <= rem_t(x, d),
        x < 0 ==> rem_t(x, d) <= 0,
{
}

/// Division identity for the truncating quotient and remainder.
pub proof fn lemma_div_rem_t(x: int, d: int)
    requires
        d != 0,
    ensures
        x == div_t(x, d) * d + rem_t(x, d),
{
    let ax = abs(x);
    let ad = abs(d);
    vstd::arithmetic::div_mod::lemma_fundamental_div_mod(ax, ad);
    if x >= 0 && d > 0 {
    } else if x >= 0 && d < 0 {
        if x == 0 {
            assert(ax / ad == 0);
        } else {
            assert(-(ax / ad) * d == (ax / ad) * ad) by (nonlinear_arith)
                requires d < 0, ad == -d;
        }
    } else if x < 0 && d < 0 {
        assert((ax / ad) * d == -((ax / ad) * ad)) by (nonlinear_arith)
            requires d < 0, ad == -d;
    } else {
        assert(-(ax / ad) * d == -((ax / ad) * ad)) by (nonlinear_arith)
            requires d > 0, ad == d;
    }
}

/// `x` and its truncating remainder modulo `d` differ by a multiple of `d`.
pub proof fn lemma_rem_t_congruent(x: int, d: int)
    requires
        d > 0,
    ensures
        (x - rem_t(x, d)) % d == 0,
{
    lemma_div_rem_t(x, d);
    vstd::arithmetic::div_mod::lemma_mod_multiples_basic(div_t(x, d), d);
}

} // verus!
