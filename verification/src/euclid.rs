//! Euclid's algorithm, the extended algorithm and the modular inverse it
//! yields, on `i32` with Rust's truncating `%` and `/`.
use vstd::prelude::*;
use crate::arith::{abs, div_t, in_i32, lemma_div_rem_t, lemma_rem_t_bounds, lemma_rem_t_congruent, rem_defined, rem_i32, div_i32, rem_t};

verus! {

/// Euclid's recursion `gcd(a, 0) = a`, `gcd(a, b) = gcd(b, a % b)` with the
/// truncating remainder. For non-negative arguments this is the greatest
/// common divisor (see [`lemma_gcd_divides`] and [`lemma_gcd_greatest`]).
pub open spec fn gcd_t(a: int, b: int) -> int
    decreases abs(b),
{
    if b == 0 {
        a
    } else {
        proof {
            lemma_rem_t_bounds(a, b);
        }
        gcd_t(b, rem_t(a, b))
    }
}

/// The inputs on which Euclid's recursion runs on `i32` without a panic
/// (it only fails on `i32::MIN % -1`).
pub open spec fn euclid_ok(a: i32, b: i32) -> bool
    decreases abs(b as int),
{
    if b == 0 {
        true
    } else {
        proof {
            lemma_rem_t_bounds(a as int, b as int);
        }
        rem_defined(a, b) && euclid_ok(b, rem_t(a as int, b as int) as i32)
    }
}

/// Greatest common divisor by Euclid's algorithm.
pub fn euclid(a: i32, b: i32) -> (d: i32)
    requires
        euclid_ok(a, b),
    ensures
        d == gcd_t(a as int, b as int),
    decreases abs(b as int),
{
    if b == 0 {
        a
    } else {
        proof {
            lemma_rem_t_bounds(a as int, b as int);
        }
        let r = rem_i32(a, b);
        euclid(b, r)
    }
}

/// The larger of two values, and the smaller.
pub open spec fn ordered(n_length: int, alpha: int) -> (int, int) {
    if n_length > alpha { (n_length, alpha) } else { (alpha, n_length) }
}

/// Whether `n_length` and `alpha` are coprime: Euclid's algorithm on the larger
/// and the smaller of the two gives `1`.
pub fn euclid_valid(n_length: i32, alpha: i32) -> (valid: bool)
    requires
        n_length > alpha ==> euclid_ok(n_length, alpha),
        n_length <= alpha ==> euclid_ok(alpha, n_length),
    ensures
        valid == (gcd_t(ordered(n_length as int, alpha as int).0, ordered(n_length as int, alpha as int).1) == 1),
{
    let a = if n_length > alpha { n_length } else { alpha };
    let b = if n_length > alpha { alpha } else { n_length };
    let mcd: i32 = euclid(a, b);
    if mcd == 1 {
        return true;
    }
    false
}

/// Extended Euclid: `(d, x, y)` with `d = gcd_t(a, b)` and `a*x + b*y = d`.
pub open spec fn xgcd_spec(a: int, b: int) -> (int, int, int)
    decreases abs(b),
{
    if b == 0 {
        (a, 1, 0)
    } else {
        proof {
            lemma_rem_t_bounds(a, b);
        }
        let r = xgcd_spec(b, rem_t(a, b));
        (r.0, r.2, r.1 - r.2 * div_t(a, b))
    }
}

/// The inputs on which the extended algorithm runs on `i32` without a panic:
/// each remainder and quotient is defined, and the new coefficient
/// `x1 - y1 * q` and the check `a*x + b*y` of every step stay in `i32`.
pub open spec fn xgcd_ok(a: i32, b: i32) -> bool
    decreases abs(b as int),
{
    if b == 0 {
        true
    } else {
        proof {
            lemma_rem_t_bounds(a as int, b as int);
        }
        let r = rem_t(a as int, b as int);
        let q = div_t(a as int, b as int);
        let inner = xgcd_spec(b as int, r);
        let x = inner.2;
        let y = inner.1 - inner.2 * q;
        &&& rem_defined(a, b)
        &&& xgcd_ok(b, r as i32)
        &&& in_i32(inner.2 * q)
        &&& in_i32(y)
        &&& in_i32(a * x)
        &&& in_i32(b * y)
        &&& in_i32(a * x + b * y)
    }
}

/// Bézout's identity for the extended algorithm, and its first component is
/// Euclid's `gcd_t`.
pub proof fn lemma_bezout(a: int, b: int)
    ensures
        xgcd_spec(a, b).0 == gcd_t(a, b),
        a * xgcd_spec(a, b).1 + b * xgcd_spec(a, b).2 == xgcd_spec(a, b).0,
    decreases abs(b),
{
    if b != 0 {
        lemma_rem_t_bounds(a, b);
        let r = rem_t(a, b);
        let q = div_t(a, b);
        lemma_bezout(b, r);
        lemma_div_rem_t(a, b);
        let inner = xgcd_spec(b, r);
        let x1 = inner.1;
        let y1 = inner.2;
        assert(a * y1 + b * (x1 - y1 * q) == b * x1 + r * y1) by (nonlinear_arith)
            requires a == q * b + r;
    }
}

/// Extended Euclid: returns `(d, x, y)` with `d = gcd(a, b)` and `a*x + b*y = d`.
pub fn xgcd_rec(a: i32, b: i32) -> (res: (i32, i32, i32))
    requires
        xgcd_ok(a, b),
    ensures
        (res.0 as int, res.1 as int, res.2 as int) == xgcd_spec(a as int, b as int),
        res.0 == gcd_t(a as int, b as int),
        a * res.1 + b * res.2 == res.0,
    decreases abs(b as int),
{
    proof {
        lemma_bezout(a as int, b as int);
    }
    if b == 0 {
        return (a, 1, 0);
    }
    proof {
        lemma_rem_t_bounds(a as int, b as int);
    }
    let r = rem_i32(a, b);
    let (d, x1, y1) = xgcd_rec(b, r);
    let q = div_i32(a, b);
    let x = y1;
    let y = x1 - y1 * q;
    (d, x, y)
}

/// The value [`euclid_extended`] returns.
pub open spec fn euclid_extended_spec(n_length: int, alpha: int) -> int {
    let (a, b) = ordered(n_length, alpha);
    let (d, x, y) = xgcd_spec(a, b);
    let out = if x * alpha + y * n_length == d { x } else { y };
    if out > 0 { out } else { rem_t(out, n_length) }
}

/// The inputs on which [`euclid_extended`] runs on `i32` without a panic.
pub open spec fn euclid_extended_ok(n_length: i32, alpha: i32) -> bool {
    let (a, b) = ordered(n_length as int, alpha as int);
    let (d, x, y) = xgcd_spec(a, b);
    let out = if x * alpha + y * n_length == d { x } else { y };
    &&& xgcd_ok(a as i32, b as i32)
    &&& in_i32(x * alpha)
    &&& in_i32(y * n_length)
    &&& in_i32(x * alpha + y * n_length)
    &&& out <= 0 ==> rem_defined(out as i32, n_length)
}

/// Inverse of `alpha` modulo `n_length` from the Bézout coefficients of the
/// larger and the smaller of the two (see [`lemma_euclid_extended_inverse`]).
/// A non-positive coefficient is reduced with the truncating `%`, so the
/// result may be negative.
pub fn euclid_extended(n_length: i32, alpha: i32) -> (inv: i32)
    requires
        euclid_extended_ok(n_length, alpha),
    ensures
        inv == euclid_extended_spec(n_length as int, alpha as int),
{
    let a = if n_length > alpha { n_length } else { alpha };
    let b = if n_length > alpha { alpha } else { n_length };
    let (d, x, y) = xgcd_rec(a, b);
    let out: i32;
    if x * alpha + y * n_length == d {
        out = x;
    } else {
        out = y;
    }
    if out > 0 {
        out
    } else {
        rem_i32(out, n_length)
    }
}

// ---------------------------------------------------------------------------
// Laws
// ---------------------------------------------------------------------------

/// For non-negative arguments Euclid's `gcd_t` is non-negative and divides
/// both arguments.
pub proof fn lemma_gcd_divides(a: int, b: int)
    requires
        a >= 0,
        b >= 0,
    ensures
        gcd_t(a, b) >= 0,
        gcd_t(a, b) > 0 ==> a % gcd_t(a, b) == 0 && b % gcd_t(a, b) == 0,
        gcd_t(a, b) == 0 ==> a == 0 && b == 0,
    decreases b,
{
    if b == 0 {
        if a > 0 {
            vstd::arithmetic::div_mod::lemma_mod_self_0(a);
            vstd::arithmetic::div_mod::lemma_small_mod(0nat, a as nat);
        }
    } else {
        let r = a % b;
        assert(rem_t(a, b) == r);
        lemma_gcd_divides(b, r);
        let g = gcd_t(a, b);
        assert(g == gcd_t(b, r));
        if g > 0 {
            vstd::arithmetic::div_mod::lemma_fundamental_div_mod(a, b);
            // a = b * (a / b) + r, with g dividing b and r
            let qb = b / g;
            let qr = r / g;
            vstd::arithmetic::div_mod::lemma_fundamental_div_mod(b, g);
            vstd::arithmetic::div_mod::lemma_fundamental_div_mod(r, g);
            assert(a == g * (qb * (a / b) + qr)) by (nonlinear_arith)
                requires a == b * (a / b) + r, b == g * qb, r == g * qr;
            vstd::arithmetic::div_mod::lemma_mod_multiples_basic(qb * (a / b) + qr, g);
            assert(g * (qb * (a / b) + qr) == (qb * (a / b) + qr) * g) by (nonlinear_arith);
        } else {
            assert(b == 0);
        }
    }
}

/// Every positive common divisor of non-negative `a` and `b` divides `gcd_t(a, b)`.
pub proof fn lemma_gcd_greatest(a: int, b: int, c: int)
    requires
        a >= 0,
        b >= 0,
        c > 0,
        a % c == 0,
        b % c == 0,
    ensures
        gcd_t(a, b) % c == 0,
    decreases b,
{
    if b != 0 {
        let r = a % b;
        assert(rem_t(a, b) == r);
        vstd::arithmetic::div_mod::lemma_fundamental_div_mod(a, b);
        vstd::arithmetic::div_mod::lemma_fundamental_div_mod(a, c);
        vstd::arithmetic::div_mod::lemma_fundamental_div_mod(b, c);
        let qa = a / c;
        let qb = b / c;
        assert(r == c * (qa - qb * (a / b))) by (nonlinear_arith)
            requires a == b * (a / b) + r, a == c * qa, b == c * qb;
        vstd::arithmetic::div_mod::lemma_mod_multiples_basic(qa - qb * (a / b), c);
        assert(c * (qa - qb * (a / b)) == (qa - qb * (a / b)) * c) by (nonlinear_arith);
        lemma_gcd_greatest(b, r, c);
    }
}

/// For positive arguments, [`euclid_valid`] answers whether the two numbers
/// are coprime: it holds exactly when `1` is their only positive common divisor.
pub proof fn lemma_euclid_valid_coprime(n_length: int, alpha: int)
    requires
        n_length > 0,
        alpha > 0,
    ensures
        (gcd_t(ordered(n_length, alpha).0, ordered(n_length, alpha).1) == 1) <==> (forall|c: int|
            c > 1 ==> !(#[trigger] (n_length % c) == 0 && alpha % c == 0)),
{
    let (a, b) = ordered(n_length, alpha);
    lemma_gcd_divides(a, b);
    let g = gcd_t(a, b);
    if g == 1 {
        assert forall|c: int| c > 1 implies !(#[trigger] (n_length % c) == 0 && alpha % c == 0) by {
            if n_length % c == 0 && alpha % c == 0 {
                lemma_gcd_greatest(a, b, c);
                vstd::arithmetic::div_mod::lemma_small_mod(1nat, c as nat);
            }
        }
    } else {
        assert(g > 1);
        assert(n_length % g == 0 && alpha % g == 0);
    }
}

/// [`euclid_extended`] returns an inverse of `alpha` modulo `n_length` when
/// both are positive and coprime: `inv * alpha ≡ 1 (mod n_length)`.
pub proof fn lemma_euclid_extended_inverse(n_length: int, alpha: int)
    requires
        n_length > 0,
        alpha > 0,
        gcd_t(ordered(n_length, alpha).0, ordered(n_length, alpha).1) == 1,
    ensures
        (euclid_extended_spec(n_length, alpha) * alpha - 1) % n_length == 0,
{
    let (a, b) = ordered(n_length, alpha);
    lemma_bezout(a, b);
    let (d, x, y) = xgcd_spec(a, b);
    assert(d == 1);
    let out = if x * alpha + y * n_length == d { x } else { y };
    // in either branch out * alpha + k * n_length == 1 for some k
    let k = if x * alpha + y * n_length == d { y } else { x };
    assert(out * alpha + k * n_length == 1) by (nonlinear_arith)
        requires
            a * x + b * y == 1,
            (a == n_length && b == alpha) || (a == alpha && b == n_length),
            out == (if x * alpha + y * n_length == 1 { x } else { y }),
            k == (if x * alpha + y * n_length == 1 { y } else { x }),
            n_length != alpha || a == alpha;
    // (out * alpha - 1) is a multiple of n_length
    assert(out * alpha - 1 == (-k) * n_length) by (nonlinear_arith)
        requires out * alpha + k * n_length == 1;
    vstd::arithmetic::div_mod::lemma_mod_multiples_basic(-k, n_length);
    let res = euclid_extended_spec(n_length, alpha);
    if out <= 0 {
        lemma_rem_t_congruent(out, n_length);
        let r = rem_t(out, n_length);
        assert(res == r);
        // r * alpha - 1 == (out * alpha - 1) - (out - r) * alpha
        vstd::arithmetic::div_mod::lemma_fundamental_div_mod(out - r, n_length);
        let j = (out - r) / n_length;
        assert(r * alpha - 1 == (-k - j * alpha) * n_length) by (nonlinear_arith)
            requires out * alpha - 1 == (-k) * n_length, out - r == n_length * j;
        vstd::arithmetic::div_mod::lemma_mod_multiples_basic(-k - j * alpha, n_length);
    }
}

} // verus!
