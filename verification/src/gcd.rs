//! Greatest-common-divisor theory used to keep durations in lowest terms:
//! a specification of `gcd` by Euclid's recurrence, the lemmas needed to
//! reason about reduced fractions (a reduced representative is unique), and
//! an executable Euclidean algorithm.

use vstd::arithmetic::div_mod::{
    lemma_fundamental_div_mod, lemma_fundamental_div_mod_converse_mod, lemma_small_mod,
};
use vstd::prelude::*;

verus! {

/// `d` divides `n` exactly.
pub open spec fn divides(d: nat, n: nat) -> bool {
    exists|k: nat| n == #[trigger] (k * d)
}

/// Greatest common divisor, by Euclid's recurrence.
pub open spec fn gcd(a: nat, b: nat) -> nat
    decreases b,
{
    if b == 0 {
        a
    } else {
        gcd(b, a % b)
    }
}

/// The gcd of two numbers, at least one of them positive, is positive.
pub proof fn lemma_gcd_pos(a: nat, b: nat)
    requires
        a > 0 || b > 0,
    ensures
        gcd(a, b) > 0,
    decreases b,
{
    if b > 0 {
        lemma_gcd_pos(b, a % b);
    }
}

/// The gcd of `a` and `b` divides both `a` and `b`.
pub proof fn lemma_gcd_divides(a: nat, b: nat)
    ensures
        divides(gcd(a, b), a),
        divides(gcd(a, b), b),
    decreases b,
{
    if b == 0 {
        assert(a == 1 * a);
        assert(0 == 0 * a);
    } else {
        lemma_gcd_divides(b, a % b);
        let g = gcd(b, a % b);
        let kb = choose|k: nat| b == #[trigger] (k * g);
        let kr = choose|k: nat| a % b == #[trigger] (k * g);
        lemma_fundamental_div_mod(a as int, b as int);
        vstd::arithmetic::div_mod::lemma_div_pos_is_pos(a as int, b as int);
        let qn = (a as int / b as int) as nat;
        assert(a == b * qn + a % b);
        assert(b * qn + a % b == (kb * qn + kr) * g) by (nonlinear_arith)
            requires b == kb * g && a % b == kr * g;
        assert(a == (kb * qn + kr) * g);
    }
}

/// Scaling both arguments of `gcd` scales the result:
/// `gcd(k*a, k*b) == k * gcd(a, b)`.
pub proof fn lemma_gcd_scale(k: nat, a: nat, b: nat)
    requires
        k > 0,
    ensures
        gcd(k * a, k * b) == k * gcd(a, b),
    decreases b,
{
    if b == 0 {
        assert(k * b == 0) by (nonlinear_arith)
            requires b == 0;
    } else {
        assert(k * b > 0) by (nonlinear_arith)
            requires k > 0 && b > 0;
        // (k*a) % (k*b) == k * (a % b)
        lemma_fundamental_div_mod(a as int, b as int);
        let q = a as int / b as int;
        let r = a % b;
        assert(k * a == q * (k * b) + k * r) by (nonlinear_arith)
            requires a == b * q + r;
        assert(k * r < k * b) by (nonlinear_arith)
            requires k > 0 && r < b;
        lemma_fundamental_div_mod_converse_mod(
            (k * a) as int,
            (k * b) as int,
            q,
            (k * r) as int,
        );
        assert((k * a) % (k * b) == k * (a % b));
        lemma_gcd_scale(k, b, a % b);
    }
}

/// Dividing a multiple by the factor recovers the multiplier:
/// if `n == k * d` and `d > 0` then `n / d == k` and `n == (n / d) * d`.
pub proof fn lemma_div_exact(d: nat, n: nat)
    requires
        divides(d, n),
        d > 0,
    ensures
        n == (n / d) * d,
        divides(n / d, n),
{
    let k = choose|k: nat| n == #[trigger] (k * d);
    assert(n == k * d + 0);
    vstd::arithmetic::div_mod::lemma_fundamental_div_mod_converse_div(
        n as int,
        d as int,
        k as int,
        0,
    );
    assert(n / d == k);
    assert(n == d * (n / d)) by (nonlinear_arith)
        requires n == (n / d) * d;
}

/// Dividing two numbers by their gcd leaves them coprime.
pub proof fn lemma_gcd_quotients_coprime(a: nat, b: nat)
    requires
        b > 0,
    ensures
        gcd(a / gcd(a, b), b / gcd(a, b)) == 1,
        a == (a / gcd(a, b)) * gcd(a, b),
        b == (b / gcd(a, b)) * gcd(a, b),
    decreases b,
{
    let g = gcd(a, b);
    lemma_gcd_pos(a, b);
    lemma_gcd_divides(a, b);
    lemma_div_exact(g, a);
    lemma_div_exact(g, b);
    let qa = a / g;
    let qb = b / g;
    lemma_gcd_scale(g, qa, qb);
    assert(g * qa == a && g * qb == b) by (nonlinear_arith)
        requires a == qa * g && b == qb * g;
    assert(gcd(a, b) == g * gcd(qa, qb));
    assert(g == g * gcd(qa, qb));
    assert(gcd(qa, qb) == 1) by (nonlinear_arith)
        requires g > 0 && g == g * gcd(qa, qb);
}

/// A rational number has a unique reduced representative: if `a/b` and
/// `c/d` denote the same rational (`a*d == c*b`), both fractions are in
/// lowest terms, and both denominators are positive, the two pairs are
/// identical.
pub proof fn lemma_unique_reduced(a: nat, b: nat, c: nat, d: nat)
    requires
        b > 0,
        d > 0,
        gcd(a, b) == 1,
        gcd(c, d) == 1,
        a * d == c * b,
    ensures
        a == c,
        b == d,
{
    lemma_gcd_scale(d, a, b);
    assert(gcd(d * a, d * b) == d * gcd(a, b));
    lemma_gcd_scale(b, c, d);
    assert(gcd(b * c, b * d) == b * gcd(c, d));
    assert(d * a == b * c && d * b == b * d) by (nonlinear_arith)
        requires a * d == c * b;
    assert(d * gcd(a, b) == d && b * gcd(c, d) == b) by (nonlinear_arith)
        requires gcd(a, b) == 1 && gcd(c, d) == 1;
    assert(b == d);
    assert(a == c) by (nonlinear_arith)
        requires a * d == c * b && b == d && d > 0;
}

/// Euclid's algorithm.
pub fn gcd_u64(a: u64, b: u64) -> (g: u64)
    ensures
        g == gcd(a as nat, b as nat),
{
    let mut x = a;
    let mut y = b;
    while y != 0
        invariant
            gcd(x as nat, y as nat) == gcd(a as nat, b as nat),
        decreases y,
    {
        let r = x % y;
        x = y;
        y = r;
    }
    x
}

} // verus!
