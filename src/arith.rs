//! Greatest common divisors and the facts about them that the line
//! canonicalization needs.
use vstd::arithmetic::div_mod::*;
use vstd::prelude::*;

verus! {

/// Euclid's greatest common divisor on naturals; `spec_gcd(a, 0) == a`.
pub open spec fn spec_gcd(a: nat, b: nat) -> nat
    decreases b,
{
    if b == 0 {
        a
    } else {
        spec_gcd(b, a % b)
    }
}

/// Greatest common divisor of two non-negative integers, by Euclid's
/// algorithm. `gcd(0, 0)` is 0.
pub fn gcd(a: i64, b: i64) -> (r: i64)
    requires
        0 <= a,
        0 <= b,
    ensures
        r == spec_gcd(a as nat, b as nat),
    decreases (if a > b { a } else { b }), (if a > b { 1int } else { 0int }),
{
    if a == b {
        proof { lemma_gcd_self(a as nat); }
        return a;
    }
    if a > b {
        proof { lemma_gcd_commutes(a as nat, b as nat); }
        return gcd(b, a);
    }
    proof { lemma_gcd_commutes(a as nat, b as nat); }
    if a == 0 {
        assert(spec_gcd(b as nat, 0) == b);
        return b;
    }
    if a == 1 {
        assert(b % 1 == 0);
        assert(spec_gcd(1, 0) == 1);
        return 1;
    }
    proof {
        assert(spec_gcd(b as nat, a as nat) == spec_gcd(a as nat, (b % a) as nat));
        lemma_gcd_commutes((b % a) as nat, a as nat);
    }
    gcd(b % a, a)
}

/// The gcd of a number with itself is that number.
pub proof fn lemma_gcd_self(a: nat)
    ensures
        spec_gcd(a, a) == a,
{
    if a > 0 {
        assert(a % a == 0) by (nonlinear_arith) requires a > 0;
        assert(spec_gcd(a, 0) == a);
    }
}

/// The gcd does not depend on the order of its arguments.
pub proof fn lemma_gcd_commutes(a: nat, b: nat)
    ensures
        spec_gcd(a, b) == spec_gcd(b, a),
{
    if a < b {
        assert(a % b == a) by (nonlinear_arith) requires a < b;
    } else if b < a {
        assert(b % a == b) by (nonlinear_arith) requires b < a;
    }
}


/// The gcd divides both arguments and is positive unless both are zero.
pub proof fn lemma_gcd_divides(a: nat, b: nat)
    ensures
        a > 0 || b > 0 ==> spec_gcd(a, b) > 0,
        spec_gcd(a, b) > 0 ==> a % spec_gcd(a, b) == 0 && b % spec_gcd(a, b) == 0,
    decreases b,
{
    if b == 0 {
        if a > 0 {
            lemma_mod_self_0(a as int);
        }
        lemma_mod_of_zero(spec_gcd(a, b));
    } else {
        let r = a % b;
        lemma_gcd_divides(b, r);
        let g = spec_gcd(b, r);
        assert(g > 0) by {
            assert(b > 0);
        }
        // a == b * (a / b) + r, and g divides b and r
        lemma_fundamental_div_mod(a as int, b as int);
        lemma_fundamental_div_mod(b as int, g as int);
        lemma_fundamental_div_mod(r as int, g as int);
        let q = a / b;
        let bg = b / g;
        let rg = r / g;
        assert(a == g * (bg * q + rg)) by (nonlinear_arith)
            requires
                a == b * q + r,
                b == g * bg,
                r == g * rg,
        ;
        lemma_mod_multiples_basic((bg * q + rg) as int, g as int);
        assert((bg * q + rg) * g == a) by (nonlinear_arith)
            requires
                a == g * (bg * q + rg),
        ;
    }
}

proof fn lemma_mod_of_zero(m: nat)
    ensures
        m > 0 ==> 0nat % m == 0,
{
}

/// Scaling both arguments scales the gcd.
pub proof fn lemma_gcd_scale(a: nat, b: nat, k: nat)
    requires
        k > 0,
    ensures
        spec_gcd(k * a, k * b) == k * spec_gcd(a, b),
    decreases b,
{
    if b == 0 {
        assert(k * b == 0);
    } else {
        let q = a / b;
        let r = a % b;
        lemma_fundamental_div_mod(a as int, b as int);
        assert(k * b > 0) by (nonlinear_arith)
            requires
                k > 0,
                b > 0,
        ;
        assert(k * a == q * (k * b) + k * r && 0 <= k * r < k * b) by (nonlinear_arith)
            requires
                a == b * q + r,
                0 <= r < b,
                k > 0,
        ;
        lemma_fundamental_div_mod_converse((k * a) as int, (k * b) as int, q as int, (k * r) as int);
        assert((k * a) % (k * b) == k * r);
        lemma_gcd_scale(b, r, k);
    }
}

/// Every common divisor of `a` and `b` divides their gcd.
pub proof fn lemma_common_divisor(a: nat, b: nat, d: nat)
    requires
        d > 0,
        a % d == 0,
        b % d == 0,
    ensures
        spec_gcd(a, b) % d == 0,
    decreases b,
{
    if b > 0 {
        let q = a / b;
        let r = a % b;
        lemma_fundamental_div_mod(a as int, b as int);
        lemma_fundamental_div_mod(a as int, d as int);
        lemma_fundamental_div_mod(b as int, d as int);
        let ad = a / d;
        let bd = b / d;
        assert(r == (ad - bd * q) * d) by (nonlinear_arith)
            requires
                a == b * q + r,
                a == d * ad,
                b == d * bd,
        ;
        lemma_mod_multiples_basic((ad - bd * q) as int, d as int);
        lemma_common_divisor(b, r, d);
    }
}

/// Dividing both arguments by their gcd leaves them coprime.
pub proof fn lemma_reduced_coprime(a: nat, b: nat)
    requires
        a > 0 || b > 0,
    ensures
        spec_gcd(a / spec_gcd(a, b), b / spec_gcd(a, b)) == 1,
{
    let g = spec_gcd(a, b);
    lemma_gcd_divides(a, b);
    lemma_fundamental_div_mod(a as int, g as int);
    lemma_fundamental_div_mod(b as int, g as int);
    let a1 = a / g;
    let b1 = b / g;
    lemma_gcd_scale(a1, b1, g);
    assert(g * a1 == a && g * b1 == b);
    let h = spec_gcd(a1, b1);
    assert(h == 1) by (nonlinear_arith)
        requires
            g == g * h,
            g > 0,
    ;
}

/// If `u` is coprime to `v` and divides `v * w`, it divides `w`.
pub proof fn lemma_coprime_divides(u: nat, v: nat, w: nat)
    requires
        u > 0,
        spec_gcd(u, v) == 1,
        (v * w) % u == 0,
    ensures
        w % u == 0,
{
    if w == 0 {
        lemma_mod_of_zero(u);
    } else {
        lemma_gcd_scale(u, v, w);
        lemma_mod_multiples_basic(w as int, u as int);
        assert(w * u == u * w && w * v == v * w) by (nonlinear_arith);
        lemma_common_divisor(w * u, w * v, u);
    }
}

/// Two coprime pairs with positive first components that describe the same
/// ratio are equal.
pub proof fn lemma_reduced_unique(u1: nat, v1: nat, u2: nat, v2: nat)
    requires
        u1 > 0,
        u2 > 0,
        spec_gcd(u1, v1) == 1,
        spec_gcd(u2, v2) == 1,
        u1 * v2 == u2 * v1,
    ensures
        u1 == u2,
        v1 == v2,
{
    lemma_mod_multiples_basic(v2 as int, u1 as int);
    assert(v1 * u2 == v2 * u1) by (nonlinear_arith)
        requires
            u1 * v2 == u2 * v1,
    ;
    lemma_coprime_divides(u1, v1, u2);
    lemma_mod_multiples_basic(v1 as int, u2 as int);
    assert(v2 * u1 == v1 * u2) by (nonlinear_arith)
        requires
            u1 * v2 == u2 * v1,
    ;
    lemma_coprime_divides(u2, v2, u1);
    lemma_mod_is_zero(u2, u1);
    lemma_mod_is_zero(u1, u2);
    assert(v1 == v2) by (nonlinear_arith)
        requires
            u1 * v2 == u2 * v1,
            u1 == u2,
            u1 > 0,
    ;
}

} // verus!
