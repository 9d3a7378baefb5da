//! Fractions in lowest terms, over the mathematical integers.
//!
//! A transfer point is kept as a numerator and a denominator in lowest
//! terms. This module says what "lowest terms" means and proves the facts
//! about it that the geometry rests on: that every fraction has exactly one
//! representation in lowest terms, and that fractions of equal value have the
//! same floor.

use vstd::prelude::*;
use vstd::arithmetic::div_mod::{
    lemma_fundamental_div_mod, lemma_fundamental_div_mod_converse, lemma_mod_bound,
    lemma_mod_multiples_basic, lemma_mod_pos_bound,
};

verus! {

/// `k` divides `n`.
pub open spec fn divides(k: int, n: int) -> bool {
    k != 0 && n % k == 0
}

/// `a` and `b` have no common divisor above 1.
pub open spec fn coprime(a: int, b: int) -> bool {
    forall|k: int| k > 1 && #[trigger] divides(k, a) ==> !divides(k, b)
}

/// `n / d` is written in lowest terms, with a positive denominator.
pub open spec fn in_lowest_terms(n: int, d: int) -> bool {
    d > 0 && coprime(n, d)
}

/// The greatest common divisor, by Euclid's recursion.
pub open spec fn gcd(a: nat, b: nat) -> nat
    decreases b,
{
    if b == 0 {
        a
    } else {
        gcd(b, a % b)
    }
}

/// The absolute value of `n`.
pub open spec fn magnitude(n: int) -> nat {
    if n < 0 {
        (-n) as nat
    } else {
        n as nat
    }
}

/// The numerator and denominator of `n / d` in lowest terms, for `d > 0`.
pub open spec fn lowest_terms(n: int, d: int) -> (int, int) {
    let g = gcd(magnitude(n), d as nat) as int;
    (n / g, d / g)
}

/// A divisor comes with its cofactor.
pub proof fn lemma_divides_cofactor(k: int, n: int)
    requires
        divides(k, n),
    ensures
        n == k * (n / k),
{
    lemma_fundamental_div_mod(n, k);
}

/// Every multiple of a positive `k` is divisible by `k`.
pub proof fn lemma_multiple_divides(k: int, m: int)
    requires
        k > 0,
    ensures
        divides(k, k * m),
{
    lemma_mod_multiples_basic(m, k);
    assert(k * m == m * k) by (nonlinear_arith);
}

/// Euclid's algorithm, extended: the greatest common divisor of `a` and `b`
/// is positive, divides both, and is an integer combination of them.
pub proof fn lemma_gcd(a: nat, b: nat) -> (xy: (int, int))
    requires
        a > 0 || b > 0,
    ensures
        gcd(a, b) > 0,
        divides(gcd(a, b) as int, a as int),
        divides(gcd(a, b) as int, b as int),
        xy.0 * a + xy.1 * b == gcd(a, b),
    decreases b,
{
    if b == 0 {
        lemma_multiple_divides(a as int, 1);
        lemma_multiple_divides(a as int, 0);
        assert(a as int * 1 == a as int);
        assert(a as int * 0 == 0);
        (1, 0)
    } else {
        let r = a % b;
        lemma_mod_pos_bound(a as int, b as int);
        let (x, y) = lemma_gcd(b, r);
        let g = gcd(b, r) as int;
        let q = (a / b) as int;
        lemma_fundamental_div_mod(a as int, b as int);
        lemma_divides_cofactor(g, b as int);
        lemma_divides_cofactor(g, r as int);
        let m1 = b as int / g;
        let m2 = r as int / g;
        assert(a as int == g * (m1 * q + m2)) by (nonlinear_arith)
            requires
                a as int == b as int * q + r as int,
                b as int == g * m1,
                r as int == g * m2,
        ;
        lemma_multiple_divides(g, m1 * q + m2);
        assert(y * a + (x - y * q) * b == x * b + y * r) by (nonlinear_arith)
            requires
                a as int == b as int * q + r as int,
        ;
        (y, x - y * q)
    }
}

/// Bezout's identity for a fraction in lowest terms.
pub proof fn lemma_bezout(n: int, d: int) -> (xy: (int, int))
    requires
        in_lowest_terms(n, d),
    ensures
        xy.0 * n + xy.1 * d == 1,
{
    let a = magnitude(n);
    let (x, y) = lemma_gcd(a, d as nat);
    let g = gcd(a, d as nat) as int;
    if g > 1 {
        lemma_divides_cofactor(g, a as int);
        let m = a as int / g;
        if n < 0 {
            assert(n == g * (-m)) by (nonlinear_arith)
                requires
                    -n == g * m,
            ;
            lemma_multiple_divides(g, -m);
        }
        assert(divides(g, n));
        assert(false);
    }
    if n < 0 {
        assert((-x) * n == x * a) by (nonlinear_arith)
            requires
                a == -n,
        ;
        (-x, y)
    } else {
        (x, y)
    }
}

/// Gauss's lemma: a denominator in lowest terms that divides `n * e` divides
/// `e`. The result is the cofactor.
pub proof fn lemma_gauss(n: int, d: int, e: int, f: int) -> (m: int)
    requires
        in_lowest_terms(n, d),
        n * e == f * d,
    ensures
        e == d * m,
{
    let (x, y) = lemma_bezout(n, d);
    let m = x * f + y * e;
    assert(e == d * m) by (nonlinear_arith)
        requires
            x * n + y * d == 1,
            n * e == f * d,
            m == x * f + y * e,
    ;
    m
}

/// Two fractions in lowest terms that have the same value are the same
/// fraction.
pub proof fn lemma_lowest_terms_unique(n1: int, d1: int, n2: int, d2: int)
    requires
        in_lowest_terms(n1, d1),
        in_lowest_terms(n2, d2),
        n1 * d2 == n2 * d1,
    ensures
        n1 == n2,
        d1 == d2,
{
    let m1 = lemma_gauss(n1, d1, d2, n2);
    let m2 = lemma_gauss(n2, d2, d1, n1);
    assert(m1 == 1 && m2 == 1) by (nonlinear_arith)
        requires
            d2 == d1 * m1,
            d1 == d2 * m2,
            d1 > 0,
            d2 > 0,
    ;
    assert(d1 * 1 == d1);
    assert(n1 == n2) by (nonlinear_arith)
        requires
            n1 * d2 == n2 * d1,
            d1 == d2,
            d1 > 0,
    ;
}

/// Adding a multiple of the denominator to the numerator, or to its
/// negation, keeps a fraction in lowest terms.
pub proof fn lemma_coprime_shift(n: int, d: int, m: int, c: int)
    requires
        coprime(n, d),
        m == n + c * d || m == -n + c * d,
    ensures
        coprime(m, d),
{
    assert forall|k: int| k > 1 && #[trigger] divides(k, m) implies !divides(k, d) by {
        if divides(k, d) {
            lemma_divides_cofactor(k, m);
            lemma_divides_cofactor(k, d);
            let a = m / k;
            let b = d / k;
            if m == n + c * d {
                assert(n == k * (a - c * b)) by (nonlinear_arith)
                    requires
                        m == n + c * d,
                        m == k * a,
                        d == k * b,
                ;
                lemma_multiple_divides(k, a - c * b);
            } else {
                assert(n == k * (c * b - a)) by (nonlinear_arith)
                    requires
                        m == -n + c * d,
                        m == k * a,
                        d == k * b,
                ;
                lemma_multiple_divides(k, c * b - a);
            }
            assert(divides(k, n));
        }
    }
}

/// `lowest_terms(n, d)` is in lowest terms, has the value of `n / d`, and is
/// no larger than `n / d` as written.
pub proof fn lemma_lowest_terms(n: int, d: int)
    requires
        d > 0,
    ensures
        in_lowest_terms(lowest_terms(n, d).0, lowest_terms(n, d).1),
        lowest_terms(n, d).0 * d == n * lowest_terms(n, d).1,
        lowest_terms(n, d).1 <= d,
        n >= 0 ==> 0 <= lowest_terms(n, d).0 <= n,
{
    let a = magnitude(n);
    let (x, y) = lemma_gcd(a, d as nat);
    let g = gcd(a, d as nat) as int;
    lemma_divides_cofactor(g, a as int);
    lemma_divides_cofactor(g, d);
    let a1 = a as int / g;
    let d1 = d / g;
    // n itself is g times its reduced numerator
    let n1 = if n < 0 {
        -a1
    } else {
        a1
    };
    assert(n == g * n1) by (nonlinear_arith)
        requires
            a as int == g * a1,
            n1 == (if n < 0 {
                -a1
            } else {
                a1
            }),
            a as int == (if n < 0 {
                -n
            } else {
                n
            }),
    ;
    assert(n == n1 * g + 0) by (nonlinear_arith)
        requires
            n == g * n1,
    ;
    lemma_fundamental_div_mod_converse(n, g, n1, 0);
    assert(n / g == n1);
    assert(d1 > 0 && d1 <= d) by (nonlinear_arith)
        requires
            d == g * d1,
            d > 0,
            g > 0,
    ;
    assert(n1 * d == n * d1) by (nonlinear_arith)
        requires
            n == g * n1,
            d == g * d1,
    ;
    if n >= 0 {
        assert(0 <= n1 <= n) by (nonlinear_arith)
            requires
                n == g * n1,
                n >= 0,
                g > 0,
        ;
    }
    // Bezout for the reduced pair
    let x1 = if n < 0 {
        -x
    } else {
        x
    };
    assert(x1 * n1 + y * d1 == 1) by (nonlinear_arith)
        requires
            x * a + y * d == g,
            a as int == g * a1,
            d == g * d1,
            g > 0,
            x1 == (if n < 0 {
                -x
            } else {
                x
            }),
            n1 == (if n < 0 {
                -a1
            } else {
                a1
            }),
    ;
    assert forall|k: int| k > 1 && #[trigger] divides(k, n1) implies !divides(k, d1) by {
        if divides(k, d1) {
            lemma_divides_cofactor(k, n1);
            lemma_divides_cofactor(k, d1);
            let u = n1 / k;
            let v = d1 / k;
            let w = x1 * u + y * v;
            assert(k * w == 1) by (nonlinear_arith)
                requires
                    x1 * n1 + y * d1 == 1,
                    n1 == k * u,
                    d1 == k * v,
                    w == x1 * u + y * v,
            ;
            assert(false) by (nonlinear_arith)
                requires
                    k * w == 1,
                    k > 1,
            ;
        }
    }
}

/// A fraction in lowest terms is its own reduction.
pub proof fn lemma_lowest_terms_fixed(n: int, d: int)
    requires
        in_lowest_terms(n, d),
    ensures
        lowest_terms(n, d) == (n, d),
{
    lemma_lowest_terms(n, d);
    let l = lowest_terms(n, d);
    assert(l.0 * d == n * l.1);
    lemma_lowest_terms_unique(l.0, l.1, n, d);
}

/// The reduction of a fraction is the one fraction in lowest terms that has
/// its value.
pub proof fn lemma_lowest_terms_is(n: int, d: int, n1: int, d1: int)
    requires
        d > 0,
        in_lowest_terms(n1, d1),
        n1 * d == n * d1,
    ensures
        lowest_terms(n, d) == (n1, d1),
{
    lemma_lowest_terms(n, d);
    let l = lowest_terms(n, d);
    assert(l.0 * d1 == n1 * l.1) by (nonlinear_arith)
        requires
            l.0 * d == n * l.1,
            n1 * d == n * d1,
            d > 0,
    ;
    lemma_lowest_terms_unique(l.0, l.1, n1, d1);
}

/// Fractions of equal value have the same floor, and their remainders are
/// fractions of equal value again.
pub proof fn lemma_same_floor(a: int, b: int, c: int, d: int)
    requires
        b > 0,
        d > 0,
        a * d == c * b,
    ensures
        a / b == c / d,
        (a % b) * d == (c % d) * b,
{
    let f = c / d;
    let r = c % d;
    lemma_fundamental_div_mod(c, d);
    lemma_mod_bound(c, d);
    let t = a - f * b;
    assert(d * t == r * b) by (nonlinear_arith)
        requires
            a * d == c * b,
            c == d * f + r,
            t == a - f * b,
    ;
    assert(0 <= t < b) by (nonlinear_arith)
        requires
            d * t == r * b,
            0 <= r < d,
            b > 0,
            d > 0,
    ;
    lemma_fundamental_div_mod_converse(a, b, f, t);
    assert(t * d == r * b) by (nonlinear_arith)
        requires
            d * t == r * b,
    ;
}

} // verus!
