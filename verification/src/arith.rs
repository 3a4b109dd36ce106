//! Integer facts behind the exact rational time model: greatest common
//! divisors, lowest terms, and rounding to the nearest whole number.

use vstd::prelude::*;
use vstd::arithmetic::div_mod::{lemma_fundamental_div_mod, lemma_fundamental_div_mod_converse};

verus! {

/// Euclid's greatest common divisor on naturals (`gcd(0, 0) == 0`).
pub open spec fn gcd_spec(a: nat, b: nat) -> nat
    decreases b,
{
    if b == 0 {
        a
    } else {
        gcd_spec(b, a % b)
    }
}

/// Absolute value as a natural number.
pub open spec fn abs_nat(x: int) -> nat {
    if x < 0 {
        (-x) as nat
    } else {
        x as nat
    }
}

/// A fraction `(numerator, denominator)` in lowest terms with a positive denominator.
pub open spec fn is_normal(v: (int, int)) -> bool {
    v.1 > 0 && gcd_spec(abs_nat(v.0), v.1 as nat) == 1
}

/// Two fractions with non-zero denominators name the same rational number.
pub open spec fn same_value(a: (int, int), b: (int, int)) -> bool {
    a.0 * b.1 == b.0 * a.1
}

/// The fraction `a` is strictly below `b` (both denominators positive).
pub open spec fn value_lt(a: (int, int), b: (int, int)) -> bool {
    a.0 * b.1 < b.0 * a.1
}

/// `n / d` brought to lowest terms with a positive denominator.
pub open spec fn reduce(n: int, d: int) -> (int, int) {
    let s: int = if d < 0 { -1 } else { 1 };
    let n1 = n * s;
    let d1 = d * s;
    let g = gcd_spec(abs_nat(n1), abs_nat(d1));
    let g1: int = if g == 0 { 1 } else { g as int };
    (n1 / g1, d1 / g1)
}

/// Both components are representable as `i64`.
pub open spec fn fits_i64(v: (int, int)) -> bool {
    i64::MIN <= v.0 <= i64::MAX && i64::MIN <= v.1 <= i64::MAX
}

/// The whole number nearest to `v.0 / v.1` (denominator positive), ties rounding up.
pub open spec fn nearest_int(v: (int, int)) -> int {
    (2 * v.0 + v.1) / (2 * v.1)
}

/// Sum of two fractions, in lowest terms.
pub open spec fn frac_add(a: (int, int), b: (int, int)) -> (int, int) {
    reduce(a.0 * b.1 + b.0 * a.1, a.1 * b.1)
}

/// Difference of two fractions, in lowest terms.
pub open spec fn frac_sub(a: (int, int), b: (int, int)) -> (int, int) {
    reduce(a.0 * b.1 - b.0 * a.1, a.1 * b.1)
}

/// Product of two fractions, in lowest terms.
pub open spec fn frac_mul(a: (int, int), b: (int, int)) -> (int, int) {
    reduce(a.0 * b.0, a.1 * b.1)
}

/// Quotient of two fractions, in lowest terms.
pub open spec fn frac_div(a: (int, int), b: (int, int)) -> (int, int) {
    reduce(a.0 * b.1, a.1 * b.0)
}

proof fn lemma_mul_zero_mod(g: int, k: int)
    requires
        g > 0,
    ensures
        (g * k) % g == 0,
        (g * k) / g == k,
{
    assert(g * k == k * g + 0) by (nonlinear_arith);
    lemma_fundamental_div_mod_converse(g * k, g, k, 0);
}

/// The gcd divides both arguments, and is positive unless both are zero.
pub proof fn lemma_gcd_divides(a: nat, b: nat)
    ensures
        a == 0 && b == 0 ==> gcd_spec(a, b) == 0,
        a != 0 || b != 0 ==> {
            &&& gcd_spec(a, b) > 0
            &&& a % gcd_spec(a, b) == 0
            &&& b % gcd_spec(a, b) == 0
        },
    decreases b,
{
    if b == 0 {
        if a != 0 {
            lemma_mul_zero_mod(a as int, 1);
            lemma_mul_zero_mod(a as int, 0);
        }
    } else {
        let r = a % b;
        lemma_gcd_divides(b, r);
        let g = gcd_spec(b, r) as int;
        lemma_fundamental_div_mod(a as int, b as int);
        lemma_fundamental_div_mod(b as int, g);
        lemma_fundamental_div_mod(r as int, g);
        let q = a as int / b as int;
        let kb = b as int / g;
        let kr = r as int / g;
        assert(a as int == g * (kb * q + kr)) by (nonlinear_arith)
            requires
                a as int == b as int * q + r as int,
                b as int == g * kb + 0,
                r as int == g * kr + 0,
        ;
        lemma_mul_zero_mod(g, kb * q + kr);
    }
}

/// Bezout: the gcd is an integer combination of its arguments.
pub proof fn lemma_bezout(a: nat, b: nat) -> (xy: (int, int))
    ensures
        xy.0 * a + xy.1 * b == gcd_spec(a, b),
    decreases b,
{
    if b == 0 {
        (1, 0)
    } else {
        let r = a % b;
        let (x, y) = lemma_bezout(b, r);
        lemma_fundamental_div_mod(a as int, b as int);
        let q = a as int / b as int;
        let g = gcd_spec(a, b) as int;
        assert(y * a + (x - y * q) * b == g) by (nonlinear_arith)
            requires
                x * b + y * r == g,
                a as int == b as int * q + r as int,
        ;
        (y, x - y * q)
    }
}

/// Any common divisor `k` of `a` and `b` divides their gcd.
pub proof fn lemma_common_divisor(a: nat, b: nat, k: int, p: int, q: int)
    requires
        k > 0,
        a == k * p,
        b == k * q,
    ensures
        gcd_spec(a, b) as int % k == 0,
{
    let (x, y) = lemma_bezout(a, b);
    assert(gcd_spec(a, b) == k * (x * p + y * q)) by (nonlinear_arith)
        requires
            x * a + y * b == gcd_spec(a, b),
            a == k * p,
            b == k * q,
    ;
    lemma_mul_zero_mod(k, x * p + y * q);
}

/// `n1 == g * (n1 / g)` for an exact divisor `g > 0`.
proof fn lemma_exact_div(n1: int, g: int)
    requires
        g > 0,
        abs_nat(n1) as int % g == 0,
    ensures
        n1 == g * (n1 / g),
        abs_nat(n1 / g) == abs_nat(n1) as int / g,
{
    let m = abs_nat(n1) as int;
    lemma_fundamental_div_mod(m, g);
    let k = m / g;
    if n1 >= 0 {
    } else {
        assert(n1 == g * (-k)) by (nonlinear_arith)
            requires
                n1 == -m,
                m == g * k + 0,
        ;
        lemma_mul_zero_mod(g, -k);
        assert(k >= 0) by (nonlinear_arith)
            requires
                m >= 0,
                g > 0,
                m == g * k,
        ;
    }
}

/// `reduce` gives lowest terms and keeps the value.
pub proof fn lemma_reduce(n: int, d: int)
    requires
        d != 0,
    ensures
        is_normal(reduce(n, d)),
        same_value(reduce(n, d), (n, d)),
{
    let s: int = if d < 0 { -1 } else { 1 };
    let n1 = n * s;
    let d1 = d * s;
    assert(d1 > 0) by (nonlinear_arith)
        requires
            d != 0,
            s == (if d < 0 { -1int } else { 1int }),
            d1 == d * s,
    ;
    let a = abs_nat(n1);
    let b = abs_nat(d1);
    lemma_gcd_divides(a, b);
    let g = gcd_spec(a, b) as int;
    assert(g > 0);
    lemma_exact_div(n1, g);
    lemma_exact_div(d1, g);
    let p = n1 / g;
    let q = d1 / g;
    assert(reduce(n, d) == (p, q));
    assert(q > 0) by (nonlinear_arith)
        requires
            d1 == g * q,
            d1 > 0,
            g > 0,
    ;
    // same value: p * d == n * q
    assert(p * d == n * q) by (nonlinear_arith)
        requires
            n1 == n * s,
            d1 == d * s,
            s * s == 1,
            n1 == g * p,
            d1 == g * q,
            g > 0,
    ;
    // lowest terms
    let pa = abs_nat(p);
    lemma_gcd_divides(pa, q as nat);
    let h = gcd_spec(pa, q as nat) as int;
    assert(h > 0);
    lemma_fundamental_div_mod(pa as int, h);
    lemma_fundamental_div_mod(q, h);
    assert(a as int == g * pa) by {
        assert(abs_nat(n1) == abs_nat(g * p));
        assert(abs_nat(g * p) == g * abs_nat(p)) by (nonlinear_arith)
            requires
                g > 0,
        ;
    }
    let u = pa as int / h;
    let w = q / h;
    assert(a as int == (g * h) * u && b as int == (g * h) * w) by (nonlinear_arith)
        requires
            a as int == g * pa,
            b as int == d1,
            d1 == g * q,
            pa as int == h * u + 0,
            q == h * w + 0,
    ;
    assert(g * h > 0) by (nonlinear_arith)
        requires
            g > 0,
            h > 0,
    ;
    lemma_common_divisor(a, b, g * h, u, w);
    lemma_fundamental_div_mod(g, g * h);
    let c = g / (g * h);
    assert(h == 1) by (nonlinear_arith)
        requires
            g == (g * h) * c + 0,
            g > 0,
            h > 0,
    ;
}

/// Two fractions in lowest terms with the same value are identical.
pub proof fn lemma_normal_unique(a: (int, int), b: (int, int))
    requires
        is_normal(a),
        is_normal(b),
        same_value(a, b),
    ensures
        a == b,
{
    let (x, y) = lemma_bezout(abs_nat(a.0), a.1 as nat);
    let sa: int = if a.0 < 0 { -1 } else { 1 };
    assert(abs_nat(a.0) == sa * a.0) by (nonlinear_arith)
        requires
            sa == (if a.0 < 0 { -1int } else { 1int }),
            abs_nat(a.0) == (if a.0 < 0 { -a.0 } else { a.0 }),
    ;
    let k1 = x * sa * b.0 + y * b.1;
    assert(b.1 == a.1 * k1) by (nonlinear_arith)
        requires
            x * abs_nat(a.0) + y * a.1 == 1,
            abs_nat(a.0) == sa * a.0,
            a.0 * b.1 == b.0 * a.1,
            k1 == x * sa * b.0 + y * b.1,
    ;
    let (x2, y2) = lemma_bezout(abs_nat(b.0), b.1 as nat);
    let sb: int = if b.0 < 0 { -1 } else { 1 };
    assert(abs_nat(b.0) == sb * b.0) by (nonlinear_arith)
        requires
            sb == (if b.0 < 0 { -1int } else { 1int }),
            abs_nat(b.0) == (if b.0 < 0 { -b.0 } else { b.0 }),
    ;
    let k2 = x2 * sb * a.0 + y2 * a.1;
    assert(a.1 == b.1 * k2) by (nonlinear_arith)
        requires
            x2 * abs_nat(b.0) + y2 * b.1 == 1,
            abs_nat(b.0) == sb * b.0,
            a.0 * b.1 == b.0 * a.1,
            k2 == x2 * sb * a.0 + y2 * a.1,
    ;
    assert(a.1 == b.1) by (nonlinear_arith)
        requires
            b.1 == a.1 * k1,
            a.1 == b.1 * k2,
            a.1 > 0,
            b.1 > 0,
    ;
    assert(a.0 == b.0) by (nonlinear_arith)
        requires
            a.0 * b.1 == b.0 * a.1,
            a.1 == b.1,
            a.1 > 0,
    ;
}

/// Reducing a fraction twice changes nothing, and equal values reduce alike.
pub proof fn lemma_reduce_same(n: int, d: int, m: int, e: int)
    requires
        d != 0,
        e != 0,
        n * e == m * d,
    ensures
        reduce(n, d) == reduce(m, e),
{
    lemma_reduce(n, d);
    lemma_reduce(m, e);
    let r1 = reduce(n, d);
    let r2 = reduce(m, e);
    assert(r1.0 * r2.1 == r2.0 * r1.1) by (nonlinear_arith)
        requires
            r1.0 * d == n * r1.1,
            r2.0 * e == m * r2.1,
            n * e == m * d,
            d != 0,
            e != 0,
            r1.1 > 0,
            r2.1 > 0,
    ;
    lemma_normal_unique(r1, r2);
}

/// A fraction already in lowest terms reduces to itself.
pub proof fn lemma_reduce_normal(v: (int, int))
    requires
        is_normal(v),
    ensures
        reduce(v.0, v.1) == v,
{
    lemma_reduce(v.0, v.1);
    lemma_normal_unique(reduce(v.0, v.1), v);
}

/// A whole number `n` in lowest terms is `n / 1`.
pub proof fn lemma_int_normal(n: int)
    ensures
        is_normal((n, 1)),
{
    assert(gcd_spec(abs_nat(n), 1) == gcd_spec(1, 0)) by {
        assert(abs_nat(n) % 1 == 0);
    }
}

/// Floor division by a positive denominator, split into quotient and remainder,
/// rounds to the nearest whole number with ties going up.
pub proof fn lemma_nearest_from_div(n: int, d: int, q: int, r: int)
    requires
        d > 0,
        n == q * d + r,
        0 <= r < d,
    ensures
        nearest_int((n, d)) == (if 2 * r >= d { q + 1 } else { q }),
{
    if 2 * r >= d {
        assert(2 * n + d == (q + 1) * (2 * d) + (2 * r - d)) by (nonlinear_arith)
            requires
                n == q * d + r,
        ;
        lemma_fundamental_div_mod_converse(2 * n + d, 2 * d, q + 1, 2 * r - d);
    } else {
        assert(2 * n + d == q * (2 * d) + (2 * r + d)) by (nonlinear_arith)
            requires
                n == q * d + r,
        ;
        lemma_fundamental_div_mod_converse(2 * n + d, 2 * d, q, 2 * r + d);
    }
}

/// `(a + b) * c == a * c + b * c`.
proof fn lemma_distr_add(a: int, b: int, c: int)
    by (nonlinear_arith)
    ensures
        (a + b) * c == a * c + b * c,
{
}

/// `(a - b) * c == a * c - b * c`.
proof fn lemma_distr_sub(a: int, b: int, c: int)
    by (nonlinear_arith)
    ensures
        (a - b) * c == a * c - b * c,
{
}

/// `(a * b) * (c * d) == (a * c) * (b * d)`.
proof fn lemma_mul_swap4(a: int, b: int, c: int, d: int)
    by (nonlinear_arith)
    ensures
        (a * b) * (c * d) == (a * c) * (b * d),
{
}

/// `(a * b) * c == (a * c) * b` and `a * (b * c) == (a * b) * c`.
proof fn lemma_mul_swap3(a: int, b: int, c: int)
    by (nonlinear_arith)
    ensures
        (a * b) * c == (a * c) * b,
        a * (b * c) == (a * b) * c,
        a * b == b * a,
{
}

/// A positive product of positive denominators.
proof fn lemma_pos_mul(a: int, b: int)
    requires
        a > 0,
        b > 0,
    ensures
        a * b > 0,
{
    assert(a * b > 0) by (nonlinear_arith)
        requires
            a > 0,
            b > 0,
    ;
}

/// Adding to a fraction `x` worth `p / q` is adding to `p / q`.
pub proof fn lemma_add_congr_left(x: (int, int), p: int, q: int, b: (int, int))
    requires
        x.1 > 0,
        q > 0,
        b.1 > 0,
        x.0 * q == p * x.1,
    ensures
        frac_add(x, b) == reduce(p * b.1 + b.0 * q, q * b.1),
{
    lemma_pos_mul(x.1, b.1);
    lemma_pos_mul(q, b.1);
    lemma_distr_add(x.0 * b.1, b.0 * x.1, q * b.1);
    lemma_mul_swap4(x.0, b.1, q, b.1);
    lemma_mul_swap4(b.0, x.1, q, b.1);
    lemma_distr_add(p * b.1, b.0 * q, x.1 * b.1);
    lemma_mul_swap4(p, b.1, x.1, b.1);
    lemma_mul_swap4(b.0, q, x.1, b.1);
    lemma_mul_swap3(x.1, q, 1);
    lemma_reduce_same(x.0 * b.1 + b.0 * x.1, x.1 * b.1, p * b.1 + b.0 * q, q * b.1);
}

/// Subtracting from a fraction `x` worth `p / q` is subtracting from `p / q`.
pub proof fn lemma_sub_congr_left(x: (int, int), p: int, q: int, b: (int, int))
    requires
        x.1 > 0,
        q > 0,
        b.1 > 0,
        x.0 * q == p * x.1,
    ensures
        frac_sub(x, b) == reduce(p * b.1 - b.0 * q, q * b.1),
{
    lemma_pos_mul(x.1, b.1);
    lemma_pos_mul(q, b.1);
    lemma_distr_sub(x.0 * b.1, b.0 * x.1, q * b.1);
    lemma_mul_swap4(x.0, b.1, q, b.1);
    lemma_mul_swap4(b.0, x.1, q, b.1);
    lemma_distr_sub(p * b.1, b.0 * q, x.1 * b.1);
    lemma_mul_swap4(p, b.1, x.1, b.1);
    lemma_mul_swap4(b.0, q, x.1, b.1);
    lemma_mul_swap3(x.1, q, 1);
    lemma_reduce_same(x.0 * b.1 - b.0 * x.1, x.1 * b.1, p * b.1 - b.0 * q, q * b.1);
}

/// Adding a fraction `x` worth `p / q` is adding `p / q`.
pub proof fn lemma_add_congr_right(a: (int, int), x: (int, int), p: int, q: int)
    requires
        a.1 > 0,
        x.1 > 0,
        q > 0,
        x.0 * q == p * x.1,
    ensures
        frac_add(a, x) == reduce(a.0 * q + p * a.1, a.1 * q),
{
    lemma_pos_mul(a.1, x.1);
    lemma_pos_mul(a.1, q);
    lemma_distr_add(a.0 * x.1, x.0 * a.1, a.1 * q);
    lemma_mul_swap4(a.0, x.1, a.1, q);
    lemma_mul_swap3(a.1, q, 1);
    lemma_mul_swap4(x.0, a.1, q, a.1);
    lemma_distr_add(a.0 * q, p * a.1, a.1 * x.1);
    lemma_mul_swap4(a.0, q, a.1, x.1);
    lemma_mul_swap3(q, x.1, 1);
    lemma_mul_swap3(a.1, x.1, 1);
    lemma_mul_swap4(p, a.1, x.1, a.1);
    assert((a.0 * x.1 + x.0 * a.1) * (a.1 * q) == (a.0 * a.1) * (x.1 * q) + (x.0 * q) * (a.1
        * a.1));
    assert((a.0 * q + p * a.1) * (a.1 * x.1) == (a.0 * a.1) * (x.1 * q) + (p * x.1) * (a.1
        * a.1));
    lemma_reduce_same(a.0 * x.1 + x.0 * a.1, a.1 * x.1, a.0 * q + p * a.1, a.1 * q);
}

/// `reduce` of a positive denominator keeps the denominator positive and
/// satisfies the cross-multiplication identity used by the congruences.
pub proof fn lemma_reduce_pos(n: int, d: int)
    requires
        d > 0,
    ensures
        reduce(n, d).1 > 0,
        reduce(n, d).0 * d == n * reduce(n, d).1,
        is_normal(reduce(n, d)),
{
    lemma_reduce(n, d);
}

/// Adding then subtracting the same amount gives back the start.
pub proof fn lemma_add_sub_cancel(a: (int, int), b: (int, int))
    requires
        is_normal(a),
        b.1 > 0,
    ensures
        frac_sub(frac_add(a, b), b) == a,
{
    let (p, q) = (a.0 * b.1 + b.0 * a.1, a.1 * b.1);
    lemma_pos_mul(a.1, b.1);
    lemma_reduce_pos(p, q);
    lemma_sub_congr_left(frac_add(a, b), p, q, b);
    lemma_pos_mul(q, b.1);
    assert((p * b.1 - b.0 * q) * a.1 == a.0 * (q * b.1)) by (nonlinear_arith)
        requires
            p == a.0 * b.1 + b.0 * a.1,
            q == a.1 * b.1,
    ;
    lemma_reduce_same(p * b.1 - b.0 * q, q * b.1, a.0, a.1);
    lemma_reduce_normal(a);
}

/// Subtracting then adding the same amount gives back the start.
pub proof fn lemma_sub_add_cancel(a: (int, int), b: (int, int))
    requires
        is_normal(a),
        b.1 > 0,
    ensures
        frac_add(frac_sub(a, b), b) == a,
{
    let (p, q) = (a.0 * b.1 - b.0 * a.1, a.1 * b.1);
    lemma_pos_mul(a.1, b.1);
    lemma_reduce_pos(p, q);
    lemma_add_congr_left(frac_sub(a, b), p, q, b);
    lemma_pos_mul(q, b.1);
    assert((p * b.1 + b.0 * q) * a.1 == a.0 * (q * b.1)) by (nonlinear_arith)
        requires
            p == a.0 * b.1 - b.0 * a.1,
            q == a.1 * b.1,
    ;
    lemma_reduce_same(p * b.1 + b.0 * q, q * b.1, a.0, a.1);
    lemma_reduce_normal(a);
}

/// Two additions commute: `(s + e) + d == (s + d) + e`.
pub proof fn lemma_add_swap(s: (int, int), e: (int, int), d: (int, int))
    requires
        s.1 > 0,
        e.1 > 0,
        d.1 > 0,
    ensures
        frac_add(frac_add(s, e), d) == frac_add(frac_add(s, d), e),
{
    let (p1, q1) = (s.0 * e.1 + e.0 * s.1, s.1 * e.1);
    let (p2, q2) = (s.0 * d.1 + d.0 * s.1, s.1 * d.1);
    lemma_pos_mul(s.1, e.1);
    lemma_pos_mul(s.1, d.1);
    lemma_reduce_pos(p1, q1);
    lemma_reduce_pos(p2, q2);
    lemma_add_congr_left(frac_add(s, e), p1, q1, d);
    lemma_add_congr_left(frac_add(s, d), p2, q2, e);
    assert(p1 * d.1 + d.0 * q1 == p2 * e.1 + e.0 * q2) by (nonlinear_arith)
        requires
            p1 == s.0 * e.1 + e.0 * s.1,
            q1 == s.1 * e.1,
            p2 == s.0 * d.1 + d.0 * s.1,
            q2 == s.1 * d.1,
    ;
    assert(q1 * d.1 == q2 * e.1) by (nonlinear_arith)
        requires
            q1 == s.1 * e.1,
            q2 == s.1 * d.1,
    ;
}

/// Subtraction and addition commute: `(s - d) + e == (s + e) - d`.
pub proof fn lemma_sub_add_swap(s: (int, int), e: (int, int), d: (int, int))
    requires
        s.1 > 0,
        e.1 > 0,
        d.1 > 0,
    ensures
        frac_add(frac_sub(s, d), e) == frac_sub(frac_add(s, e), d),
{
    let (p1, q1) = (s.0 * d.1 - d.0 * s.1, s.1 * d.1);
    let (p2, q2) = (s.0 * e.1 + e.0 * s.1, s.1 * e.1);
    lemma_pos_mul(s.1, e.1);
    lemma_pos_mul(s.1, d.1);
    lemma_reduce_pos(p1, q1);
    lemma_reduce_pos(p2, q2);
    lemma_add_congr_left(frac_sub(s, d), p1, q1, e);
    lemma_sub_congr_left(frac_add(s, e), p2, q2, d);
    lemma_distr_sub(s.0 * d.1, d.0 * s.1, e.1);
    lemma_distr_add(s.0 * e.1, e.0 * s.1, d.1);
    lemma_mul_swap3(s.0, d.1, e.1);
    lemma_mul_swap3(d.0, s.1, e.1);
    lemma_mul_swap3(e.0, s.1, d.1);
    lemma_mul_swap3(d.0, s.1, e.1);
    assert(p1 * e.1 + e.0 * q1 == p2 * d.1 - d.0 * q2);
    assert(q1 * e.1 == q2 * d.1) by (nonlinear_arith)
        requires
            q1 == s.1 * d.1,
            q2 == s.1 * e.1,
    ;
}

/// Regrouping: `(s + a) - b == s + (a - b)`.
pub proof fn lemma_add_sub_assoc(s: (int, int), a: (int, int), b: (int, int))
    requires
        s.1 > 0,
        a.1 > 0,
        b.1 > 0,
    ensures
        frac_sub(frac_add(s, a), b) == frac_add(s, frac_sub(a, b)),
{
    let (p1, q1) = (s.0 * a.1 + a.0 * s.1, s.1 * a.1);
    let (p2, q2) = (a.0 * b.1 - b.0 * a.1, a.1 * b.1);
    lemma_pos_mul(s.1, a.1);
    lemma_pos_mul(a.1, b.1);
    lemma_reduce_pos(p1, q1);
    lemma_reduce_pos(p2, q2);
    lemma_sub_congr_left(frac_add(s, a), p1, q1, b);
    lemma_add_congr_right(s, frac_sub(a, b), p2, q2);
    lemma_distr_add(s.0 * a.1, a.0 * s.1, b.1);
    lemma_distr_sub(a.0 * b.1, b.0 * a.1, s.1);
    lemma_mul_swap3(s.0, a.1, b.1);
    lemma_mul_swap3(a.0, s.1, b.1);
    lemma_mul_swap3(a.0, b.1, s.1);
    lemma_mul_swap3(b.0, s.1, a.1);
    lemma_mul_swap3(b.0, a.1, s.1);
    lemma_mul_swap3(s.1, a.1, 1);
    assert(p1 * b.1 - b.0 * q1 == s.0 * q2 + p2 * s.1);
    assert(q1 * b.1 == s.1 * q2) by (nonlinear_arith)
        requires
            q1 == s.1 * a.1,
            q2 == a.1 * b.1,
    ;
}

/// Regrouping: `(s + a) + (b - a) == s + b`.
pub proof fn lemma_add_delta(s: (int, int), a: (int, int), b: (int, int))
    requires
        s.1 > 0,
        a.1 > 0,
        b.1 > 0,
    ensures
        frac_add(frac_add(s, a), frac_sub(b, a)) == frac_add(s, b),
{
    lemma_pos_mul(s.1, a.1);
    lemma_reduce_pos(s.0 * a.1 + a.0 * s.1, s.1 * a.1);
    let x = frac_add(s, a);
    // x + (b - a) == (x + b) - a
    lemma_add_sub_assoc(x, b, a);
    // (x + b) == (s + b) + a
    lemma_add_swap(s, a, b);
    lemma_pos_mul(s.1, b.1);
    lemma_reduce_pos(s.0 * b.1 + b.0 * s.1, s.1 * b.1);
    lemma_add_sub_cancel(frac_add(s, b), a);
}

/// Sums and differences of fractions with positive denominators are in lowest terms.
pub proof fn lemma_add_sub_normal(a: (int, int), b: (int, int))
    requires
        a.1 > 0,
        b.1 > 0,
    ensures
        is_normal(frac_add(a, b)),
        is_normal(frac_sub(a, b)),
{
    lemma_pos_mul(a.1, b.1);
    lemma_reduce_pos(a.0 * b.1 + b.0 * a.1, a.1 * b.1);
    lemma_reduce_pos(a.0 * b.1 - b.0 * a.1, a.1 * b.1);
}

/// Reducing `n / d` with `d > 0` keeps the sign of `n` and never grows a term.
pub proof fn lemma_reduce_bounds(n: int, d: int)
    requires
        d > 0,
    ensures
        n > 0 ==> reduce(n, d).0 > 0,
        n == 0 ==> reduce(n, d).0 == 0,
        n < 0 ==> reduce(n, d).0 < 0,
        abs_nat(reduce(n, d).0) <= abs_nat(n),
        0 < reduce(n, d).1 <= d,
{
    let a = abs_nat(n);
    let b = abs_nat(d);
    lemma_gcd_divides(a, b);
    let g = gcd_spec(a, b) as int;
    assert(n * 1 == n && d * 1 == d);
    lemma_exact_div(n, g);
    lemma_exact_div(d, g);
    let p = n / g;
    let q = d / g;
    assert(reduce(n, d) == (p, q));
    assert(0 < q <= d) by (nonlinear_arith)
        requires
            d == g * q,
            d > 0,
            g >= 1,
    ;
    assert(abs_nat(p) <= abs_nat(n) && (n > 0 ==> p > 0) && (n == 0 ==> p == 0) && (n < 0 ==> p
        < 0)) by (nonlinear_arith)
        requires
            n == g * p,
            g >= 1,
            abs_nat(p) == (if p < 0 { -p } else { p }),
            abs_nat(n) == (if n < 0 { -n } else { n }),
    ;
}

} // verus!
