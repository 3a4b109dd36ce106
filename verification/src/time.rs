//! Canonical time model.
//!
//! Edit math is exact and rate-agnostic: `24 frames @ 24 fps` and
//! `30 frames @ 30 fps` are the same instant (one second) and compare equal.
//! Positions and durations on the timeline use [`Time`], an exact rational
//! number of seconds, and frame rates use [`Rational`]. Conversion to and from
//! a frame index is always explicit and names the rate it applies.

use vstd::prelude::*;
use vstd::std_specs::ops::{AddSpecImpl, DivSpecImpl, MulSpecImpl, NegSpecImpl, SubSpecImpl};
use crate::arith::{
    abs_nat, fits_i64, frac_add, frac_div, frac_mul, frac_sub, gcd_spec, is_normal,
    lemma_gcd_divides, lemma_int_normal, lemma_nearest_from_div, lemma_reduce, nearest_int, reduce,
    value_lt,
};

verus! {

/// Euclid's algorithm on magnitudes; a zero result is lifted to `1`.
fn gcd(a: i128, b: i128) -> (g: i128)
    requires
        a > i128::MIN,
        b > i128::MIN,
    ensures
        g as int == (if gcd_spec(abs_nat(a as int), abs_nat(b as int)) == 0 {
            1
        } else {
            gcd_spec(abs_nat(a as int), abs_nat(b as int)) as int
        }),
{
    let mut x: i128 = if a < 0 { -a } else { a };
    let mut y: i128 = if b < 0 { -b } else { b };
    while y != 0
        invariant
            x >= 0,
            y >= 0,
            gcd_spec(x as nat, y as nat) == gcd_spec(abs_nat(a as int), abs_nat(b as int)),
        decreases y,
    {
        let t = x % y;
        x = y;
        y = t;
    }
    if x >= 1 {
        x
    } else {
        1
    }
}

/// `n / d` brought to lowest terms with a positive denominator, computed in
/// `i128` and narrowed to `i64` (the reduced terms must fit).
fn reduce_i128(n: i128, d: i128) -> (r: (i64, i64))
    requires
        i128::MIN < n,
        i128::MIN < d,
        fits_i64(reduce(n as int, d as int)),
    ensures
        (r.0 as int, r.1 as int) == reduce(n as int, d as int),
{
    let sign: i128 = if d < 0 { -1 } else { 1 };
    let n1: i128 = if d < 0 { -n } else { n };
    let d1: i128 = if d < 0 { -d } else { d };
    assert(n1 as int == n as int * sign as int && d1 as int == d as int * sign as int)
        by (nonlinear_arith)
        requires
            sign as int == (if d < 0 { -1int } else { 1int }),
            n1 as int == (if d < 0 { -(n as int) } else { n as int }),
            d1 as int == (if d < 0 { -(d as int) } else { d as int }),
    ;
    let g = gcd(n1, d1);
    proof {
        let a = abs_nat(n1 as int);
        let b = abs_nat(d1 as int);
        lemma_gcd_divides(a, b);
    }
    let (p, q) = (exact_div(n1, g), exact_div(d1, g));
    (p as i64, q as i64)
}

/// Division of `n` by an exact positive divisor `g`.
fn exact_div(n: i128, g: i128) -> (q: i128)
    requires
        g >= 1,
        i128::MIN < n,
        abs_nat(n as int) as int % (g as int) == 0,
    ensures
        q as int == n as int / g as int,
{
    if n >= 0 {
        n / g
    } else {
        let m: i128 = -n;
        let k: i128 = m / g;
        proof {
            vstd::arithmetic::div_mod::lemma_fundamental_div_mod(m as int, g as int);
            assert(n as int == (-(k as int)) * (g as int) + 0) by (nonlinear_arith)
                requires
                    m as int == (g as int) * (k as int) + 0,
                    n as int == -(m as int),
            ;
            vstd::arithmetic::div_mod::lemma_fundamental_div_mod_converse(
                n as int,
                g as int,
                -(k as int),
                0,
            );
            assert(k >= 0) by (nonlinear_arith)
                requires
                    m as int == (g as int) * (k as int),
                    m >= 0,
                    g >= 1,
            ;
        }
        -k
    }
}

/// An exact rational number, kept in lowest terms with a positive denominator.
///
/// Used for frame rates (e.g. `24000/1001` for 23.976 fps) and as the backing
/// representation of [`Time`].
#[derive(Debug, Clone, Copy, PartialEq, Eq, Structural, Hash)]
pub struct Rational {
    num: i64,
    den: i64,
}

impl View for Rational {
    type V = (int, int);

    /// `(numerator, denominator)` as mathematical integers.
    closed spec fn view(&self) -> (int, int) {
        (self.num as int, self.den as int)
    }
}

impl Rational {
    #[verifier::type_invariant]
    closed spec fn lowest_terms(self) -> bool {
        is_normal(self@)
    }

    /// The rational whose terms are `v` (meaningful when `v` fits in `i64`).
    pub closed spec fn from_terms(v: (int, int)) -> Rational {
        Rational { num: v.0 as i64, den: v.1 as i64 }
    }

    /// Terms that fit are carried through unchanged.
    pub broadcast proof fn lemma_from_terms(v: (int, int))
        requires
            fits_i64(v),
        ensures
            #[trigger] Rational::from_terms(v)@ == v,
    {
    }

    /// Rationals with the same terms are the same value.
    pub proof fn lemma_view_eq(a: Rational, b: Rational)
        requires
            a@ == b@,
        ensures
            a == b,
    {
    }

    /// Creates `num/den`, reduced to lowest terms with a positive denominator.
    pub fn new(num: i64, den: i64) -> (r: Rational)
        requires
            den != 0,
            fits_i64(reduce(num as int, den as int)),
        ensures
            r@ == reduce(num as int, den as int),
            is_normal(r@),
    {
        let (n, d) = reduce_i128(i128::from(num), i128::from(den));
        proof {
            lemma_reduce(num as int, den as int);
        }
        Rational { num: n, den: d }
    }

    /// The whole number `n` as `n/1`.
    pub fn from_int(n: i64) -> (r: Rational)
        ensures
            r@ == (n as int, 1int),
    {
        proof {
            lemma_int_normal(n as int);
        }
        Rational { num: n, den: 1 }
    }

    /// Numerator (the sign lives here; the denominator is always positive).
    pub fn numerator(self) -> (r: i64)
        ensures
            r as int == self@.0,
    {
        self.num
    }

    /// Denominator (always positive).
    pub fn denominator(self) -> (r: i64)
        ensures
            r as int == self@.1,
            r > 0,
    {
        proof {
            use_type_invariant(&self);
        }
        self.den
    }

    /// Builds a rational from `i128` terms that reduce into `i64` range.
    fn from_i128(num: i128, den: i128) -> (r: Rational)
        requires
            den != 0,
            i128::MIN < num,
            i128::MIN < den,
            fits_i64(reduce(num as int, den as int)),
        ensures
            r@ == reduce(num as int, den as int),
    {
        let (n, d) = reduce_i128(num, den);
        proof {
            lemma_reduce(num as int, den as int);
        }
        Rational { num: n, den: d }
    }
}

/// `a * b` widened to `i128`; with `b > 0` its magnitude stays below `2^126`.
fn wide_mul(a: i64, b: i64) -> (r: i128)
    requires
        b > 0,
    ensures
        r as int == a as int * b as int,
        -0x4000_0000_0000_0000_0000_0000_0000_0000 < r < 0x4000_0000_0000_0000_0000_0000_0000_0000,
        a > 0 ==> r > 0,
{
    proof {
        assert(a > 0 ==> (a as int) * (b as int) > 0) by (nonlinear_arith)
            requires
                b > 0,
        ;
        assert(-0x4000_0000_0000_0000_0000_0000_0000_0000 < (a as int) * (b as int)
            < 0x4000_0000_0000_0000_0000_0000_0000_0000) by (nonlinear_arith)
            requires
                i64::MIN <= a <= i64::MAX,
                0 < b <= i64::MAX,
        ;
    }
    i128::from(a) * i128::from(b)
}

/// `a * b` widened to `i128`, for any two `i64` values.
fn wide_mul_any(a: i64, b: i64) -> (r: i128)
    ensures
        r as int == a as int * b as int,
        -0x4000_0000_0000_0000_0000_0000_0000_0001 < r <= 0x4000_0000_0000_0000_0000_0000_0000_0000,
{
    proof {
        assert(-0x4000_0000_0000_0000_0000_0000_0000_0001 < (a as int) * (b as int)
            <= 0x4000_0000_0000_0000_0000_0000_0000_0000) by (nonlinear_arith)
            requires
                i64::MIN <= a <= i64::MAX,
                i64::MIN <= b <= i64::MAX,
        ;
    }
    i128::from(a) * i128::from(b)
}

impl AddSpecImpl for Rational {
    open spec fn obeys_add_spec() -> bool {
        true
    }

    /// The reduced sum must fit in `i64` terms.
    open spec fn add_req(self, rhs: Rational) -> bool {
        fits_i64(frac_add(self@, rhs@))
    }

    open spec fn add_spec(self, rhs: Rational) -> Rational {
        Rational::from_terms(frac_add(self@, rhs@))
    }
}

impl core::ops::Add for Rational {
    type Output = Rational;

    fn add(self, rhs: Rational) -> (r: Rational)
        ensures
            r@ == frac_add(self@, rhs@),
    {
        proof {
            use_type_invariant(&self);
            use_type_invariant(&rhs);
        }
        let num = wide_mul(self.num, rhs.den) + wide_mul(rhs.num, self.den);
        Rational::from_i128(num, wide_mul(self.den, rhs.den))
    }
}

impl NegSpecImpl for Rational {
    open spec fn obeys_neg_spec() -> bool {
        true
    }

    /// Negating `i64::MIN` would overflow.
    open spec fn neg_req(self) -> bool {
        self@.0 != i64::MIN
    }

    open spec fn neg_spec(self) -> Rational {
        Rational::from_terms((-self@.0, self@.1))
    }
}

impl core::ops::Neg for Rational {
    type Output = Rational;

    fn neg(self) -> (r: Rational)
        ensures
            r@ == (-self@.0, self@.1),
    {
        proof {
            use_type_invariant(&self);
            assert(abs_nat(-self@.0) == abs_nat(self@.0));
        }
        Rational { num: -self.num, den: self.den }
    }
}

impl SubSpecImpl for Rational {
    open spec fn obeys_sub_spec() -> bool {
        true
    }

    /// The subtrahend must be negatable and the reduced difference must fit.
    open spec fn sub_req(self, rhs: Rational) -> bool {
        rhs@.0 != i64::MIN && fits_i64(frac_sub(self@, rhs@))
    }

    open spec fn sub_spec(self, rhs: Rational) -> Rational {
        Rational::from_terms(frac_sub(self@, rhs@))
    }
}

impl core::ops::Sub for Rational {
    type Output = Rational;

    fn sub(self, rhs: Rational) -> (r: Rational)
        ensures
            r@ == frac_sub(self@, rhs@),
    {
        proof {
            assert(frac_add(self@, (-rhs@.0, rhs@.1)) == frac_sub(self@, rhs@)) by {
                assert((-rhs@.0) * self@.1 == -(rhs@.0 * self@.1)) by (nonlinear_arith);
            }
        }
        self + core::ops::Neg::neg(rhs)
    }
}

impl MulSpecImpl for Rational {
    open spec fn obeys_mul_spec() -> bool {
        true
    }

    /// The reduced product must fit in `i64` terms.
    open spec fn mul_req(self, rhs: Rational) -> bool {
        fits_i64(frac_mul(self@, rhs@))
    }

    open spec fn mul_spec(self, rhs: Rational) -> Rational {
        Rational::from_terms(frac_mul(self@, rhs@))
    }
}

impl core::ops::Mul for Rational {
    type Output = Rational;

    fn mul(self, rhs: Rational) -> (r: Rational)
        ensures
            r@ == frac_mul(self@, rhs@),
    {
        proof {
            use_type_invariant(&self);
            use_type_invariant(&rhs);
        }
        Rational::from_i128(wide_mul_any(self.num, rhs.num), wide_mul(self.den, rhs.den))
    }
}

impl DivSpecImpl for Rational {
    open spec fn obeys_div_spec() -> bool {
        true
    }

    /// Division by zero is refused and the reduced quotient must fit.
    open spec fn div_req(self, rhs: Rational) -> bool {
        rhs@.0 != 0 && fits_i64(frac_div(self@, rhs@))
    }

    open spec fn div_spec(self, rhs: Rational) -> Rational {
        Rational::from_terms(frac_div(self@, rhs@))
    }
}

impl core::ops::Div for Rational {
    type Output = Rational;

    fn div(self, rhs: Rational) -> (r: Rational)
        ensures
            r@ == frac_div(self@, rhs@),
    {
        proof {
            use_type_invariant(&self);
            use_type_invariant(&rhs);
        }
        let den = wide_mul(rhs.num, self.den);
        proof {
            assert(rhs.num as int * self.den as int != 0) by (nonlinear_arith)
                requires
                    rhs.num != 0,
                    self.den > 0,
            ;
        }
        Rational::from_i128(wide_mul(self.num, rhs.den), den)
    }
}

impl Rational {
    /// Whether `self` is strictly below `other` as a number (cross-multiplied,
    /// exact in `i128`).
    pub fn less_than(self, other: Rational) -> (r: bool)
        ensures
            r == value_lt(self@, other@),
    {
        proof {
            use_type_invariant(&self);
            use_type_invariant(&other);
        }
        wide_mul(self.num, other.den) < wide_mul(other.num, self.den)
    }
}

/// Floor division of `n` by a positive `d`: `n == q * d + r` with `0 <= r < d`.
fn floor_div_rem(n: i128, d: i128) -> (qr: (i128, i128))
    requires
        d >= 1,
        i64::MIN <= n <= i64::MAX,
    ensures
        n as int == qr.0 as int * d as int + qr.1 as int,
        0 <= qr.1 < d,
        n >= 0 ==> 0 <= qr.0 <= n,
        n < 0 ==> n <= qr.0 < 0,
{
    if n >= 0 {
        let q = n / d;
        let r = n % d;
        proof {
            vstd::arithmetic::div_mod::lemma_fundamental_div_mod(n as int, d as int);
            assert(n as int == (q as int) * (d as int) + (r as int)) by (nonlinear_arith)
                requires
                    n as int == (d as int) * (q as int) + (r as int),
            ;
            assert(q <= n) by (nonlinear_arith)
                requires
                    n as int == (d as int) * (q as int) + (r as int),
                    0 <= r,
                    q >= 0,
                    d >= 1,
            ;
        }
        (q, r)
    } else {
        let m: i128 = -n;
        let q0 = m / d;
        let r0 = m % d;
        proof {
            vstd::arithmetic::div_mod::lemma_fundamental_div_mod(m as int, d as int);
            assert(q0 <= m) by (nonlinear_arith)
                requires
                    m as int == (d as int) * (q0 as int) + (r0 as int),
                    0 <= r0,
                    q0 >= 0,
                    d >= 1,
            ;
        }
        if r0 == 0 {
            proof {
                assert(n as int == (-(q0 as int)) * (d as int) + 0) by (nonlinear_arith)
                    requires
                        m as int == (d as int) * (q0 as int) + (r0 as int),
                        r0 == 0,
                        n == -m,
                ;
                assert(q0 >= 1) by (nonlinear_arith)
                    requires
                        m as int == (d as int) * (q0 as int),
                        m > 0,
                        q0 >= 0,
                ;
            }
            (-q0, 0)
        } else {
            proof {
                assert(n as int == (-(q0 as int) - 1) * (d as int) + (d - r0)) by (nonlinear_arith)
                    requires
                        m as int == (d as int) * (q0 as int) + (r0 as int),
                        n == -m,
                ;
                assert(q0 + 1 <= m) by (nonlinear_arith)
                    requires
                        m as int == (d as int) * (q0 as int) + (r0 as int),
                        0 < r0 < d,
                        q0 >= 0,
                ;
            }
            (-q0 - 1, d - r0)
        }
    }
}

/// An exact position or duration on a timeline, measured in seconds.
///
/// Comparisons and arithmetic are exact and independent of any frame rate.
/// Convert to and from a frame index with [`Time::from_frame`] and
/// [`Time::to_frame`], always naming the rate.
#[derive(Debug, Clone, Copy, PartialEq, Eq, Structural, Hash)]
pub struct Time {
    seconds: Rational,
}

impl View for Time {
    type V = (int, int);

    /// Seconds as `(numerator, denominator)`.
    closed spec fn view(&self) -> (int, int) {
        self.seconds@
    }
}

impl Time {
    /// The time whose exact seconds are `r`.
    pub closed spec fn from_rational(r: Rational) -> Time {
        Time { seconds: r }
    }

    /// A time built from a rational keeps its terms.
    pub broadcast proof fn lemma_from_rational(r: Rational)
        ensures
            #[trigger] Time::from_rational(r)@ == r@,
    {
    }

    /// Times with the same exact seconds are the same value.
    pub proof fn lemma_view_eq(a: Time, b: Time)
        requires
            a@ == b@,
        ensures
            a == b,
    {
        Rational::lemma_view_eq(a.seconds, b.seconds);
    }

    /// Every time is in lowest terms with a positive denominator.
    pub fn lowest_terms(&self)
        ensures
            is_normal(self@),
    {
        proof {
            use_type_invariant(&self.seconds);
        }
    }

    /// A time of exactly `seconds`.
    pub fn from_seconds(seconds: Rational) -> (t: Time)
        ensures
            t@ == seconds@,
    {
        Time { seconds }
    }

    /// The zero instant.
    pub fn zero() -> (t: Time)
        ensures
            t@ == (0int, 1int),
    {
        Time { seconds: Rational::from_int(0) }
    }

    /// The exact time of `frame` at the rate `fps`.
    pub fn from_frame(frame: i64, fps: Rational) -> (t: Time)
        requires
            fps@.0 != 0,
            fits_i64(frac_div((frame as int, 1int), fps@)),
        ensures
            t@ == frac_div((frame as int, 1int), fps@),
    {
        let whole = Rational::from_int(frame);
        Time { seconds: whole / fps }
    }

    /// The frame index this time lands on at rate `fps`, rounded to nearest
    /// with ties rounding up.
    pub fn to_frame(self, fps: Rational) -> (r: i64)
        requires
            fits_i64(frac_mul(self@, fps@)),
        ensures
            r as int == nearest_int(frac_mul(self@, fps@)),
    {
        let v = self.seconds * fps;
        let n = i128::from(v.numerator());
        let d = i128::from(v.denominator());
        let (q, rem) = floor_div_rem(n, d);
        proof {
            lemma_nearest_from_div(n as int, d as int, q as int, rem as int);
        }
        if 2 * rem >= d {
            proof {
                assert(q + 1 <= i64::MAX) by (nonlinear_arith)
                    requires
                        n as int == (q as int) * (d as int) + (rem as int),
                        0 <= rem < d,
                        2 * rem >= d,
                        n <= i64::MAX,
                        n >= 0 ==> 0 <= q <= n,
                        n < 0 ==> q < 0,
                ;
            }
            (q + 1) as i64
        } else {
            q as i64
        }
    }

    /// Whether `self` is strictly earlier than `other`.
    pub fn earlier_than(self, other: Time) -> (r: bool)
        ensures
            r == value_lt(self@, other@),
    {
        self.seconds.less_than(other.seconds)
    }

    /// Exact seconds as a [`Rational`].
    pub fn seconds(self) -> (r: Rational)
        ensures
            r@ == self@,
    {
        self.seconds
    }
}

impl AddSpecImpl for Time {
    open spec fn obeys_add_spec() -> bool {
        true
    }

    /// The reduced sum must fit in `i64` terms.
    open spec fn add_req(self, rhs: Time) -> bool {
        fits_i64(frac_add(self@, rhs@))
    }

    open spec fn add_spec(self, rhs: Time) -> Time {
        Time::from_rational(Rational::from_terms(frac_add(self@, rhs@)))
    }
}

impl core::ops::Add for Time {
    type Output = Time;

    fn add(self, rhs: Time) -> (r: Time)
        ensures
            r@ == frac_add(self@, rhs@),
    {
        Time { seconds: self.seconds + rhs.seconds }
    }
}

impl SubSpecImpl for Time {
    open spec fn obeys_sub_spec() -> bool {
        true
    }

    /// The subtrahend must be negatable and the reduced difference must fit.
    open spec fn sub_req(self, rhs: Time) -> bool {
        rhs@.0 != i64::MIN && fits_i64(frac_sub(self@, rhs@))
    }

    open spec fn sub_spec(self, rhs: Time) -> Time {
        Time::from_rational(Rational::from_terms(frac_sub(self@, rhs@)))
    }
}

impl core::ops::Sub for Time {
    type Output = Time;

    fn sub(self, rhs: Time) -> (r: Time)
        ensures
            r@ == frac_sub(self@, rhs@),
    {
        Time { seconds: self.seconds - rhs.seconds }
    }
}

} // verus!
