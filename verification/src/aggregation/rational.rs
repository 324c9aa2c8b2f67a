//! Non-negative fractions in lowest terms, computed by `num_rational::Ratio<u128>`.
use num_rational::Ratio;
use num_traits::ops::checked::{CheckedAdd, CheckedMul, CheckedSub};
use vstd::arithmetic::div_mod::*;
use vstd::arithmetic::mul::*;
use vstd::prelude::*;

verus! {

/// A mathematical fraction. Two fractions in lowest terms are equal exactly when their values are.
pub struct Fraction {
    pub numer: nat,
    pub denom: nat,
}

/// Greatest common divisor.
pub open spec fn gcd(a: nat, b: nat) -> nat
    decreases b,
{
    if b == 0 {
        a
    } else {
        gcd(b, a % b)
    }
}

/// `numer / denom` in lowest terms.
pub open spec fn lowest(numer: nat, denom: nat) -> Fraction {
    let g = gcd(numer, denom);
    Fraction { numer: numer / g, denom: denom / g }
}

impl Fraction {
    /// The denominator is positive and shares no factor with the numerator.
    pub open spec fn reduced(self) -> bool {
        &&& self.denom > 0
        &&& gcd(self.numer, self.denom) == 1
    }

    /// Both components are `u128` values.
    pub open spec fn fits(self) -> bool {
        &&& self.numer <= u128::MAX
        &&& self.denom <= u128::MAX
    }

    pub open spec fn floor(self) -> nat {
        self.numer / self.denom
    }

    /// The nearest integer; a half rounds up.
    pub open spec fn round(self) -> nat {
        round_div(self.numer, self.denom)
    }

    pub open spec fn times(self, other: Fraction) -> Fraction {
        lowest(self.numer * other.numer, self.denom * other.denom)
    }

    /// The least common denominator.
    pub open spec fn common_denom(self, other: Fraction) -> nat {
        self.denom / gcd(self.denom, other.denom) * other.denom
    }

    /// The numerator over the least common denominator with `other`.
    pub open spec fn scaled_numer(self, other: Fraction) -> nat {
        self.common_denom(other) / self.denom * self.numer
    }

    /// The numerator of `other` over the least common denominator.
    pub open spec fn other_numer(self, other: Fraction) -> nat {
        self.common_denom(other) / other.denom * other.numer
    }

    /// Bringing both fractions to their least common denominator stays within `u128`.
    pub open spec fn aligns(self, other: Fraction) -> bool {
        &&& self.common_denom(other) <= u128::MAX
        &&& self.scaled_numer(other) <= u128::MAX
        &&& self.other_numer(other) <= u128::MAX
    }

    /// The sum can be formed without leaving `u128`.
    pub open spec fn can_add(self, other: Fraction) -> bool {
        &&& self.aligns(other)
        &&& self.scaled_numer(other) + self.other_numer(other) <= u128::MAX
    }

    /// The difference is not negative and can be formed without leaving `u128`.
    pub open spec fn can_subtract(self, other: Fraction) -> bool {
        &&& self.aligns(other)
        &&& self.other_numer(other) <= self.scaled_numer(other)
    }

    pub open spec fn plus(self, other: Fraction) -> Fraction {
        lowest(self.scaled_numer(other) + self.other_numer(other), self.common_denom(other))
    }

    pub open spec fn minus(self, other: Fraction) -> Fraction {
        lowest(
            (self.scaled_numer(other) - self.other_numer(other)) as nat,
            self.common_denom(other),
        )
    }
}

/// `numer / denom` rounded to the nearest integer; a half rounds up.
pub open spec fn round_div(numer: nat, denom: nat) -> nat {
    if 2 * (numer % denom) >= denom {
        numer / denom + 1
    } else {
        numer / denom
    }
}

// ---------------------------------------------------------------------------------------------
// Greatest common divisors and lowest terms

pub proof fn lemma_multiple(d: nat, k: nat)
    requires
        d > 0,
    ensures
        (d * k) % d == 0,
        (d * k) / d == k,
{
    lemma_mod_multiples_basic(k as int, d as int);
    lemma_div_by_multiple(k as int, d as int);
    lemma_mul_is_commutative(d as int, k as int);
}

pub proof fn lemma_divisible(n: nat, d: nat)
    requires
        d > 0,
        n % d == 0,
    ensures
        n == d * (n / d),
{
    lemma_fundamental_div_mod(n as int, d as int);
}

proof fn lemma_divides_sum(a: nat, b: nat, d: nat)
    requires
        d > 0,
        a % d == 0,
        b % d == 0,
    ensures
        (a + b) % d == 0,
{
    lemma_divisible(a, d);
    lemma_divisible(b, d);
    lemma_mul_is_distributive_add(d as int, (a / d) as int, (b / d) as int);
    lemma_multiple(d, a / d + b / d);
}

proof fn lemma_divides_product(a: nat, b: nat, d: nat)
    requires
        d > 0,
        a % d == 0,
    ensures
        (a * b) % d == 0,
{
    lemma_divisible(a, d);
    lemma_mul_is_associative(d as int, (a / d) as int, b as int);
    lemma_multiple(d, (a / d) * b);
}

/// The greatest common divisor divides both numbers.
pub proof fn lemma_gcd_divides(a: nat, b: nat)
    requires
        a > 0 || b > 0,
    ensures
        gcd(a, b) > 0,
        a % gcd(a, b) == 0,
        b % gcd(a, b) == 0,
    decreases b,
{
    if b == 0 {
        lemma_multiple(a, 1);
        lemma_multiple(a, 0);
    } else {
        let r = a % b;
        lemma_gcd_divides(b, r);
        let g = gcd(a, b);
        lemma_fundamental_div_mod(a as int, b as int);
        lemma_divides_product(b, a / b, g);
        lemma_divides_sum(b * (a / b), r, g);
    }
}

/// Every common divisor of two numbers divides their greatest one.
pub proof fn lemma_gcd_greatest(a: nat, b: nat, c: nat)
    requires
        c > 0,
        a % c == 0,
        b % c == 0,
    ensures
        gcd(a, b) % c == 0,
    decreases b,
{
    if b != 0 {
        let r = a % b;
        lemma_fundamental_div_mod(a as int, b as int);
        assert(r % c == 0) by {
            lemma_divisible(a, c);
            lemma_divisible(b, c);
            let k = a / c - (b / c) * (a / b);
            assert(r == c * k) by (nonlinear_arith)
                requires
                    a == c * (a / c),
                    b == c * (b / c),
                    a == b * (a / b) + r,
                    k == a / c - (b / c) * (a / b),
            ;
            assert(k >= 0) by (nonlinear_arith)
                requires
                    r == c * k,
                    r >= 0,
                    c > 0,
            ;
            lemma_multiple(c, k as nat);
        }
        lemma_gcd_greatest(b, r, c);
    }
}

proof fn lemma_gcd_scale(k: nat, a: nat, b: nat)
    requires
        k > 0,
    ensures
        gcd(k * a, k * b) == k * gcd(a, b),
    decreases b,
{
    if b == 0 {
        assert(k * b == 0);
    } else {
        lemma_mul_strictly_positive(k as int, b as int);
        lemma_truncate_middle(a as int, k as int, b as int);
        lemma_gcd_scale(k, b, a % b);
    }
}

pub proof fn lemma_lowest(numer: nat, denom: nat)
    requires
        denom > 0,
    ensures
        lowest(numer, denom).reduced(),
        numer == gcd(numer, denom) * lowest(numer, denom).numer,
        denom == gcd(numer, denom) * lowest(numer, denom).denom,
        gcd(numer, denom) > 0,
        lowest(numer, denom).numer <= numer,
        lowest(numer, denom).denom <= denom,
        numer * lowest(numer, denom).denom == lowest(numer, denom).numer * denom,
{
    let g = gcd(numer, denom);
    let f = lowest(numer, denom);
    lemma_gcd_divides(numer, denom);
    lemma_divisible(numer, g);
    lemma_divisible(denom, g);
    lemma_gcd_scale(g, f.numer, f.denom);
    assert(gcd(f.numer, f.denom) == 1) by (nonlinear_arith)
        requires
            g == g * gcd(f.numer, f.denom),
            g > 0,
    ;
    assert(f.denom > 0 && f.numer <= numer && f.denom <= denom) by (nonlinear_arith)
        requires
            denom == g * f.denom,
            numer == g * f.numer,
            denom > 0,
            g > 0,
    ;
    assert(numer * f.denom == f.numer * denom) by (nonlinear_arith)
        requires
            numer == g * f.numer,
            denom == g * f.denom,
    ;
}

/// A divisor of `a * b` that shares no factor with `a` divides `b`.
proof fn lemma_coprime_divides(a: nat, b: nat, d: nat)
    requires
        d > 0,
        gcd(a, d) == 1,
        (a * b) % d == 0,
    ensures
        b % d == 0,
{
    if b == 0 {
        lemma_multiple(d, 0);
    } else {
        lemma_gcd_scale(b, a, d);
        lemma_mul_is_commutative(a as int, b as int);
        lemma_multiple(d, b);
        lemma_mul_is_commutative(d as int, b as int);
        lemma_gcd_greatest(b * a, b * d, d);
    }
}

/// Fractions in lowest terms are determined by their value.
pub proof fn lemma_lowest_unique(n1: nat, d1: nat, n2: nat, d2: nat)
    requires
        d1 > 0,
        d2 > 0,
        n1 * d2 == n2 * d1,
    ensures
        lowest(n1, d1) == lowest(n2, d2),
{
    lemma_lowest(n1, d1);
    lemma_lowest(n2, d2);
    let f = lowest(n1, d1);
    let h = lowest(n2, d2);
    let g1 = gcd(n1, d1);
    let g2 = gcd(n2, d2);
    assert(f.numer * h.denom == h.numer * f.denom) by (nonlinear_arith)
        requires
            n1 * d2 == n2 * d1,
            n1 == g1 * f.numer,
            d1 == g1 * f.denom,
            n2 == g2 * h.numer,
            d2 == g2 * h.denom,
            g1 > 0,
            g2 > 0,
    {
        assert((g1 * g2) * (f.numer * h.denom) == (g1 * g2) * (h.numer * f.denom));
    }
    lemma_multiple(f.denom, h.numer);
    lemma_mul_is_commutative(f.denom as int, h.numer as int);
    lemma_coprime_divides(f.numer, h.denom, f.denom);
    lemma_multiple(h.denom, f.numer);
    lemma_mul_is_commutative(h.denom as int, f.numer as int);
    lemma_coprime_divides(h.numer, f.denom, h.denom);
    lemma_divisible(h.denom, f.denom);
    lemma_divisible(f.denom, h.denom);
    let x = h.denom / f.denom;
    let y = f.denom / h.denom;
    assert(f.denom == h.denom) by (nonlinear_arith)
        requires
            h.denom == f.denom * x,
            f.denom == h.denom * y,
            f.denom > 0,
            h.denom > 0,
            x >= 0,
            y >= 0,
    ;
    assert(f.numer == h.numer) by (nonlinear_arith)
        requires
            f.numer * h.denom == h.numer * f.denom,
            f.denom == h.denom,
            f.denom > 0,
    ;
}

/// A fraction in lowest terms is its own reduction.
pub proof fn lemma_reduced_is_lowest(f: Fraction)
    requires
        f.reduced(),
    ensures
        lowest(f.numer, f.denom) == f,
{
    lemma_div_basics(f.numer as int);
    lemma_div_basics(f.denom as int);
}

/// Rounding and flooring depend on the value alone.
pub proof fn lemma_lowest_rounds(numer: nat, denom: nat)
    requires
        denom > 0,
    ensures
        lowest(numer, denom).floor() == numer / denom,
        lowest(numer, denom).round() == round_div(numer, denom),
        lowest(numer, denom).numer % lowest(numer, denom).denom * gcd(numer, denom) == numer
            % denom,
{
    lemma_lowest(numer, denom);
    let g = gcd(numer, denom);
    let f = lowest(numer, denom);
    lemma_truncate_middle(f.numer as int, g as int, f.denom as int);
    lemma_div_denominator(numer as int, g as int, f.denom as int);
    lemma_div_multiples_vanish_quotient(g as int, f.numer as int, f.denom as int);
    lemma_mul_is_commutative(g as int, (f.numer % f.denom) as int);
    let r = f.numer % f.denom;
    assert((2 * r >= f.denom) == (2 * (g * r) >= g * f.denom)) by (nonlinear_arith)
        requires
            g > 0,
    ;
}

/// The least common denominator is a common multiple, and a divisor of every common multiple.
pub proof fn lemma_common_denom(a: Fraction, b: Fraction, m: nat)
    requires
        a.denom > 0,
        b.denom > 0,
        m > 0,
        m % a.denom == 0,
        m % b.denom == 0,
    ensures
        0 < a.common_denom(b) <= m,
        a.common_denom(b) % a.denom == 0,
        a.common_denom(b) % b.denom == 0,
        m % a.common_denom(b) == 0,
{
    let g = gcd(a.denom, b.denom);
    let l = a.common_denom(b);
    lemma_gcd_divides(a.denom, b.denom);
    lemma_divisible(a.denom, g);
    lemma_divisible(b.denom, g);
    let x = a.denom / g;
    let y = b.denom / g;
    assert(x > 0 && y > 0) by (nonlinear_arith)
        requires
            a.denom == g * x,
            b.denom == g * y,
            a.denom > 0,
            b.denom > 0,
    ;
    assert(l == x * b.denom && l == a.denom * y) by (nonlinear_arith)
        requires
            l == x * b.denom,
            a.denom == g * x,
            b.denom == g * y,
    ;
    lemma_mul_strictly_positive(x as int, b.denom as int);
    lemma_multiple(a.denom, y);
    lemma_multiple(b.denom, x);
    lemma_mul_is_commutative(b.denom as int, x as int);
    // m == a.denom * p == b.denom * q, hence x * p == y * q with x and y coprime.
    lemma_divisible(m, a.denom);
    lemma_divisible(m, b.denom);
    let p = m / a.denom;
    let q = m / b.denom;
    assert(x * p == y * q) by (nonlinear_arith)
        requires
            m == a.denom * p,
            m == b.denom * q,
            a.denom == g * x,
            b.denom == g * y,
            g > 0,
    {
        assert(g * (x * p) == g * (y * q));
    }
    lemma_gcd_scale(g, x, y);
    assert(gcd(x, y) == 1) by (nonlinear_arith)
        requires
            g == g * gcd(x, y),
            g > 0,
    ;
    lemma_multiple(y, q);
    lemma_coprime_divides(x, p, y);
    lemma_divisible(p, y);
    let s = p / y;
    assert(m == l * s) by (nonlinear_arith)
        requires
            m == a.denom * p,
            p == y * s,
            l == a.denom * y,
    ;
    lemma_multiple(l, s);
    assert(l <= m) by (nonlinear_arith)
        requires
            m == l * s,
            m > 0,
            s >= 0,
    ;
}

/// Over any common multiple `m` of the denominators, where `a` is `x / m` and `b` is `y / m`,
/// the aligned numerators are at most `x` and `y`, and sum and difference are `(x + y) / m` and
/// `(x - y) / m`.
pub proof fn lemma_align(a: Fraction, b: Fraction, x: nat, y: nat, m: nat)
    requires
        a.denom > 0,
        b.denom > 0,
        m > 0,
        m % a.denom == 0,
        m % b.denom == 0,
        a.numer * m == x * a.denom,
        b.numer * m == y * b.denom,
    ensures
        0 < a.common_denom(b) <= m,
        a.scaled_numer(b) <= x,
        a.other_numer(b) <= y,
        a.scaled_numer(b) + a.other_numer(b) <= x + y,
        a.plus(b) == lowest(x + y, m),
        (a.other_numer(b) <= a.scaled_numer(b)) == (y <= x),
        y <= x ==> a.minus(b) == lowest((x - y) as nat, m),
{
    lemma_common_denom(a, b, m);
    let l = a.common_denom(b);
    lemma_divisible(m, l);
    let s = m / l;
    assert(s > 0) by (nonlinear_arith)
        requires
            m == l * s,
            m > 0,
    ;
    lemma_divisible(l, a.denom);
    lemma_divisible(l, b.denom);
    let u = l / a.denom;
    let v = l / b.denom;
    let xs = a.scaled_numer(b);
    let ys = a.other_numer(b);
    assert(x == xs * s) by (nonlinear_arith)
        requires
            a.numer * m == x * a.denom,
            m == l * s,
            l == a.denom * u,
            xs == u * a.numer,
            a.denom > 0,
    {
        assert(a.denom * x == a.denom * (xs * s));
    }
    assert(y == ys * s) by (nonlinear_arith)
        requires
            b.numer * m == y * b.denom,
            m == l * s,
            l == b.denom * v,
            ys == v * b.numer,
            b.denom > 0,
    {
        assert(b.denom * y == b.denom * (ys * s));
    }
    assert(xs <= x && ys <= y && (xs + ys) * m == (x + y) * l && (ys <= xs) == (y <= x) && (xs
        - ys) * m == (x - y) * l) by (nonlinear_arith)
        requires
            x == xs * s,
            y == ys * s,
            m == l * s,
            s > 0,
            xs >= 0,
            ys >= 0,
    ;
    lemma_lowest_unique(xs + ys, l, x + y, m);
    if y <= x {
        lemma_lowest_unique((xs - ys) as nat, l, (x - y) as nat, m);
    }
}

// ---------------------------------------------------------------------------------------------
// Operations of `num_rational::Ratio<u128>` on raw numerators and denominators

/// `num_rational::Ratio::new`: the fraction in lowest terms. It panics on a zero denominator.
#[verifier::external_body]
fn ratio_new(numer: u128, denom: u128) -> (r: (u128, u128))
    requires
        denom > 0,
    ensures
        raw(r) == lowest(numer as nat, denom as nat),
{
    Ratio::new(numer, denom).into_raw()
}

/// `num_rational::Ratio::floor`: the largest integer that is not above the fraction, over one.
#[verifier::external_body]
fn ratio_floor(a: (u128, u128)) -> (r: (u128, u128))
    requires
        raw(a).reduced(),
    ensures
        r.0 == raw(a).floor(),
        r.1 == 1,
{
    Ratio::new_raw(a.0, a.1).floor().into_raw()
}

/// `num_rational::Ratio::round`: the nearest integer over one; halves round away from zero.
#[verifier::external_body]
fn ratio_round(a: (u128, u128)) -> (r: (u128, u128))
    requires
        raw(a).reduced(),
    ensures
        r.0 == raw(a).round(),
        r.1 == 1,
{
    Ratio::new_raw(a.0, a.1).round().into_raw()
}

/// `num_traits::CheckedMul` of `num_rational::Ratio`: on fractions in lowest terms, the product in
/// lowest terms, or `None` where one of its components leaves `u128`.
#[verifier::external_body]
fn ratio_checked_mul(a: (u128, u128), b: (u128, u128)) -> (r: Option<(u128, u128)>)
    requires
        raw(a).reduced(),
        raw(b).reduced(),
    ensures
        r is Some <==> raw(a).times(raw(b)).fits(),
        r matches Some(p) ==> raw(p) == raw(a).times(raw(b)),
{
    let product = CheckedMul::checked_mul(&Ratio::new_raw(a.0, a.1), &Ratio::new_raw(b.0, b.1));
    match product {
        Some(p) => Some(p.into_raw()),
        None => None,
    }
}

/// `num_traits::CheckedAdd` of `num_rational::Ratio`: the sum in lowest terms, or `None` where the
/// least common denominator, an aligned numerator or their sum leaves `u128`.
#[verifier::external_body]
fn ratio_checked_add(a: (u128, u128), b: (u128, u128)) -> (r: Option<(u128, u128)>)
    requires
        raw(a).reduced(),
        raw(b).reduced(),
    ensures
        r is Some <==> raw(a).can_add(raw(b)),
        r matches Some(p) ==> raw(p) == raw(a).plus(raw(b)),
{
    let sum = CheckedAdd::checked_add(&Ratio::new_raw(a.0, a.1), &Ratio::new_raw(b.0, b.1));
    match sum {
        Some(p) => Some(p.into_raw()),
        None => None,
    }
}

/// `num_traits::CheckedSub` of `num_rational::Ratio`: the difference in lowest terms, or `None`
/// where the least common denominator or an aligned numerator leaves `u128`, or the difference is
/// negative.
#[verifier::external_body]
fn ratio_checked_sub(a: (u128, u128), b: (u128, u128)) -> (r: Option<(u128, u128)>)
    requires
        raw(a).reduced(),
        raw(b).reduced(),
    ensures
        r is Some <==> raw(a).can_subtract(raw(b)),
        r matches Some(p) ==> raw(p) == raw(a).minus(raw(b)),
{
    let difference = CheckedSub::checked_sub(&Ratio::new_raw(a.0, a.1), &Ratio::new_raw(b.0, b.1));
    match difference {
        Some(p) => Some(p.into_raw()),
        None => None,
    }
}

/// `core::ops::Add` of `num_rational::Ratio`: the sum in lowest terms. It overflows where
/// `ratio_checked_add` gives `None`.
#[verifier::external_body]
fn ratio_add(a: (u128, u128), b: (u128, u128)) -> (r: (u128, u128))
    requires
        raw(a).reduced(),
        raw(b).reduced(),
        raw(a).can_add(raw(b)),
    ensures
        raw(r) == raw(a).plus(raw(b)),
{
    (Ratio::new_raw(a.0, a.1) + Ratio::new_raw(b.0, b.1)).into_raw()
}

/// `core::ops::Sub` of `num_rational::Ratio`: the difference in lowest terms. It overflows where
/// `ratio_checked_sub` gives `None`.
#[verifier::external_body]
fn ratio_sub(a: (u128, u128), b: (u128, u128)) -> (r: (u128, u128))
    requires
        raw(a).reduced(),
        raw(b).reduced(),
        raw(a).can_subtract(raw(b)),
    ensures
        raw(r) == raw(a).minus(raw(b)),
{
    (Ratio::new_raw(a.0, a.1) - Ratio::new_raw(b.0, b.1)).into_raw()
}

/// `core::ops::Mul<u128>` of `num_rational::Ratio`: the product with an integer, in lowest terms.
/// It overflows where the product's numerator leaves `u128`.
#[verifier::external_body]
fn ratio_scale(a: (u128, u128), factor: u128) -> (r: (u128, u128))
    requires
        raw(a).reduced(),
        raw(a).times(whole(factor as nat)).fits(),
    ensures
        raw(r) == raw(a).times(whole(factor as nat)),
{
    (Ratio::new_raw(a.0, a.1) * factor).into_raw()
}

/// The fraction that a raw pair of numerator and denominator stands for.
pub open spec fn raw(pair: (u128, u128)) -> Fraction {
    Fraction { numer: pair.0 as nat, denom: pair.1 as nat }
}

/// An integer as a fraction.
pub open spec fn whole(n: nat) -> Fraction {
    Fraction { numer: n, denom: 1 }
}

pub proof fn lemma_whole_reduced(n: nat)
    ensures
        whole(n).reduced(),
        lowest(n, 1) == whole(n),
{
    reveal_with_fuel(gcd, 3);
    lemma_reduced_is_lowest(whole(n));
}

// ---------------------------------------------------------------------------------------------

/// A non-negative fraction of `u128` components, always in lowest terms.
#[derive(Clone, Copy)]
pub struct Rational {
    numer: u128,
    denom: u128,
}

impl View for Rational {
    type V = Fraction;

    closed spec fn view(&self) -> Fraction {
        Fraction { numer: self.numer as nat, denom: self.denom as nat }
    }
}

impl Rational {
    #[verifier::type_invariant]
    pub open spec fn in_lowest_terms(self) -> bool {
        &&& self@.reduced()
        &&& self@.fits()
    }

    fn from_raw(pair: (u128, u128)) -> (r: Rational)
        requires
            raw(pair).reduced(),
        ensures
            r@ == raw(pair),
    {
        Rational { numer: pair.0, denom: pair.1 }
    }

    fn to_raw(self) -> (pair: (u128, u128))
        ensures
            raw(pair) == self@,
            self@.reduced(),
            self@.fits(),
    {
        proof {
            use_type_invariant(&self);
        }
        (self.numer, self.denom)
    }

    /// `numer / denom` in lowest terms.
    pub fn new(numer: u128, denom: u128) -> (r: Rational)
        requires
            denom > 0,
        ensures
            r@ == lowest(numer as nat, denom as nat),
    {
        let pair = ratio_new(numer, denom);
        proof {
            lemma_lowest(numer as nat, denom as nat);
        }
        Rational::from_raw(pair)
    }

    pub fn from_integer(n: u128) -> (r: Rational)
        ensures
            r@ == whole(n as nat),
    {
        proof {
            lemma_whole_reduced(n as nat);
        }
        Rational { numer: n, denom: 1 }
    }

    pub fn numer(self) -> (n: u128)
        ensures
            n == self@.numer,
            self@.reduced(),
    {
        proof {
            use_type_invariant(&self);
        }
        self.numer
    }

    pub fn denom(self) -> (n: u128)
        ensures
            n == self@.denom,
            self@.reduced(),
    {
        proof {
            use_type_invariant(&self);
        }
        self.denom
    }

    /// The integer part.
    pub fn to_integer(self) -> (n: u128)
        ensures
            n == self@.floor(),
    {
        proof {
            use_type_invariant(&self);
        }
        self.numer / self.denom
    }

    /// The largest integer that is not above `self`.
    pub fn floor(self) -> (r: Rational)
        ensures
            r@ == whole(self@.floor()),
    {
        let pair = ratio_floor(self.to_raw());
        proof {
            lemma_whole_reduced(self@.floor());
        }
        Rational::from_raw(pair)
    }

    /// The nearest integer; a half rounds up.
    pub fn round(self) -> (r: Rational)
        ensures
            r@ == whole(self@.round()),
    {
        let pair = ratio_round(self.to_raw());
        proof {
            lemma_whole_reduced(self@.round());
        }
        Rational::from_raw(pair)
    }

    /// The product, or `None` where it leaves `u128`.
    pub fn checked_mul(self, other: Rational) -> (r: Option<Rational>)
        ensures
            r is Some <==> self@.times(other@).fits(),
            r matches Some(p) ==> p@ == self@.times(other@),
    {
        let a = self.to_raw();
        let b = other.to_raw();
        match ratio_checked_mul(a, b) {
            Some(pair) => {
                proof {
                    lemma_mul_strictly_positive(self@.denom as int, other@.denom as int);
                    lemma_lowest(self@.numer * other@.numer, self@.denom * other@.denom);
                }
                Some(Rational::from_raw(pair))
            },
            None => None,
        }
    }

    /// The sum, or `None` where it cannot be formed within `u128`.
    pub fn checked_add(self, other: Rational) -> (r: Option<Rational>)
        ensures
            r is Some <==> self@.can_add(other@),
            r matches Some(p) ==> p@ == self@.plus(other@),
    {
        let a = self.to_raw();
        let b = other.to_raw();
        match ratio_checked_add(a, b) {
            Some(pair) => {
                proof {
                    lemma_sum_reduced(self@, other@);
                }
                Some(Rational::from_raw(pair))
            },
            None => None,
        }
    }

    /// The difference, or `None` where it is negative or cannot be formed within `u128`.
    pub fn checked_sub(self, other: Rational) -> (r: Option<Rational>)
        ensures
            r is Some <==> self@.can_subtract(other@),
            r matches Some(p) ==> p@ == self@.minus(other@),
    {
        let a = self.to_raw();
        let b = other.to_raw();
        match ratio_checked_sub(a, b) {
            Some(pair) => {
                proof {
                    lemma_sum_reduced(self@, other@);
                }
                Some(Rational::from_raw(pair))
            },
            None => None,
        }
    }

    /// The sum.
    pub fn plus(self, other: Rational) -> (r: Rational)
        requires
            self@.can_add(other@),
        ensures
            r@ == self@.plus(other@),
    {
        let a = self.to_raw();
        let b = other.to_raw();
        let pair = ratio_add(a, b);
        proof {
            lemma_sum_reduced(self@, other@);
        }
        Rational::from_raw(pair)
    }

    /// The difference.
    pub fn minus(self, other: Rational) -> (r: Rational)
        requires
            self@.can_subtract(other@),
        ensures
            r@ == self@.minus(other@),
    {
        let a = self.to_raw();
        let b = other.to_raw();
        let pair = ratio_sub(a, b);
        proof {
            lemma_sum_reduced(self@, other@);
        }
        Rational::from_raw(pair)
    }

    /// Whether the product with an integer stays within `u128`.
    pub fn can_scale(self, factor: u128) -> (r: bool)
        ensures
            r == self@.times(whole(factor as nat)).fits(),
    {
        self.checked_mul(Rational::from_integer(factor)).is_some()
    }

    /// The product with an integer.
    pub fn scale(self, factor: u128) -> (r: Rational)
        requires
            self@.times(whole(factor as nat)).fits(),
        ensures
            r@ == self@.times(whole(factor as nat)),
    {
        let pair = ratio_scale(self.to_raw(), factor);
        proof {
            lemma_lowest(self@.numer * factor as nat, self@.denom * 1);
        }
        Rational::from_raw(pair)
    }
}

proof fn lemma_sum_reduced(a: Fraction, b: Fraction)
    requires
        a.reduced(),
        b.reduced(),
    ensures
        a.plus(b).reduced(),
        a.other_numer(b) <= a.scaled_numer(b) ==> a.minus(b).reduced(),
{
    let m = a.denom * b.denom;
    lemma_mul_strictly_positive(a.denom as int, b.denom as int);
    lemma_multiple(a.denom, b.denom);
    lemma_multiple(b.denom, a.denom);
    lemma_mul_is_commutative(a.denom as int, b.denom as int);
    lemma_common_denom(a, b, m);
    lemma_lowest(a.scaled_numer(b) + a.other_numer(b), a.common_denom(b));
    if a.other_numer(b) <= a.scaled_numer(b) {
        lemma_lowest((a.scaled_numer(b) - a.other_numer(b)) as nat, a.common_denom(b));
    }
}

} // verus!
