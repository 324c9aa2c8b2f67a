//! What medians, quantiles and the outlier test promise.
use crate::aggregation::median::median_of;
use crate::aggregation::rational::{
    gcd, lemma_align, lemma_common_denom, lemma_divisible, lemma_gcd_divides, lemma_gcd_greatest,
    lemma_lowest, lemma_multiple, lowest, whole, Fraction,
};
use crate::aggregation::statistics::{
    ascending, fence_fits, interpolated, is_ascending, is_kept, lemma_ascending, quantile_position,
    within_divergency,
};
use vstd::arithmetic::div_mod::*;
use vstd::arithmetic::mul::*;
use vstd::prelude::*;
use vstd::seq_lib::group_to_multiset_ensures;

verus! {

// ---------------------------------------------------------------------------------------------
// The median

/// `s` lists the prices in ascending order.
pub open spec fn orders(s: Seq<u64>, prices: Seq<u64>) -> bool {
    &&& s.to_multiset() == prices.to_multiset()
    &&& forall|i: int, j: int| 0 <= i <= j < s.len() ==> s[i] <= s[j]
}

/// The median of an odd number of prices is the middle one in ascending order. Of an even number it
/// is half of the sum of the middle two, where a half is rounded up. Only no prices have none.
pub proof fn lemma_median_is_middle(prices: Seq<u64>, s: Seq<u64>)
    requires
        orders(s, prices),
    ensures
        s.len() == prices.len(),
        median_of(prices) is None <==> prices.len() == 0,
        median_of(prices) matches Some(median) ==> {
            &&& forall|k: int| s.len() == 2 * k + 1 ==> median == #[trigger] s[k]
            &&& forall|k: int|
                s.len() == 2 * k ==> s[k - 1] + #[trigger] s[k] <= 2 * median <= s[k - 1] + s[k] + 1
        },
{
    broadcast use group_to_multiset_ensures;

    lemma_ascending(prices);
    assert(is_ascending(s));
    assert(s == ascending(prices));
}

/// Sorting gives the one ascending list with the same prices.
pub proof fn lemma_sorted_prices(prices: Seq<u64>, s: Seq<u64>)
    requires
        orders(s, prices),
    ensures
        ascending(prices) == s,
{
    lemma_ascending(prices);
    assert(is_ascending(s));
}

// ---------------------------------------------------------------------------------------------
// Quantiles

/// A quantile lies on the straight line between the two neighbours of its position: with the
/// position `numer * (len - 1)` between `i` and `i + 1` times the denominator, each neighbour weighs
/// as much as the position is far from the other one.
pub proof fn lemma_quantile_between(s: Seq<u64>, q: Fraction, i: int)
    requires
        q.reduced(),
        0 <= i < s.len() - 1,
        i * q.denom <= q.numer * (s.len() - 1) <= (i + 1) * q.denom,
    ensures
        ({
            let f = interpolated(s, q);
            let before = q.numer * (s.len() - 1) - i * q.denom;
            let behind = (i + 1) * q.denom - q.numer * (s.len() - 1);
            f.denom > 0 && f.numer * q.denom == f.denom * (behind * s[i] + before * s[i + 1])
        }),
{
    let d = q.denom;
    let position = quantile_position(q, s.len());
    assert(position == q.numer * (s.len() - 1)) by {
        lemma_mul_nonnegative(q.numer as int, s.len() - 1);
    }
    let f = interpolated(s, q);
    let before = position - i * d;
    let behind = (i + 1) * d - position;
    assert(before + behind == d && 0 <= before <= d) by (nonlinear_arith)
        requires
            before == position - i * d,
            behind == (i + 1) * d - position,
            i * d <= position <= (i + 1) * d,
    ;
    lemma_mul_is_distributive_add_other_way(d as int, i, 1);
    if before < d {
        assert(position == i * d + before);
        lemma_fundamental_div_mod_converse(position as int, d as int, i, before);
        lemma_lowest(
            ((d - before) * s[i]) as nat + (before * s[i + 1]) as nat,
            d,
        );
        assert((d - before) * s[i] >= 0 && before * s[i + 1] >= 0) by (nonlinear_arith)
            requires
                0 <= before < d,
                s[i] >= 0,
                s[i + 1] >= 0,
        ;
        let total = behind * s[i] + before * s[i + 1];
        assert(f.numer * d == f.denom * total) by (nonlinear_arith)
            requires
                total * f.denom == f.numer * d,
        ;
    } else {
        lemma_fundamental_div_mod_converse(position as int, d as int, i + 1, 0);
        let next = s[i + 1];
        assert(behind == 0 && before == d);
        if i + 2 >= s.len() {
            assert(f == whole(next as nat));
            assert(f.numer * d == f.denom * (behind * s[i] + before * next)) by (nonlinear_arith)
                requires
                    f.numer == next,
                    f.denom == 1,
                    behind == 0,
                    before == d,
            ;
        } else {
            let share = ((d - 0) * next) as nat;
            lemma_mul_basics(s[i + 2] as int);
            lemma_lowest(share, d);
            assert(f.numer * d == f.denom * (behind * s[i] + before * next)) by (nonlinear_arith)
                requires
                    share == d * next,
                    share * f.denom == f.numer * d,
                    behind == 0,
                    before == d,
            ;
        }
    }
}

// ---------------------------------------------------------------------------------------------
// Outliers

/// A price passes the divergency test exactly if its distance to the median, on either side, is less
/// than `divergency + 1` thousandths of the median. Next to a median of zero only zero passes.
pub proof fn lemma_divergency_distance(price: u64, median: u64, divergency: u32)
    ensures
        median > 0 && price >= median ==> (within_divergency(price, median, divergency) <==> (price
            - median) * 1000 < (divergency + 1) * median),
        median > 0 && price < median ==> (within_divergency(price, median, divergency) <==> (median
            - price) * 1000 < (divergency + 1) * median),
        median == 0 ==> (within_divergency(price, median, divergency) <==> price == 0),
{
    if median > 0 {
        let distance: int = if price >= median {
            price - median
        } else {
            median - price
        };
        let x = distance * 1000;
        let m = median as int;
        let d = divergency as int;
        lemma_fundamental_div_mod(x, m);
        lemma_mod_bound(x, m);
        let q = x / m;
        let r = x % m;
        assert(q <= d <==> x < (d + 1) * m) by (nonlinear_arith)
            requires
                x == m * q + r,
                0 <= r < m,
        {
            if q <= d {
                assert(m * q <= m * d);
            } else {
                assert(m * q >= m * (d + 1));
            }
        }
    }
}

/// The median test alone tells the outliers among two or three prices; a single price is never one.
pub proof fn lemma_few_prices_kept(
    prices: Seq<u64>,
    median: u64,
    outliers_range: u32,
    divergency: u32,
    price: u64,
)
    requires
        prices.len() < 4,
    ensures
        fence_fits(prices, outliers_range),
        prices.len() <= 1 ==> is_kept(prices, median, outliers_range, divergency, price),
        prices.len() >= 2 && median == 0 ==> (is_kept(
            prices,
            median,
            outliers_range,
            divergency,
            price,
        ) <==> price == 0),
        prices.len() >= 2 && median > 0 ==> (is_kept(
            prices,
            median,
            outliers_range,
            divergency,
            price,
        ) <==> (price - median) * 1000 < (divergency + 1) * median && (median - price) * 1000 < (
        divergency + 1) * median),
{
    lemma_divergency_distance(price, median, divergency);
    if median > 0 {
        assert((divergency + 1) * median > 0) by (nonlinear_arith)
            requires
                divergency >= 0,
                median > 0,
        ;
    }
}

/// Four times the lower quartile of an ascending list: it lies a quarter of the way up.
pub open spec fn lower_quarter(s: Seq<u64>) -> int {
    let h = (s.len() - 1) / 4;
    let r = (s.len() - 1) % 4;
    (4 - r) * s[h] + r * s[h + 1]
}

/// Four times the upper quartile of an ascending list: it lies a quarter of the way down.
pub open spec fn upper_quarter(s: Seq<u64>) -> int {
    let n = s.len() as int;
    let h = (n - 1) / 4;
    let r = (n - 1) % 4;
    (4 - r) * s[n - 1 - h] + r * s[n - 2 - h]
}

/// Among four prices or more the quartiles tell the outliers, unless they are less than half apart.
/// A price is kept if it is, rounded to a whole number, at most `outliers_range` percent of the
/// distance of the quartiles outside of them. The upper bound wraps around at the end of the range.
pub proof fn lemma_many_prices_kept(
    prices: Seq<u64>,
    s: Seq<u64>,
    median: u64,
    outliers_range: u32,
    divergency: u32,
    price: u64,
)
    requires
        prices.len() >= 4,
        orders(s, prices),
    ensures
        ({
            let low = lower_quarter(s);
            let high = upper_quarter(s);
            let margin = outliers_range * (high - low);
            let kept = is_kept(prices, median, outliers_range, divergency, price);
            let top = (100 * high + margin + 200) / 400;
            &&& low <= high
            &&& high - low < 2 ==> fence_fits(prices, outliers_range)
            &&& high - low >= 2 ==> (fence_fits(prices, outliers_range) <==> margin <= 100 * low)
            &&& high - low < 2 ==> (kept <==> is_kept(
                prices.take(2),
                median,
                outliers_range,
                divergency,
                price,
            ))
            &&& high - low >= 2 && margin <= 100 * low ==> (kept <==> 100 * low - margin < 400 * price
                + 200 && price <= top % 0x1_0000_0000_0000_0000)
        }),
{
    broadcast use group_to_multiset_ensures;

    lemma_ascending(prices);
    assert(is_ascending(s));
    assert(s == ascending(prices));
    let n = s.len() as int;
    let h = (n - 1) / 4;
    let r = (n - 1) % 4;
    let low = lower_quarter(s);
    let high = upper_quarter(s);
    let p = 3 * (n - 1);
    assert(r == 0 ==> p / 4 == n - 1 - h && p % 4 == 0);
    assert(r > 0 ==> p / 4 == n - 2 - h && p % 4 == 4 - r);
    assert(h + 1 <= n - 2 - h);
    let a = s[h] as int;
    let b = s[h + 1] as int;
    let c = s[n - 2 - h] as int;
    let d = s[n - 1 - h] as int;
    assert(a <= b <= c <= d);
    assert(low == (4 - r) * a + r * b && high == (4 - r) * d + r * c);
    assert(4 * a <= low <= 4 * b && 4 * c <= high <= 4 * d) by (nonlinear_arith)
        requires
            low == (4 - r) * a + r * b,
            high == (4 - r) * d + r * c,
            0 <= r < 4,
            a <= b <= c <= d,
    ;
    assert(crate::aggregation::statistics::quartile_times_four(s, 1) == low);
    assert(crate::aggregation::statistics::quartile_times_four(s, 3) == high) by {
        if r == 0 {
            assert(4 * d == (4 - r) * d + r * c);
            lemma_mul_basics(s[n - h] as int);
        }
    }
    let margin = outliers_range * (high - low);
    assert(margin >= 0) by (nonlinear_arith)
        requires
            margin == outliers_range * (high - low),
            outliers_range >= 0,
            low <= high,
    ;
    assert(prices.take(2).len() == 2);
    if high - low >= 2 && margin <= 100 * low {
        let x = 100 * low - margin;
        assert((x + 200) / 400 <= price <==> x < 400 * price + 200);
    }
}

// ---------------------------------------------------------------------------------------------
// Fractions

/// The sum, the difference and the product of two fractions have the value that they should have, in
/// lowest terms.
pub proof fn lemma_fraction_arithmetic(a: Fraction, b: Fraction)
    requires
        a.reduced(),
        b.reduced(),
    ensures
        a.plus(b).reduced(),
        a.plus(b).numer * (a.denom * b.denom) == (a.numer * b.denom + b.numer * a.denom) * a.plus(
            b,
        ).denom,
        b.numer * a.denom <= a.numer * b.denom ==> a.minus(b).reduced() && a.minus(b).numer * (
        a.denom * b.denom) == (a.numer * b.denom - b.numer * a.denom) * a.minus(b).denom,
        a.times(b).reduced(),
        a.times(b).numer * (a.denom * b.denom) == (a.numer * b.numer) * a.times(b).denom,
{
    let m = a.denom * b.denom;
    let x = a.numer * b.denom;
    let y = b.numer * a.denom;
    lemma_mul_strictly_positive(a.denom as int, b.denom as int);
    lemma_multiple(a.denom, b.denom);
    lemma_multiple(b.denom, a.denom);
    lemma_mul_is_commutative(a.denom as int, b.denom as int);
    assert(a.numer * m == x * a.denom && b.numer * m == y * b.denom) by (nonlinear_arith)
        requires
            m == a.denom * b.denom,
            x == a.numer * b.denom,
            y == b.numer * a.denom,
    ;
    lemma_align(a, b, x, y, m);
    lemma_lowest(x + y, m);
    lemma_lowest(a.numer * b.numer, m);
    if y <= x {
        lemma_lowest((x - y) as nat, m);
    }
}

/// `m` is the least common multiple of two numbers.
pub open spec fn least_multiple(m: nat, a: nat, b: nat) -> bool {
    &&& m > 0
    &&& m % a == 0
    &&& m % b == 0
    &&& forall|k: nat| k > 0 && #[trigger] (k % a) == 0 && k % b == 0 ==> m <= k
}

/// Two fractions, written as `x / m` and `y / m` over the least common multiple of their denominators,
/// can be added exactly if `m`, `x`, `y` and `x + y` can be held. They can be subtracted exactly if `m`,
/// `x` and `y` can be held and the second is not the greater one.
pub proof fn lemma_fraction_computable(a: Fraction, b: Fraction, m: nat, x: nat, y: nat)
    requires
        a.denom > 0,
        b.denom > 0,
        least_multiple(m, a.denom, b.denom),
        a.numer * m == x * a.denom,
        b.numer * m == y * b.denom,
    ensures
        a.can_add(b) <==> m <= u128::MAX && x + y <= u128::MAX,
        a.can_subtract(b) <==> m <= u128::MAX && y <= x <= u128::MAX,
        y <= x <==> b.numer * a.denom <= a.numer * b.denom,
{
    lemma_common_denom(a, b, m);
    let l = a.common_denom(b);
    assert(l % a.denom == 0);
    assert(l == m);
    lemma_divisible(m, a.denom);
    lemma_divisible(m, b.denom);
    let u = m / a.denom;
    let v = m / b.denom;
    assert(x == u * a.numer && y == v * b.numer) by (nonlinear_arith)
        requires
            m == a.denom * u,
            m == b.denom * v,
            a.numer * m == x * a.denom,
            b.numer * m == y * b.denom,
            a.denom > 0,
            b.denom > 0,
    {
        assert((x - u * a.numer) * a.denom == 0);
        assert((y - v * b.numer) * b.denom == 0);
    }
    let p = a.numer * b.denom;
    let q = b.numer * a.denom;
    let d = a.denom * b.denom;
    lemma_mul_strictly_positive(a.denom as int, b.denom as int);
    assert(p * m == x * d && q * m == y * d) by (nonlinear_arith)
        requires
            p == a.numer * b.denom,
            q == b.numer * a.denom,
            d == a.denom * b.denom,
            a.numer * m == x * a.denom,
            b.numer * m == y * b.denom,
    ;
    assert(y <= x <==> q <= p) by (nonlinear_arith)
        requires
            p * m == x * d,
            q * m == y * d,
            m > 0,
            d > 0,
    ;
}

/// Rounding a fraction down or to the nearest integer: the result is less than one, or at most a half,
/// away; a half goes up.
pub proof fn lemma_fraction_rounds(f: Fraction)
    requires
        f.denom > 0,
    ensures
        f.floor() * f.denom <= f.numer < (f.floor() + 1) * f.denom,
        (2 * f.round() - 1) * f.denom <= 2 * f.numer < (2 * f.round() + 1) * f.denom,
{
    let n = f.numer as int;
    let d = f.denom as int;
    lemma_fundamental_div_mod(n, d);
    lemma_mod_bound(n, d);
    let q = n / d;
    let r = n % d;
    let v = f.round() as int;
    assert(q * d <= n < (q + 1) * d && (2 * v - 1) * d <= 2 * n < (2 * v + 1) * d)
        by (nonlinear_arith)
        requires
            n == d * q + r,
            0 <= r < d,
            2 * r >= d ==> v == q + 1,
            2 * r < d ==> v == q,
    ;
}

/// A fraction is in lowest terms exactly if only one divides both its numerator and its denominator.
pub proof fn lemma_lowest_terms(f: Fraction)
    requires
        f.denom > 0,
    ensures
        f.reduced() <==> (forall|d: nat|
            d > 0 && #[trigger] (f.numer % d) == 0 && f.denom % d == 0 ==> d == 1),
{
    let g = gcd(f.numer, f.denom);
    lemma_gcd_divides(f.numer, f.denom);
    assert(f.numer % g == 0);
    assert forall|d: nat|
        f.reduced() && d > 0 && #[trigger] (f.numer % d) == 0 && f.denom % d == 0 implies d == 1 by {
        lemma_gcd_greatest(f.numer, f.denom, d);
        if d > 1 {
            lemma_small_mod(1, d);
        }
    }
}

/// A fraction is brought to lowest terms without a change of its value.
pub proof fn lemma_fraction_reduced(numer: nat, denom: nat)
    requires
        denom > 0,
    ensures
        lowest(numer, denom).reduced(),
        lowest(numer, denom).numer * denom == numer * lowest(numer, denom).denom,
        whole(numer).numer == numer,
        whole(numer).denom == 1,
{
    lemma_lowest(numer, denom);
}

} // verus!
