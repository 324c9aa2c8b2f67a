//! Quantiles and outlier filtering of price lists.
use crate::aggregation::rational::{
    gcd, lemma_align, lemma_lowest, lemma_lowest_rounds, lemma_lowest_unique, lemma_multiple, lowest,
    round_div, whole, Fraction, Rational,
};
use vstd::arithmetic::div_mod::*;
use vstd::arithmetic::mul::*;
use vstd::prelude::*;
use vstd::relations::sorted_by;
use vstd::seq_lib::{group_to_multiset_ensures, lemma_sorted_unique};

verus! {

pub const SCALING_FACTOR: u128 = 1000;

pub const PERCENT: u128 = 100;

pub const IQR_THRESHOLD: usize = 4;

// ---------------------------------------------------------------------------------------------
// Quantiles

/// The position of the `q`-quantile between the first element, at zero, and the last, at
/// `len - 1`, times the denominator of `q`.
pub open spec fn quantile_position(q: Fraction, len: nat) -> nat {
    (q.numer * (len - 1)) as nat
}

/// The `q`-quantile of an ascending list of at least two elements by linear interpolation: where
/// the position falls between two elements, their average weighted by its distance to each.
pub open spec fn interpolated(s: Seq<u64>, q: Fraction) -> Fraction {
    let position = quantile_position(q, s.len());
    let index = (position / q.denom) as int;
    if index + 1 >= s.len() {
        whole(s[index] as nat)
    } else {
        lowest(lower_share(s, q) + upper_share(s, q), q.denom)
    }
}

/// The lower neighbour of the quantile times its weight, times the denominator of `q`.
pub open spec fn lower_share(s: Seq<u64>, q: Fraction) -> nat {
    let position = quantile_position(q, s.len());
    ((q.denom - position % q.denom) * s[(position / q.denom) as int]) as nat
}

/// The upper neighbour of the quantile times its weight, times the denominator of `q`.
pub open spec fn upper_share(s: Seq<u64>, q: Fraction) -> nat {
    let position = quantile_position(q, s.len());
    (position % q.denom * s[(position / q.denom + 1) as int]) as nat
}

/// The index of the lower neighbour can be computed and is a `usize`.
pub open spec fn quantile_indexable(q: Fraction, len: nat) -> bool {
    let position = quantile_position(q, len);
    &&& lowest(position, q.denom).fits()
    &&& position / q.denom <= usize::MAX
}

/// Every step of the interpolation stays within `u128`.
pub open spec fn quantile_representable(s: Seq<u64>, q: Fraction) -> bool {
    let position = quantile_position(q, s.len());
    let lower = lowest(lower_share(s, q), q.denom);
    let upper = lowest(upper_share(s, q), q.denom);
    &&& quantile_indexable(q, s.len())
    &&& position / q.denom + 1 >= s.len() || {
        &&& lower.fits()
        &&& upper.fits()
        &&& lower.can_add(upper)
    }
}

proof fn lemma_weights(s: Seq<u64>, q: Fraction)
    requires
        q.reduced(),
        q.fits(),
        s.len() >= 2,
        quantile_position(q, s.len()) / q.denom + 1 < s.len(),
        quantile_indexable(q, s.len()),
    ensures
        ({
            let position = quantile_position(q, s.len());
            let r = position % q.denom;
            let index = lowest(position, q.denom);
            let weight = lowest(r, q.denom);
            let rest = lowest((q.denom - r) as nat, q.denom);
            let lo = whole(s[(position / q.denom) as int] as nat);
            let hi = whole(s[(position / q.denom + 1) as int] as nat);
            &&& index.can_subtract(whole(index.floor()))
            &&& index.minus(whole(index.floor())) == weight
            &&& weight.reduced()
            &&& whole(1).can_subtract(weight)
            &&& whole(1).minus(weight) == rest
            &&& rest.times(lo) == lowest(lower_share(s, q), q.denom)
            &&& weight.times(hi) == lowest(upper_share(s, q), q.denom)
        }),
{
    let position = quantile_position(q, s.len());
    let d = q.denom;
    let r = position % d;
    let index = lowest(position, d);
    let g = gcd(position, d);
    lemma_lowest(position, d);
    lemma_lowest_rounds(position, d);
    let k = index.floor();
    let rr = index.numer % index.denom;
    lemma_fundamental_div_mod(index.numer as int, index.denom as int);
    // index - floor
    lemma_multiple(index.denom, 1);
    assert(index.denom % 1 == 0);
    lemma_mul_is_commutative(index.denom as int, k as int);
    lemma_align(index, whole(k), index.numer, k * index.denom, index.denom);
    assert(index.minus(whole(k)) == lowest(rr, index.denom));
    assert(rr * d == r * index.denom) by (nonlinear_arith)
        requires
            rr * g == r,
            d == g * index.denom,
    ;
    lemma_lowest_unique(rr, index.denom, r, d);
    // 1 - weight
    let w = lowest(r, d);
    lemma_lowest(r, d);
    assert(w.numer < w.denom) by (nonlinear_arith)
        requires
            r * w.denom == w.numer * d,
            r < d,
            w.denom > 0,
    ;
    lemma_multiple(w.denom, 1);
    assert(w.denom % 1 == 0);
    lemma_mul_basics(w.denom as int);
    assert(whole(1).numer * w.denom == w.denom * whole(1).denom);
    lemma_align(whole(1), w, w.denom, w.numer, w.denom);
    let gw = gcd(r, d);
    assert((w.denom - w.numer) * d == (d - r) * w.denom) by (nonlinear_arith)
        requires
            r * w.denom == w.numer * d,
    ;
    lemma_lowest_unique((w.denom - w.numer) as nat, w.denom, (d - r) as nat, d);
    // shares
    let rest = lowest((d - r) as nat, d);
    lemma_lowest((d - r) as nat, d);
    let lo = s[(position / d) as int] as nat;
    let hi = s[(position / d + 1) as int] as nat;
    assert(rest.numer * lo * d == (d - r) * lo * (rest.denom * 1)) by (nonlinear_arith)
        requires
            (d - r) * rest.denom == rest.numer * d,
    ;
    lemma_lowest_unique(rest.numer * lo, rest.denom * 1, lower_share(s, q), d);
    assert(w.numer * hi * d == r * hi * (w.denom * 1)) by (nonlinear_arith)
        requires
            r * w.denom == w.numer * d,
    ;
    lemma_lowest_unique(w.numer * hi, w.denom * 1, upper_share(s, q), d);
}

proof fn lemma_shares_add(s: Seq<u64>, q: Fraction)
    requires
        q.reduced(),
    ensures
        ({
            let lower = lowest(lower_share(s, q), q.denom);
            let upper = lowest(upper_share(s, q), q.denom);
            &&& lower.plus(upper) == lowest(lower_share(s, q) + upper_share(s, q), q.denom)
            &&& lower.common_denom(upper) <= q.denom
            &&& lower.scaled_numer(upper) <= lower_share(s, q)
            &&& lower.other_numer(upper) <= upper_share(s, q)
        }),
{
    let x = lower_share(s, q);
    let y = upper_share(s, q);
    let d = q.denom;
    lemma_lowest(x, d);
    lemma_lowest(y, d);
    let lower = lowest(x, d);
    let upper = lowest(y, d);
    lemma_multiple(lower.denom, gcd(x, d));
    lemma_multiple(upper.denom, gcd(y, d));
    lemma_mul_is_commutative(lower.denom as int, gcd(x, d) as int);
    lemma_mul_is_commutative(upper.denom as int, gcd(y, d) as int);
    lemma_align(lower, upper, x, y, d);
}

/// The `q`-quantile of an ascending list, or `None` for an empty list and where the computation
/// leaves `u128`. A list of one element has that element as every quantile.
pub fn quantile(sorted_prices: Vec<u64>, q: Rational) -> (r: Option<Rational>)
    requires
        sorted_prices.len() >= 2 && quantile_indexable(q@, sorted_prices@.len())
            ==> quantile_position(q@, sorted_prices@.len()) / q@.denom < sorted_prices.len(),
    ensures
        r is None <==> sorted_prices.len() == 0 || (sorted_prices.len() >= 2
            && !quantile_representable(sorted_prices@, q@)),
        r matches Some(v) ==> v@ == if sorted_prices.len() == 1 {
            whole(sorted_prices@[0] as nat)
        } else {
            interpolated(sorted_prices@, q@)
        },
{
    let length: u128 = sorted_prices.len() as u128;
    if length == 0 {
        return None;
    }
    if length == 1 {
        return Some(Rational::from_integer(sorted_prices[0] as u128));
    }
    proof {
        use_type_invariant(&q);
    }
    let n_minus_one = Rational::from_integer(length - 1);
    let ghost position = quantile_position(q@, sorted_prices@.len());
    proof {
        assert(q@.times(n_minus_one@) == lowest(position, q@.denom));
        lemma_lowest(position, q@.denom);
        lemma_lowest_rounds(position, q@.denom);
    }
    let index = match q.checked_mul(n_minus_one) {
        Some(index) => index,
        None => {
            return None;
        },
    };
    let lower_index: u128 = index.floor().to_integer();
    assert(whole(index@.floor()).floor() == index@.floor()) by {
        lemma_div_basics(index@.floor() as int);
    }
    if lower_index > usize::MAX as u128 {
        return None;
    }
    let lower_idx: usize = lower_index as usize;
    if lower_idx + 1 >= sorted_prices.len() {
        return Some(Rational::from_integer(sorted_prices[lower_idx] as u128));
    }
    proof {
        lemma_weights(sorted_prices@, q@);
        lemma_shares_add(sorted_prices@, q@);
    }
    let weight = match index.checked_sub(index.floor()) {
        Some(weight) => weight,
        None => {
            return None;
        },
    };
    let lower_val = Rational::from_integer(sorted_prices[lower_idx] as u128);
    let upper_val = Rational::from_integer(sorted_prices[lower_idx + 1] as u128);
    let weighted_lower = match Rational::from_integer(1).minus(weight).checked_mul(lower_val) {
        Some(product) => product,
        None => {
            return None;
        },
    };
    let weighted_upper = match weight.checked_mul(upper_val) {
        Some(product) => product,
        None => {
            return None;
        },
    };
    weighted_lower.checked_add(weighted_upper)
}

/// Every quantile of a list whose denominator is a `u64` can be computed.
pub proof fn lemma_quantile_representable(s: Seq<u64>, q: Fraction)
    requires
        q.reduced(),
        q.numer <= q.denom <= u64::MAX,
        2 <= s.len() <= usize::MAX,
    ensures
        quantile_position(q, s.len()) / q.denom < s.len(),
        quantile_representable(s, q),
{
    let n = s.len();
    let d = q.denom;
    let position = quantile_position(q, n);
    assert(position <= d * (n - 1) && position <= u64::MAX * u64::MAX) by (nonlinear_arith)
        requires
            position == q.numer * (n - 1),
            q.numer <= d <= u64::MAX,
            2 <= n <= usize::MAX,
    ;
    lemma_lowest(position, d);
    assert(position / d <= n - 1) by {
        lemma_div_is_ordered(position as int, d * (n - 1), d as int);
        lemma_div_by_multiple(n - 1, d as int);
        lemma_mul_is_commutative(d as int, n - 1);
    }
    if position / d + 1 < n {
        let r = position % d;
        let lo = s[(position / d) as int];
        let hi = s[(position / d + 1) as int];
        let x = lower_share(s, q);
        let y = upper_share(s, q);
        assert(x <= u64::MAX * d && y <= u64::MAX * d && x + y <= u64::MAX * d && u64::MAX * d
            <= u64::MAX * u64::MAX) by (nonlinear_arith)
            requires
                x == (d - r) * lo,
                y == r * hi,
                0 <= r < d <= u64::MAX,
                0 <= lo <= u64::MAX,
                0 <= hi <= u64::MAX,
        ;
        lemma_lowest(x, d);
        lemma_lowest(y, d);
        lemma_shares_add(s, q);
    }
}

/// Every quantile of an ascending list lies between its first and its last element.
pub proof fn lemma_quantile_bounded(s: Seq<u64>, q: Fraction)
    requires
        q.reduced(),
        q.numer <= q.denom,
        s.len() >= 2,
        is_ascending(s),
    ensures
        s[0] * interpolated(s, q).denom <= interpolated(s, q).numer,
        interpolated(s, q).numer <= s.last() * interpolated(s, q).denom,
{
    let n = s.len();
    let d = q.denom;
    let position = quantile_position(q, n);
    assert(position <= d * (n - 1)) by (nonlinear_arith)
        requires
            position == q.numer * (n - 1),
            q.numer <= d,
            2 <= n,
    ;
    assert(position / d <= n - 1) by {
        lemma_div_is_ordered(position as int, d * (n - 1), d as int);
        lemma_div_by_multiple(n - 1, d as int);
        lemma_mul_is_commutative(d as int, n - 1);
    }
    let i = (position / d) as int;
    let f = interpolated(s, q);
    if i + 1 < n {
        let r = position % d;
        let x = lower_share(s, q);
        let y = upper_share(s, q);
        lemma_lowest(x + y, d);
        let first = s[0];
        let last = s.last();
        let lo = s[i];
        let hi = s[i + 1];
        assert(first * d <= x + y <= last * d) by (nonlinear_arith)
            requires
                x == (d - r) * lo,
                y == r * hi,
                0 <= r < d,
                first <= lo <= hi <= last,
        ;
        assert(first * f.denom <= f.numer && f.numer <= last * f.denom) by (nonlinear_arith)
            requires
                (x + y) * f.denom == f.numer * d,
                first * d <= x + y <= last * d,
                d > 0,
                f.denom >= 0,
        {
            assert(d * (first * f.denom) <= d * f.numer);
            assert(d * f.numer <= d * (last * f.denom));
        }
    } else {
        assert(s[0] * f.denom <= f.numer && f.numer <= s.last() * f.denom) by (nonlinear_arith)
            requires
                f.denom == 1,
                f.numer == s[i],
                s[0] <= s[i] <= s.last(),
        ;
    }
}

/// The quantile times the denominator of `q`.
spec fn weighted(s: Seq<u64>, q: Fraction) -> nat {
    let index = (quantile_position(q, s.len()) / q.denom) as int;
    if index + 1 >= s.len() {
        q.denom * s[index] as nat
    } else {
        lower_share(s, q) + upper_share(s, q)
    }
}

proof fn lemma_weighted(s: Seq<u64>, q: Fraction)
    requires
        q.reduced(),
        q.numer <= q.denom,
        s.len() >= 2,
        is_ascending(s),
    ensures
        ({
            let position = quantile_position(q, s.len());
            let i = (position / q.denom) as int;
            let f = interpolated(s, q);
            &&& 0 <= i < s.len()
            &&& position == i * q.denom + position % q.denom
            &&& position % q.denom < q.denom
            &&& f.denom > 0
            &&& weighted(s, q) * f.denom == f.numer * q.denom
            &&& s[i] * q.denom <= weighted(s, q)
            &&& i + 1 < s.len() ==> weighted(s, q) <= s[i + 1] * q.denom
            &&& i + 1 < s.len() ==> weighted(s, q) == q.denom * s[i] + position % q.denom * (s[i + 1]
                - s[i])
        }),
{
    let n = s.len();
    let d = q.denom;
    let position = quantile_position(q, n);
    assert(0 <= position <= d * (n - 1)) by (nonlinear_arith)
        requires
            position == q.numer * (n - 1),
            0 <= q.numer <= d,
            2 <= n,
    ;
    assert(position / d <= n - 1) by {
        lemma_div_is_ordered(position as int, d * (n - 1), d as int);
        lemma_div_by_multiple(n - 1, d as int);
        lemma_mul_is_commutative(d as int, n - 1);
    }
    lemma_fundamental_div_mod(position as int, d as int);
    lemma_mul_is_commutative(d as int, (position / d) as int);
    let i = (position / d) as int;
    let lo = s[i];
    if i + 1 < n {
        let r = position % d;
        let hi = s[i + 1];
        lemma_lowest(weighted(s, q), d);
        assert(weighted(s, q) == d * lo + r * (hi - lo) && lo * d <= weighted(s, q) && weighted(s, q)
            <= hi * d) by (nonlinear_arith)
            requires
                weighted(s, q) == (d - r) * lo + r * hi,
                0 <= r < d,
                lo <= hi,
        ;
    } else {
        lemma_mul_is_commutative(d as int, lo as int);
        lemma_mul_basics(weighted(s, q) as int);
    }
}

/// A quantile of an ascending list at a greater fraction is not smaller.
pub proof fn lemma_quantile_monotone(s: Seq<u64>, p: Fraction, q: Fraction)
    requires
        p.reduced(),
        q.reduced(),
        p.numer <= p.denom,
        q.numer <= q.denom,
        p.numer * q.denom <= q.numer * p.denom,
        s.len() >= 2,
        is_ascending(s),
    ensures
        interpolated(s, p).numer * interpolated(s, q).denom <= interpolated(s, q).numer
            * interpolated(s, p).denom,
{
    let m = (s.len() - 1) as nat;
    lemma_weighted(s, p);
    lemma_weighted(s, q);
    let a = quantile_position(p, s.len());
    let b = quantile_position(q, s.len());
    let c = p.denom;
    let d = q.denom;
    let i = (a / c) as int;
    let j = (b / d) as int;
    let x = a % c;
    let y = b % d;
    assert(a * d <= b * c) by (nonlinear_arith)
        requires
            a == p.numer * m,
            b == q.numer * m,
            p.numer * d <= q.numer * c,
            m >= 0,
    ;
    assert(i <= j) by (nonlinear_arith)
        requires
            a == i * c + x,
            b == j * d + y,
            a * d <= b * c,
            0 <= x < c,
            0 <= y < d,
    {
        if i >= j + 1 {
            assert(i * c >= (j + 1) * c);
            assert(a * d >= (j + 1) * c * d);
            assert(b < (j + 1) * d);
            assert(b * c < (j + 1) * d * c);
        }
    }
    let t = weighted(s, p);
    let u = weighted(s, q);
    assert(t * d <= u * c) by {
        if i < j {
            let mid = s[j];
            assert(s[i + 1] <= mid);
            let next = s[i + 1];
            assert(t * d <= u * c) by (nonlinear_arith)
                requires
                    t <= next * c,
                    next <= mid,
                    mid * d <= u,
                    c > 0,
                    d > 0,
            {
                assert(next * c <= mid * c);
                assert(t * d <= mid * c * d);
                assert(mid * d * c <= u * c);
            }
        } else if i + 1 < s.len() {
            let lo = s[i];
            let step = s[i + 1] - s[i];
            assert(t * d <= u * c) by (nonlinear_arith)
                requires
                    t == c * lo + x * step,
                    u == d * lo + y * step,
                    a == i * c + x,
                    b == i * d + y,
                    a * d <= b * c,
                    step >= 0,
            {
                assert(x * d <= y * c);
                assert(x * d * step <= y * c * step);
            }
        } else {
            let lo = s[i];
            assert(t * d <= u * c) by (nonlinear_arith)
                requires
                    t == c * lo,
                    u == d * lo,
            ;
        }
    }
    let f = interpolated(s, p);
    let g = interpolated(s, q);
    let e = f.denom * g.denom;
    lemma_mul_strictly_positive(f.denom as int, g.denom as int);
    lemma_mul_strictly_positive(c as int, d as int);
    lemma_mul_inequality((t * d) as int, (u * c) as int, e as int);
    assert((t * d) * e == (f.numer * g.denom) * (c * d)) by (nonlinear_arith)
        requires
            t * f.denom == f.numer * c,
            e == f.denom * g.denom,
    ;
    assert((u * c) * e == (g.numer * f.denom) * (c * d)) by (nonlinear_arith)
        requires
            u * g.denom == g.numer * d,
            e == f.denom * g.denom,
    ;
    lemma_mul_inequality_converse(
        (f.numer * g.denom) as int,
        (g.numer * f.denom) as int,
        (c * d) as int,
    );
}

// ---------------------------------------------------------------------------------------------
// Ascending order

pub open spec fn is_ascending(s: Seq<u64>) -> bool {
    forall|i: int, j: int| 0 <= i <= j < s.len() ==> s[i] <= s[j]
}

/// The elements of `s` in ascending order.
pub open spec fn ascending(s: Seq<u64>) -> Seq<u64> {
    s.sort_by(|a: u64, b: u64| a <= b)
}

/// `ascending(s)` is the one ascending list with the elements of `s`.
pub proof fn lemma_ascending(s: Seq<u64>)
    ensures
        is_ascending(ascending(s)),
        ascending(s).to_multiset() == s.to_multiset(),
        ascending(s).len() == s.len(),
        forall|t: Seq<u64>| #[trigger]
            is_ascending(t) && t.to_multiset() == s.to_multiset() ==> t == ascending(s),
{
    let leq = |a: u64, b: u64| a <= b;
    s.lemma_sort_by_ensures(leq);
    let sorted = s.sort_by(leq);
    broadcast use group_to_multiset_ensures;

    assert(sorted.to_multiset().len() == s.to_multiset().len());
    assert(is_ascending(sorted)) by {
        assert forall|i: int, j: int| 0 <= i <= j < sorted.len() implies sorted[i] <= sorted[j] by {
            if i < j {
                assert(leq(sorted[i], sorted[j]));
            }
        }
    }
    assert forall|t: Seq<u64>| #[trigger]
        is_ascending(t) && t.to_multiset() == s.to_multiset() implies t == ascending(s) by {
        assert(sorted_by(t, leq));
        lemma_sorted_unique(t, sorted, leq);
    }
}

/// `slice::sort_unstable` of std on `u64`: the slice ends up ascending with the same elements.
#[verifier::external_body]
fn sort_slice(prices: &mut Vec<u64>)
    ensures
        is_ascending(final(prices)@),
        final(prices)@.to_multiset() == old(prices)@.to_multiset(),
{
    prices.sort_unstable();
}

/// Brings `prices` into ascending order.
pub fn sort_prices(prices: &mut Vec<u64>)
    ensures
        final(prices)@ == ascending(old(prices)@),
{
    proof {
        lemma_ascending(prices@);
    }
    sort_slice(prices);
}

// ---------------------------------------------------------------------------------------------
// Outliers

/// The distance of `price` to `median`, in thousandths of the median and rounded down, is at most
/// `divergency`. Only zero is near a median of zero.
pub open spec fn within_divergency(price: u64, median: u64, divergency: u32) -> bool {
    if median == 0 {
        price == 0
    } else {
        let distance = if price > median {
            price - median
        } else {
            median - price
        };
        distance * SCALING_FACTOR / (median as int) <= divergency
    }
}

/// Four times the `k`-th quartile of an ascending list.
pub open spec fn quartile_times_four(s: Seq<u64>, k: nat) -> nat {
    let position = (k * (s.len() - 1)) as nat;
    let i = (position / 4) as int;
    let r = position % 4;
    ((4 - r) * s[i] + r * s[i + 1]) as nat
}

/// Four times the interquartile range.
pub open spec fn iqr_times_four(prices: Seq<u64>) -> int {
    quartile_times_four(ascending(prices), 3) - quartile_times_four(ascending(prices), 1)
}

/// Outliers are told by the distance to the median: the list is short, or its interquartile range
/// rounds to zero.
pub open spec fn by_divergency(prices: Seq<u64>) -> bool {
    prices.len() < IQR_THRESHOLD || iqr_times_four(prices) < 2
}

/// The distance from a quartile to the bound beyond it, times four hundred: `outliers_range`
/// percent of the interquartile range.
pub open spec fn fence(prices: Seq<u64>, outliers_range: u32) -> int {
    outliers_range * iqr_times_four(prices)
}

/// The lower bound is not negative.
pub open spec fn fence_fits(prices: Seq<u64>, outliers_range: u32) -> bool {
    by_divergency(prices) || fence(prices, outliers_range) <= PERCENT * quartile_times_four(
        ascending(prices),
        1,
    )
}

pub open spec fn lower_bound(prices: Seq<u64>, outliers_range: u32) -> nat {
    round_div(
        (PERCENT * quartile_times_four(ascending(prices), 1) - fence(
            prices,
            outliers_range,
        )) as nat,
        400,
    )
}

/// The upper bound wraps around at the end of the `u64` range.
pub open spec fn upper_bound(prices: Seq<u64>, outliers_range: u32) -> nat {
    round_div(
        (PERCENT * quartile_times_four(ascending(prices), 3) + fence(
            prices,
            outliers_range,
        )) as nat,
        400,
    ) % 0x1_0000_0000_0000_0000
}

/// `price` is no outlier among `prices`.
pub open spec fn is_kept(
    prices: Seq<u64>,
    median: u64,
    outliers_range: u32,
    divergency: u32,
    price: u64,
) -> bool {
    if prices.len() <= 1 {
        true
    } else if by_divergency(prices) {
        within_divergency(price, median, divergency)
    } else {
        lower_bound(prices, outliers_range) <= price <= upper_bound(prices, outliers_range)
    }
}

pub fn is_within_divergency(price: u64, median: u64, divergency: u32) -> (r: bool)
    ensures
        r == within_divergency(price, median, divergency),
{
    if median == 0 {
        return price == 0;
    }
    let diff: u64 = if price > median {
        price - median
    } else {
        median - price
    };
    let ratio: u128 = (diff as u128 * SCALING_FACTOR) / median as u128;
    ratio <= divergency as u128
}

/// A test that tells kept prices from outliers.
enum Band {
    Divergency { median: u64, divergency: u32 },
    Between { lower: u64, upper: u64 },
}

impl Band {
    spec fn holds(self, price: u64) -> bool {
        match self {
            Band::Divergency { median, divergency } => within_divergency(price, median, divergency),
            Band::Between { lower, upper } => lower <= price <= upper,
        }
    }

    fn contains(&self, price: u64) -> (r: bool)
        ensures
            r == self.holds(price),
    {
        match self {
            Band::Divergency { median, divergency } => is_within_divergency(
                price,
                *median,
                *divergency,
            ),
            Band::Between { lower, upper } => *lower <= price && price <= *upper,
        }
    }
}

fn partition(prices: Vec<u64>, band: Band) -> (r: (Vec<u64>, Vec<u64>))
    ensures
        r.0@ == prices@.filter(|price: u64| band.holds(price)),
        r.1@ == prices@.filter(|price: u64| !band.holds(price)),
{
    let mut kept: Vec<u64> = Vec::new();
    let mut outliers: Vec<u64> = Vec::new();
    let ghost keep = |price: u64| band.holds(price);
    let ghost drop = |price: u64| !band.holds(price);
    assert(prices@.take(0) =~= Seq::<u64>::empty());
    proof {
        reveal(Seq::filter);
    }
    for i in 0..prices.len()
        invariant
            keep == (|price: u64| band.holds(price)),
            drop == (|price: u64| !band.holds(price)),
            kept@ == prices@.take(i as int).filter(keep),
            outliers@ == prices@.take(i as int).filter(drop),
    {
        let price = prices[i];
        proof {
            reveal(Seq::filter);
            assert(prices@.take(i + 1).drop_last() =~= prices@.take(i as int));
        }
        if band.contains(price) {
            kept.push(price);
        } else {
            outliers.push(price);
        }
    }
    assert(prices@.take(prices@.len() as int) =~= prices@);
    (kept, outliers)
}

/// Splits `prices` into those near the others and the outliers, each in the given order. Short
/// lists, and lists whose interquartile range rounds to zero, are split by the distance to the
/// median; others by the fences around their quartiles.
pub fn filter_outliers(
    prices: Vec<u64>,
    median: u64,
    outliers_range: u32,
    divergency: u32,
) -> (r: Option<(Vec<u64>, Vec<u64>)>)
    requires
        fence_fits(prices@, outliers_range),
    ensures
        r matches Some(split) && split.0@ == prices@.filter(
            |price: u64| is_kept(prices@, median, outliers_range, divergency, price),
        ) && split.1@ == prices@.filter(
            |price: u64| !is_kept(prices@, median, outliers_range, divergency, price),
        ),
{
    let ghost all = prices@;
    let ghost keep = |price: u64| is_kept(all, median, outliers_range, divergency, price);
    let ghost drop = |price: u64| !is_kept(all, median, outliers_range, divergency, price);
    if prices.len() <= 1 {
        proof {
            reveal_with_fuel(Seq::filter, 2);
            assert(all.filter(keep) =~= all);
            assert(all.filter(drop) =~= Seq::<u64>::empty());
        }
        return Some((prices, Vec::new()));
    }
    if prices.len() < IQR_THRESHOLD {
        let band = Band::Divergency { median, divergency };
        assert((|price: u64| band.holds(price)) =~= keep);
        assert((|price: u64| !band.holds(price)) =~= drop);
        return Some(partition(prices, band));
    }
    filter_outliers_iqr(prices, median, outliers_range, divergency)
}

/// The quotient of `lowest` over a multiple of the denominator.
proof fn lemma_lowest_over(numer: nat, denom: nat, k: nat)
    requires
        denom > 0,
        k > 0,
    ensures
        denom * k > 0,
        (denom * k) % lowest(numer, denom).denom == 0,
        lowest(numer, denom).numer * (denom * k) == (numer * k) * lowest(numer, denom).denom,
        lowest(numer, denom).denom > 0,
{
    lemma_lowest(numer, denom);
    let f = lowest(numer, denom);
    let g = gcd(numer, denom);
    lemma_mul_strictly_positive(denom as int, k as int);
    assert(denom * k == f.denom * (g * k)) by (nonlinear_arith)
        requires
            denom == g * f.denom,
    ;
    lemma_multiple(f.denom, g * k);
    assert(f.numer * (denom * k) == (numer * k) * f.denom) by (nonlinear_arith)
        requires
            numer * f.denom == f.numer * denom,
    ;
}

/// The fractions that medians and quartiles are taken at, in lowest terms.
pub proof fn lemma_quarters()
    ensures
        lowest(25, 100) == (Fraction { numer: 1, denom: 4 }),
        lowest(75, 100) == (Fraction { numer: 3, denom: 4 }),
        lowest(1, 2) == (Fraction { numer: 1, denom: 2 }),
        (Fraction { numer: 1, denom: 4 }).reduced(),
        (Fraction { numer: 3, denom: 4 }).reduced(),
        (Fraction { numer: 1, denom: 2 }).reduced(),
{
    assert(gcd(25, 100) == 25) by {
        reveal_with_fuel(gcd, 4);
        assert(100nat % 25 == 0);
    }
    assert(gcd(75, 100) == 25) by {
        reveal_with_fuel(gcd, 5);
        assert(100nat % 75 == 25);
        assert(75nat % 25 == 0);
    }
    assert(gcd(1, 2) == 1 && gcd(1, 4) == 1) by {
        reveal_with_fuel(gcd, 4);
    }
    assert(gcd(3, 4) == 1) by {
        reveal_with_fuel(gcd, 5);
    }
}

/// The quartiles of an ascending list of at least four elements, as fractions.
proof fn lemma_quartiles(s: Seq<u64>)
    requires
        4 <= s.len() <= usize::MAX,
        is_ascending(s),
    ensures
        ({
            let q1 = Fraction { numer: 1, denom: 4 };
            let q3 = Fraction { numer: 3, denom: 4 };
            &&& quantile_position(q1, s.len()) / 4 < s.len()
            &&& quantile_position(q3, s.len()) / 4 < s.len()
            &&& quantile_representable(s, q1)
            &&& quantile_representable(s, q3)
            &&& interpolated(s, q1) == lowest(quartile_times_four(s, 1), 4)
            &&& interpolated(s, q3) == lowest(quartile_times_four(s, 3), 4)
            &&& quartile_times_four(s, 1) <= quartile_times_four(s, 3) <= 4 * u64::MAX
        }),
{
    lemma_quarters();
    let n = s.len();
    let q1 = Fraction { numer: 1, denom: 4 };
    let q3 = Fraction { numer: 3, denom: 4 };
    lemma_quantile_representable(s, q1);
    lemma_quantile_representable(s, q3);
    let p1 = quantile_position(q1, n);
    let p3 = quantile_position(q3, n);
    assert(p1 == n - 1 && p3 == 3 * (n - 1));
    let i1 = (p1 / 4) as int;
    let i3 = (p3 / 4) as int;
    let r1 = p1 % 4;
    let r3 = p3 % 4;
    assert(i1 + 1 <= i3 && i3 + 1 < n);
    let a = quartile_times_four(s, 1);
    let b = quartile_times_four(s, 3);
    assert(s[i1] <= s[i1 + 1] <= s[i3] <= s[i3 + 1]);
    assert(a == (4 - r1) * s[i1] + r1 * s[i1 + 1]);
    assert(b == (4 - r3) * s[i3] + r3 * s[i3 + 1]);
    assert(lower_share(s, q1) + upper_share(s, q1) == a);
    assert(lower_share(s, q3) + upper_share(s, q3) == b);
    let x = s[i1 + 1] as int;
    let y = s[i3] as int;
    assert(a <= 4 * x) by (nonlinear_arith)
        requires
            a == (4 - r1) * s[i1] + r1 * x,
            s[i1] <= x,
            0 <= r1 < 4,
    ;
    assert(4 * y <= b <= 4 * u64::MAX) by (nonlinear_arith)
        requires
            b == (4 - r3) * y + r3 * s[i3 + 1],
            y <= s[i3 + 1] <= u64::MAX,
            0 <= r3 < 4,
    ;
}

fn filter_outliers_iqr(
    prices: Vec<u64>,
    median: u64,
    outliers_range: u32,
    divergency: u32,
) -> (r: Option<(Vec<u64>, Vec<u64>)>)
    requires
        prices.len() >= IQR_THRESHOLD,
        fence_fits(prices@, outliers_range),
    ensures
        r matches Some(split) && split.0@ == prices@.filter(
            |price: u64| is_kept(prices@, median, outliers_range, divergency, price),
        ) && split.1@ == prices@.filter(
            |price: u64| !is_kept(prices@, median, outliers_range, divergency, price),
        ),
{
    let ghost all = prices@;
    let ghost keep = |price: u64| is_kept(all, median, outliers_range, divergency, price);
    let ghost drop = |price: u64| !is_kept(all, median, outliers_range, divergency, price);
    let mut sorted_prices = prices.clone();
    assert(sorted_prices@ =~= all);
    sort_prices(&mut sorted_prices);
    let ghost s = ascending(all);
    let ghost a = quartile_times_four(s, 1);
    let ghost b = quartile_times_four(s, 3);
    proof {
        lemma_ascending(all);
        lemma_quarters();
        lemma_quartiles(s);
    }
    let sorted_again = sorted_prices.clone();
    assert(sorted_again@ =~= s);
    let q1 = match quantile(sorted_again, Rational::new(25, PERCENT)) {
        Some(q1) => q1,
        None => {
            return None;
        },
    };
    let q3 = match quantile(sorted_prices, Rational::new(75, PERCENT)) {
        Some(q3) => q3,
        None => {
            return None;
        },
    };
    proof {
        lemma_lowest_over(a, 4, 1);
        lemma_lowest_over(b, 4, 1);
        lemma_align(q3@, q1@, b, a, 4);
    }
    let iqr = q3.minus(q1);
    let ghost width = (b - a) as nat;
    assert(iqr@ == lowest(width, 4));
    proof {
        lemma_lowest_rounds(width, 4);
        lemma_div_basics(iqr@.round() as int);
    }
    if iqr.round().to_integer() == 0 {
        let band = Band::Divergency { median, divergency };
        assert((|price: u64| band.holds(price)) =~= keep);
        assert((|price: u64| !band.holds(price)) =~= drop);
        return Some(partition(prices, band));
    }
    assert(width >= 2);
    let multiplier = Rational::new(outliers_range as u128, PERCENT);
    let ghost f = (outliers_range * width) as nat;
    proof {
        let m = multiplier@;
        lemma_lowest(outliers_range as nat, 100);
        lemma_lowest(width, 4);
        lemma_mul_strictly_positive(m.denom as int, iqr@.denom as int);
        assert(m.numer * iqr@.numer * 400 == f * (m.denom * iqr@.denom)) by (nonlinear_arith)
            requires
                outliers_range * m.denom == m.numer * 100,
                width * iqr@.denom == iqr@.numer * 4,
                f == outliers_range * width,
        ;
        lemma_lowest_unique(m.numer * iqr@.numer, m.denom * iqr@.denom, f, 400);
        lemma_lowest(f, 400);
        assert(f <= 0x1_0000_0000 * (4 * 0x1_0000_0000_0000_0000)) by (nonlinear_arith)
            requires
                f == outliers_range * width,
                width <= 4 * u64::MAX,
        ;
    }
    let fence_width = match multiplier.checked_mul(iqr) {
        Some(fence_width) => fence_width,
        None => {
            return None;
        },
    };
    assert(fence_width@ == lowest(f, 400));
    proof {
        lemma_lowest_over(f, 400, 1);
        lemma_lowest_over(a, 4, 100);
        lemma_lowest_over(b, 4, 100);
        assert(fence(all, outliers_range) == f);
        lemma_align(q1@, fence_width@, a * 100, f, 400);
        lemma_align(q3@, fence_width@, b * 100, f, 400);
        lemma_lowest_rounds((a * 100 - f) as nat, 400);
        lemma_lowest_rounds(b * 100 + f, 400);
    }
    let lowest_kept = q1.minus(fence_width).round();
    let highest_kept = q3.plus(fence_width).round();
    proof {
        lemma_div_basics(lower_bound(all, outliers_range) as int);
        lemma_div_basics(round_div(b * 100 + f, 400) as int);
    }
    let lower: u128 = lowest_kept.to_integer();
    let upper: u128 = highest_kept.to_integer();
    assert(lower == lower_bound(all, outliers_range));
    assert(lower <= u64::MAX) by {
        assert(round_div((a * 100 - f) as nat, 400) <= (a * 100) / 400 + 1);
    }
    #[verifier::truncate]
    let upper_wrapped: u64 = upper as u64;
    assert(upper_wrapped == upper % 0x1_0000_0000_0000_0000) by (bit_vector)
        requires
            upper_wrapped == upper as u64,
    ;
    let band = Band::Between { lower: lower as u64, upper: upper_wrapped };
    assert((|price: u64| band.holds(price)) =~= keep);
    assert((|price: u64| !band.holds(price)) =~= drop);
    Some(partition(prices, band))
}

fn quartile_sum(sorted_prices: &Vec<u64>, k: u128) -> (r: u128)
    requires
        sorted_prices.len() >= IQR_THRESHOLD,
        k == 1 || k == 3,
    ensures
        r == quartile_times_four(sorted_prices@, k as nat),
        r <= 4 * u64::MAX,
{
    let position: u128 = k * (sorted_prices.len() as u128 - 1);
    let index: usize = (position / 4) as usize;
    let share: u128 = position % 4;
    let lower: u64 = sorted_prices[index];
    let upper: u64 = sorted_prices[index + 1];
    assert(0 <= (4 - share) * lower <= 4 * u64::MAX && 0 <= share * upper <= 3 * u64::MAX
        && (4 - share) * lower + share * upper <= 4 * u64::MAX) by (nonlinear_arith)
        requires
            0 <= share < 4,
            0 <= lower <= u64::MAX,
            0 <= upper <= u64::MAX,
    ;
    (4 - share) * lower as u128 + share * upper as u128
}

/// Whether `filter_outliers` accepts the prices: its lower bound would not be negative.
pub fn accepts_outliers_range(prices: &Vec<u64>, outliers_range: u32) -> (r: bool)
    ensures
        r == fence_fits(prices@, outliers_range),
{
    if prices.len() < IQR_THRESHOLD {
        return true;
    }
    let mut sorted_prices = prices.clone();
    assert(sorted_prices@ =~= prices@);
    sort_prices(&mut sorted_prices);
    proof {
        lemma_ascending(prices@);
        lemma_quartiles(sorted_prices@);
    }
    let q1: u128 = quartile_sum(&sorted_prices, 1);
    let q3: u128 = quartile_sum(&sorted_prices, 3);
    if q3 - q1 < 2 {
        return true;
    }
    let width: u128 = q3 - q1;
    assert(outliers_range * width <= u32::MAX * (4 * u64::MAX)) by (nonlinear_arith)
        requires
            width <= 4 * u64::MAX,
            outliers_range <= u32::MAX,
    ;
    outliers_range as u128 * width <= PERCENT * q1
}

/// Filtering outliers neither loses nor adds a price.
pub proof fn lemma_outliers_partition(
    prices: Seq<u64>,
    median: u64,
    outliers_range: u32,
    divergency: u32,
)
    ensures
        prices.filter(
            |price: u64| is_kept(prices, median, outliers_range, divergency, price),
        ).to_multiset().add(
            prices.filter(
                |price: u64| !is_kept(prices, median, outliers_range, divergency, price),
            ).to_multiset(),
        ) == prices.to_multiset(),
{
    lemma_filter_partition(
        prices,
        |price: u64| is_kept(prices, median, outliers_range, divergency, price),
        |price: u64| !is_kept(prices, median, outliers_range, divergency, price),
    );
}

proof fn lemma_filter_partition(s: Seq<u64>, p: spec_fn(u64) -> bool, q: spec_fn(u64) -> bool)
    requires
        forall|x: u64| #[trigger] q(x) == !p(x),
    ensures
        s.filter(p).to_multiset().add(s.filter(q).to_multiset()) == s.to_multiset(),
    decreases s.len(),
{
    broadcast use group_to_multiset_ensures;

    reveal(Seq::filter);
    if s.len() > 0 {
        lemma_filter_partition(s.drop_last(), p, q);
        assert(s =~= s.drop_last().push(s.last()));
        assert(q(s.last()) == !p(s.last()));
        assert(s.filter(p).to_multiset().add(s.filter(q).to_multiset()) =~= s.to_multiset());
    } else {
        assert(s.filter(p).to_multiset().add(s.filter(q).to_multiset()) =~= s.to_multiset());
    }
}

/// Where the fences tell the outliers, every price between the quartiles is kept, as long as the
/// upper bound has not wrapped around.
pub proof fn lemma_between_quartiles_kept(
    prices: Seq<u64>,
    median: u64,
    outliers_range: u32,
    divergency: u32,
    price: u64,
)
    requires
        !by_divergency(prices),
        fence_fits(prices, outliers_range),
        PERCENT * quartile_times_four(ascending(prices), 3) + fence(prices, outliers_range) < 400
            * u64::MAX,
        quartile_times_four(ascending(prices), 1) <= 4 * price <= quartile_times_four(
            ascending(prices),
            3,
        ),
    ensures
        is_kept(prices, median, outliers_range, divergency, price),
{
    let a = quartile_times_four(ascending(prices), 1);
    let b = quartile_times_four(ascending(prices), 3);
    let f = fence(prices, outliers_range);
    assert(f >= 0) by (nonlinear_arith)
        requires
            f == outliers_range * (b - a),
            a <= b,
            outliers_range >= 0,
    ;
    assert(100 * a - f <= 400 * price);
    assert(400 * price <= 100 * b + f);
}

} // verus!
