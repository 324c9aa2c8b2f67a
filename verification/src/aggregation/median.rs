//! The median of a price list.
use crate::aggregation::rational::{lemma_lowest_rounds, Fraction, Rational};
use crate::aggregation::statistics::{
    ascending, interpolated, is_ascending, lemma_ascending, lemma_quantile_representable,
    lemma_quarters, lower_share, quantile, quantile_position, sort_prices, upper_share,
};
use vstd::arithmetic::div_mod::*;
use vstd::prelude::*;

verus! {

/// The middle of an ascending list: its middle element, or the average of the middle two, where a
/// half rounds up.
pub open spec fn middle(s: Seq<u64>) -> u64 {
    let half = (s.len() / 2) as int;
    if s.len() % 2 == 1 {
        s[half]
    } else {
        ((s[half - 1] + s[half] + 1) / 2) as u64
    }
}

/// The median of a list in any order; an empty list has none.
pub open spec fn median_of(prices: Seq<u64>) -> Option<u64> {
    if prices.len() == 0 {
        None
    } else {
        Some(middle(ascending(prices)))
    }
}

proof fn lemma_half_quantile(s: Seq<u64>)
    requires
        2 <= s.len() <= usize::MAX,
    ensures
        ({
            let half = Fraction { numer: 1, denom: 2 };
            &&& quantile_position(half, s.len()) / 2 < s.len()
            &&& interpolated(s, half).round() == middle(s)
        }),
{
    let half = Fraction { numer: 1, denom: 2 };
    let n = s.len();
    lemma_quarters();
    lemma_quantile_representable(s, half);
    let position = quantile_position(half, n);
    assert(position == n - 1);
    let i = (position / 2) as int;
    let total = lower_share(s, half) + upper_share(s, half);
    lemma_lowest_rounds(total, 2);
    let r = position % 2;
    assert(r == 0 || r == 1);
    assert(total == if r == 0 {
        2 * s[i]
    } else {
        s[i] + s[i + 1]
    }) by (nonlinear_arith)
        requires
            total == (2 - r) * s[i] + r * s[i + 1],
            r == 0 || r == 1,
    ;
}

/// The median, or `None` for an empty list.
pub fn calculate_median(prices: Vec<u64>) -> (r: Option<u64>)
    ensures
        r == median_of(prices@),
{
    let mut prices = prices;
    let ghost all = prices@;
    proof {
        lemma_ascending(all);
    }
    if prices.len() == 0 {
        return None;
    }
    if prices.len() == 1 {
        let price: u64 = prices[0];
        assert(is_ascending(all));
        return Some(price);
    }
    sort_prices(&mut prices);
    proof {
        lemma_quarters();
        lemma_half_quantile(prices@);
        lemma_quantile_representable(prices@, Fraction { numer: 1, denom: 2 });
    }
    match quantile(prices, Rational::new(1, 2)) {
        Some(value) => {
            let rounded: u128 = value.round().to_integer();
            proof {
                lemma_div_basics(value@.round() as int);
            }
            if rounded <= u64::MAX as u128 {
                Some(rounded as u64)
            } else {
                None
            }
        },
        None => None,
    }
}

/// The median does not depend on the order of the prices.
pub proof fn lemma_median_ignores_order(a: Seq<u64>, b: Seq<u64>)
    requires
        a.to_multiset() == b.to_multiset(),
    ensures
        median_of(a) == median_of(b),
{
    lemma_ascending(a);
    lemma_ascending(b);
    assert(ascending(a) == ascending(b));
}

/// The median lies between any lower and any upper bound of the prices.
pub proof fn lemma_median_bounded(prices: Seq<u64>, low: u64, high: u64)
    requires
        prices.len() > 0,
        forall|i: int| 0 <= i < prices.len() ==> low <= #[trigger] prices[i] <= high,
    ensures
        median_of(prices) matches Some(median) && low <= median <= high,
{
    lemma_ascending(prices);
    let s = ascending(prices);
    broadcast use vstd::seq_lib::group_to_multiset_ensures;

    assert forall|i: int| 0 <= i < s.len() implies low <= #[trigger] s[i] <= high by {
        assert(s.to_multiset().count(s[i]) > 0);
        assert(prices.contains(s[i]));
    }
    let half = (s.len() / 2) as int;
    assert(low <= s[half] <= high);
    if s.len() % 2 == 0 {
        assert(low <= s[half - 1] <= high);
    }
}

/// At least half of the prices are not above the median, and at least half are not below it.
pub proof fn lemma_median_splits(prices: Seq<u64>)
    requires
        prices.len() > 0,
    ensures
        ({
            let median = median_of(prices)->0;
            let s = ascending(prices);
            let half = ((s.len() + 1) / 2) as int;
            &&& forall|i: int| 0 <= i < half ==> #[trigger] s[i] <= median
            &&& forall|i: int| s.len() - half <= i < s.len() ==> median <= #[trigger] s[i]
        }),
{
    lemma_ascending(prices);
    let s = ascending(prices);
    let half = (s.len() / 2) as int;
    let mid = s[half];
    if s.len() % 2 == 0 {
        let below = s[half - 1];
        assert(below <= mid);
    }
}

} // verus!
