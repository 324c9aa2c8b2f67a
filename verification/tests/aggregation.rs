use charli3_oracle_core::aggregation::rational::Rational;
use charli3_oracle_core::aggregation::statistics::{
    accepts_outliers_range, filter_outliers, is_within_divergency, quantile, sort_prices,
};
use charli3_oracle_core::calculate_median;

fn parts(r: Rational) -> (u128, u128) {
    (r.numer(), r.denom())
}

#[test]
fn fractions_are_kept_in_lowest_terms() {
    assert_eq!(parts(Rational::new(2, 4)), (1, 2));
    assert_eq!(parts(Rational::new(0, 7)), (0, 1));
    assert_eq!(parts(Rational::from_integer(9)), (9, 1));
}

#[test]
fn fractions_floor_and_round() {
    assert_eq!(parts(Rational::new(7, 2).floor()), (3, 1));
    assert_eq!(parts(Rational::new(7, 2).round()), (4, 1));
    assert_eq!(parts(Rational::new(7, 3).round()), (2, 1));
    assert_eq!(Rational::new(7, 2).to_integer(), 3);
}

#[test]
fn fractions_compute() {
    let half = Rational::new(1, 2);
    let third = Rational::new(1, 3);
    assert_eq!(half.checked_add(third).map(parts), Some((5, 6)));
    assert_eq!(half.checked_sub(third).map(parts), Some((1, 6)));
    assert_eq!(third.checked_sub(half).map(parts), None);
    assert_eq!(half.checked_mul(third).map(parts), Some((1, 6)));
    assert_eq!(parts(half.plus(third)), (5, 6));
    assert_eq!(parts(half.minus(third)), (1, 6));
    assert_eq!(parts(third.scale(6)), (2, 1));
    let huge = Rational::from_integer(u128::MAX);
    assert_eq!(huge.checked_mul(Rational::from_integer(2)).map(parts), None);
    assert_eq!(huge.checked_add(huge).map(parts), None);
    assert!(!huge.can_scale(1000));
    assert!(third.can_scale(1000));
}

#[test]
fn quantiles_interpolate() {
    let prices = || vec![10u64, 20, 30, 40];
    assert_eq!(quantile(prices(), Rational::new(25, 100)).map(parts), Some((35, 2)));
    assert_eq!(quantile(prices(), Rational::new(75, 100)).map(parts), Some((65, 2)));
    assert_eq!(quantile(prices(), Rational::new(1, 1)).map(parts), Some((40, 1)));
    assert_eq!(quantile(prices(), Rational::new(0, 1)).map(parts), Some((10, 1)));
}

#[test]
fn quantiles_grow_with_their_fraction() {
    let mut last = (0, 1);
    for percent in 0..=100 {
        let prices = vec![3, 3, 10, 11, 90, 91, 4000];
        let next = parts(quantile(prices, Rational::new(percent, 100)).unwrap());
        assert!(last.0 * next.1 <= next.0 * last.1);
        last = next;
    }
    assert_eq!(last, (4000, 1));
}

#[test]
fn quantiles_of_short_lists() {
    assert_eq!(quantile(vec![], Rational::new(1, 2)).map(parts), None);
    assert_eq!(quantile(vec![8], Rational::new(1, 2)).map(parts), Some((8, 1)));
    assert_eq!(quantile(vec![8], Rational::new(5, 1)).map(parts), Some((8, 1)));
}

#[test]
fn quantiles_out_of_range_have_no_value() {
    let too_large = Rational::from_integer(u128::MAX);
    assert_eq!(quantile(vec![1, 2, 3], too_large).map(parts), None);
}

#[test]
fn quantiles_lie_between_the_ends() {
    let prices = vec![3u64, 4, 8, 8, 100];
    for percent in 0..=100u128 {
        let value = quantile(prices.clone(), Rational::new(percent, 100)).unwrap();
        assert!(3 * value.denom() <= value.numer());
        assert!(value.numer() <= 100 * value.denom());
    }
}

#[test]
fn median_of_odd_lists_is_the_middle() {
    assert_eq!(calculate_median(vec![3, 1, 2]), Some(2));
    assert_eq!(calculate_median(vec![9, 9, 1, 1, 5]), Some(5));
    assert_eq!(calculate_median(vec![7]), Some(7));
}

#[test]
fn median_of_even_lists_rounds_up() {
    assert_eq!(calculate_median(vec![1, 2]), Some(2));
    assert_eq!(calculate_median(vec![4, 1]), Some(3));
    assert_eq!(calculate_median(vec![10, 20, 30, 40]), Some(25));
    assert_eq!(calculate_median(vec![u64::MAX, u64::MAX]), Some(u64::MAX));
}

#[test]
fn median_of_nothing_is_none() {
    assert_eq!(calculate_median(vec![]), None);
}

#[test]
fn median_ignores_order_and_stays_in_bounds() {
    let prices = vec![5u64, 1, 4, 2, 3, 9];
    let mut reversed = prices.clone();
    reversed.reverse();
    let median = calculate_median(prices).unwrap();
    assert_eq!(calculate_median(reversed), Some(median));
    assert_eq!(median, 4);
}

#[test]
fn prices_sort_ascending() {
    let mut prices = vec![3u64, 1, 2, 1];
    sort_prices(&mut prices);
    assert_eq!(prices, vec![1, 1, 2, 3]);
}

#[test]
fn divergency_is_in_thousandths_of_the_median() {
    assert!(is_within_divergency(101, 100, 10));
    assert!(!is_within_divergency(101, 100, 9));
    assert!(is_within_divergency(99, 100, 10));
    assert!(is_within_divergency(0, 0, 0));
    assert!(!is_within_divergency(1, 0, u32::MAX));
    assert!(is_within_divergency(u64::MAX, 1, u32::MAX) == false);
}

#[test]
fn short_lists_are_split_by_divergency() {
    let split = filter_outliers(vec![100, 200, 101], 101, 150, 20);
    assert_eq!(split, Some((vec![100, 101], vec![200])));
    assert_eq!(filter_outliers(vec![5], 1000, 150, 0), Some((vec![5], vec![])));
    assert_eq!(filter_outliers(vec![], 0, 150, 0), Some((vec![], vec![])));
}

#[test]
fn longer_lists_are_split_by_fences() {
    let split = filter_outliers(vec![100, 1000, 102, 101, 103], 102, 150, 0);
    assert_eq!(split, Some((vec![100, 102, 101, 103], vec![1000])));
    let narrow = filter_outliers(vec![100, 1000, 102, 101, 103], 102, 0, 0);
    assert_eq!(narrow, Some((vec![102, 101, 103], vec![100, 1000])));
}

#[test]
fn a_vanishing_interquartile_range_falls_back_to_divergency() {
    let split = filter_outliers(vec![5, 5, 5, 5, 9], 5, 150, 100);
    assert_eq!(split, Some((vec![5, 5, 5, 5], vec![9])));
    let rounded = filter_outliers(vec![1, 1, 1, 2], 1, 150, 0);
    assert_eq!(rounded, Some((vec![1, 1, 1], vec![2])));
}

#[test]
fn fences_below_zero_are_not_accepted() {
    assert!(!accepts_outliers_range(&vec![0, 0, 1000, 1000], 150));
    assert!(accepts_outliers_range(&vec![0, 0, 1000, 1000], 0));
    assert!(accepts_outliers_range(&vec![100, 101, 102, 103], 150));
    assert!(accepts_outliers_range(&vec![0, 0, 1000], 150));
}

#[test]
fn filtering_keeps_every_price() {
    let prices = vec![50u64, 60, 55, 58, 200, 61, 59];
    let (kept, out) = filter_outliers(prices.clone(), 59, 150, 0).unwrap();
    let mut together: Vec<u64> = kept.iter().chain(out.iter()).cloned().collect();
    let mut expected = prices;
    together.sort();
    expected.sort();
    assert_eq!(together, expected);
    assert_eq!(out, vec![50, 200]);
}
