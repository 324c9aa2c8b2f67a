//! The consensus on prices at the end of a block.
use crate::aggregation::median::{calculate_median, lemma_median_ignores_order, median_of};
use crate::aggregation::statistics::{
    ascending, fence_fits, filter_outliers, is_kept, lemma_ascending,
};
use crate::bounded::{truncated, BoundedVec};
use crate::model::Model;
use crate::primitives::AccountId;
use crate::scale::encode_account;
use vstd::prelude::*;
use vstd::seq_lib::group_to_multiset_ensures;

verus! {

// ---------------------------------------------------------------------------------------------
// Order by price

/// `s` with `entry` behind the last entry whose price is not higher.
pub open spec fn insert_by_price(s: Seq<(AccountId, u64)>, entry: (AccountId, u64)) -> Seq<
    (AccountId, u64),
>
    decreases s.len(),
{
    if s.len() == 0 || s.last().1 <= entry.1 {
        s.push(entry)
    } else {
        insert_by_price(s.drop_last(), entry).push(s.last())
    }
}

/// The entries in ascending order of their prices; entries with one price keep their order.
pub open spec fn by_price(s: Seq<(AccountId, u64)>) -> Seq<(AccountId, u64)>
    decreases s.len(),
{
    if s.len() == 0 {
        s
    } else {
        insert_by_price(by_price(s.drop_last()), s.last())
    }
}

pub open spec fn prices_of(entries: Seq<(AccountId, u64)>) -> Seq<u64> {
    entries.map_values(|entry: (AccountId, u64)| entry.1)
}

/// The entries with one price.
pub open spec fn at_price(entries: Seq<(AccountId, u64)>, price: u64) -> Seq<(AccountId, u64)> {
    entries.filter(|entry: (AccountId, u64)| entry.1 == price)
}

pub open spec fn prices_ascend(s: Seq<(AccountId, u64)>) -> bool {
    forall|i: int, j: int|
        #![trigger s[i], s[j]]
        0 <= i <= j < s.len() ==> s[i].1 <= s[j].1
}

spec fn prices_below(s: Seq<(AccountId, u64)>, bound: u64) -> bool {
    forall|i: int| 0 <= i < s.len() ==> (#[trigger] s[i]).1 <= bound
}

proof fn lemma_at_price(s: Seq<(AccountId, u64)>, price: u64)
    ensures
        at_price(s, price) == if s.len() == 0 {
            Seq::empty()
        } else if s.last().1 == price {
            at_price(s.drop_last(), price).push(s.last())
        } else {
            at_price(s.drop_last(), price)
        },
{
    reveal(Seq::filter);
}

proof fn lemma_insert_by_price(s: Seq<(AccountId, u64)>, entry: (AccountId, u64), price: u64)
    requires
        prices_ascend(s),
    ensures
        prices_ascend(insert_by_price(s, entry)),
        insert_by_price(s, entry).to_multiset() == s.to_multiset().insert(entry),
        at_price(insert_by_price(s, entry), price) == at_price(s.push(entry), price),
        forall|bound: u64|
            prices_below(s, bound) && entry.1 <= bound ==> #[trigger] prices_below(
                insert_by_price(s, entry),
                bound,
            ),
    decreases s.len(),
{
    broadcast use group_to_multiset_ensures;

    let r = insert_by_price(s, entry);
    lemma_at_price(s.push(entry), price);
    assert(s.push(entry).drop_last() =~= s);
    if s.len() == 0 || s.last().1 <= entry.1 {
        assert forall|i: int, j: int|
            #![trigger r[i], r[j]]
            0 <= i <= j < r.len() implies r[i].1 <= r[j].1 by {
            if j == s.len() && i < s.len() {
                assert(s[i].1 <= s[s.len() - 1].1);
            }
        }
    } else {
        let rest = s.drop_last();
        let last = s.last();
        let t = insert_by_price(rest, entry);
        assert(prices_ascend(rest)) by {
            assert forall|i: int, j: int|
                #![trigger rest[i], rest[j]]
                0 <= i <= j < rest.len() implies rest[i].1 <= rest[j].1 by {
                assert(s[i].1 <= s[j].1);
            }
        }
        lemma_insert_by_price(rest, entry, price);
        assert(prices_below(rest, last.1)) by {
            assert forall|i: int| 0 <= i < rest.len() implies (#[trigger] rest[i]).1 <= last.1 by {
                assert(s[i].1 <= s[s.len() - 1].1);
            }
        }
        assert(prices_below(t, last.1));
        assert forall|i: int, j: int|
            #![trigger r[i], r[j]]
            0 <= i <= j < r.len() implies r[i].1 <= r[j].1 by {
            if j < t.len() {
                assert(r[i] == t[i] && r[j] == t[j]);
            } else if i < t.len() {
                assert(r[i] == t[i]);
            }
        }
        assert(s =~= rest.push(last));
        assert(r.to_multiset() =~= s.to_multiset().insert(entry));
        lemma_at_price(r, price);
        assert(r.drop_last() =~= t);
        lemma_at_price(s, price);
        lemma_at_price(rest.push(entry), price);
        assert(rest.push(entry).drop_last() =~= rest);
        assert forall|bound: u64|
            prices_below(s, bound) && entry.1 <= bound implies #[trigger] prices_below(r, bound) by {
            assert forall|i: int| 0 <= i < rest.len() implies (#[trigger] rest[i]).1 <= bound by {
                assert(s[i].1 <= bound);
            }
            assert(prices_below(rest, bound));
            assert(prices_below(t, bound));
            assert(s[s.len() - 1].1 <= bound);
            assert forall|i: int| 0 <= i < r.len() implies (#[trigger] r[i]).1 <= bound by {
                if i < t.len() {
                    assert(r[i] == t[i]);
                }
            }
        }
    }
}

/// Ordering by price is a stable sort: the same entries, ascending, and entries with one price in
/// the order they had.
pub proof fn lemma_by_price(s: Seq<(AccountId, u64)>, price: u64)
    ensures
        prices_ascend(by_price(s)),
        by_price(s).to_multiset() == s.to_multiset(),
        at_price(by_price(s), price) == at_price(s, price),
    decreases s.len(),
{
    broadcast use group_to_multiset_ensures;

    if s.len() > 0 {
        let rest = s.drop_last();
        lemma_by_price(rest, price);
        lemma_insert_by_price(by_price(rest), s.last(), price);
        assert(s =~= rest.push(s.last()));
        lemma_at_price(s, price);
        lemma_at_price(by_price(rest).push(s.last()), price);
        assert(by_price(rest).push(s.last()).drop_last() =~= by_price(rest));
    }
}

proof fn lemma_prices_multiset(a: Seq<(AccountId, u64)>, entry: (AccountId, u64))
    ensures
        prices_of(insert_by_price(a, entry)).to_multiset() == prices_of(a).to_multiset().insert(
            entry.1,
        ),
    decreases a.len(),
{
    broadcast use group_to_multiset_ensures;

    if a.len() == 0 || a.last().1 <= entry.1 {
        assert(prices_of(a.push(entry)) =~= prices_of(a).push(entry.1));
    } else {
        let rest = a.drop_last();
        lemma_prices_multiset(rest, entry);
        let t = insert_by_price(rest, entry);
        assert(prices_of(t.push(a.last())) =~= prices_of(t).push(a.last().1));
        assert(prices_of(a) =~= prices_of(rest).push(a.last().1));
        assert(prices_of(insert_by_price(a, entry)).to_multiset() =~= prices_of(
            a,
        ).to_multiset().insert(entry.1));
    }
}

proof fn lemma_same_prices(s: Seq<(AccountId, u64)>)
    ensures
        prices_of(by_price(s)).to_multiset() == prices_of(s).to_multiset(),
        by_price(s).len() == s.len(),
    decreases s.len(),
{
    broadcast use group_to_multiset_ensures;

    if s.len() > 0 {
        let rest = s.drop_last();
        lemma_same_prices(rest);
        lemma_prices_multiset(by_price(rest), s.last());
        assert(prices_of(s) =~= prices_of(rest).push(s.last().1));
        lemma_insert_len(by_price(rest), s.last());
    }
}

proof fn lemma_insert_len(s: Seq<(AccountId, u64)>, entry: (AccountId, u64))
    ensures
        insert_by_price(s, entry).len() == s.len() + 1,
    decreases s.len(),
{
    if s.len() > 0 && s.last().1 > entry.1 {
        lemma_insert_len(s.drop_last(), entry);
    }
}

/// Sorts by price, keeping the order of entries with one price.
pub fn sort_by_price(entries: Vec<(AccountId, u64)>) -> (r: Vec<(AccountId, u64)>)
    ensures
        r@ == by_price(entries@),
{
    let mut sorted: Vec<(AccountId, u64)> = Vec::new();
    assert(entries@.take(0) =~= Seq::<(AccountId, u64)>::empty());
    for i in 0..entries.len()
        invariant
            sorted@ == by_price(entries@.take(i as int)),
            sorted@.len() == i,
    {
        let entry: (AccountId, u64) = entries[i];
        let mut at: usize = sorted.len();
        assert(sorted@.take(at as int) =~= sorted@);
        assert(insert_by_price(sorted@, entry) =~= insert_by_price(sorted@.take(at as int), entry)
            + sorted@.skip(at as int));
        while at > 0 && sorted[at - 1].1 > entry.1
            invariant
                at <= sorted@.len(),
                insert_by_price(sorted@, entry) == insert_by_price(sorted@.take(at as int), entry)
                    + sorted@.skip(at as int),
            decreases at,
        {
            proof {
                let shorter = sorted@.take(at - 1);
                assert(sorted@.take(at as int).drop_last() =~= shorter);
                assert(insert_by_price(sorted@.take(at as int), entry) == insert_by_price(
                    shorter,
                    entry,
                ).push(sorted@[at - 1]));
                assert(insert_by_price(shorter, entry).push(sorted@[at - 1]) + sorted@.skip(
                    at as int,
                ) =~= insert_by_price(shorter, entry) + sorted@.skip(at - 1));
            }
            at -= 1;
        }
        proof {
            let head = sorted@.take(at as int);
            assert(insert_by_price(head, entry) == head.push(entry));
            assert(sorted@.insert(at as int, entry) =~= head.push(entry) + sorted@.skip(
                at as int,
            ));
            assert(entries@.take(i + 1).drop_last() =~= entries@.take(i as int));
        }
        sorted.insert(at, entry);
    }
    assert(entries@.take(entries@.len() as int) =~= entries@);
    sorted
}

// ---------------------------------------------------------------------------------------------
// Aggregation of one trade pair

/// The accounts whose price is no outlier among `prices`.
pub open spec fn rewarded(
    entries: Seq<(AccountId, u64)>,
    prices: Seq<u64>,
    median: u64,
    outliers_range: u32,
    divergency: u32,
) -> Seq<[u8; 32]> {
    entries.filter(
        |entry: (AccountId, u64)| is_kept(prices, median, outliers_range, divergency, entry.1),
    ).map_values(|entry: (AccountId, u64)| entry.0)
}

/// The median of the prices, and the nodes that are rewarded for a price near it, in the order of
/// their prices. At most 32 nodes take part.
pub open spec fn aggregated(
    entries: Seq<(AccountId, u64)>,
    outliers_range: u32,
    divergency: u32,
) -> Option<(u64, Seq<[u8; 32]>)> {
    let taken = truncated(entries, 32);
    match median_of(prices_of(taken)) {
        Some(median) => Some(
            (
                median,
                rewarded(by_price(taken), prices_of(taken), median, outliers_range, divergency),
            ),
        ),
        None => None,
    }
}

proof fn lemma_rewarded(
    entries: Seq<(AccountId, u64)>,
    prices: Seq<u64>,
    median: u64,
    outliers_range: u32,
    divergency: u32,
)
    ensures
        rewarded(entries, prices, median, outliers_range, divergency) == if entries.len() == 0 {
            Seq::empty()
        } else if is_kept(prices, median, outliers_range, divergency, entries.last().1) {
            rewarded(entries.drop_last(), prices, median, outliers_range, divergency).push(
                entries.last().0,
            )
        } else {
            rewarded(entries.drop_last(), prices, median, outliers_range, divergency)
        },
{
    reveal(Seq::filter);
    let keep = |entry: (AccountId, u64)|
        is_kept(prices, median, outliers_range, divergency, entry.1);
    let account = |entry: (AccountId, u64)| entry.0;
    if entries.len() > 0 {
        let rest = entries.drop_last();
        assert(rest.filter(keep).push(entries.last()).map_values(account) =~= rest.filter(
            keep,
        ).map_values(account).push(entries.last().0));
    } else {
        assert(entries.filter(keep).map_values(account) =~= Seq::<[u8; 32]>::empty());
    }
}

/// What is an outlier depends on the prices alone, not on their order.
pub proof fn lemma_kept_ignores_order(a: Seq<u64>, b: Seq<u64>)
    requires
        a.to_multiset() == b.to_multiset(),
    ensures
        a.len() == b.len(),
        ascending(a) == ascending(b),
        forall|median: u64, outliers_range: u32, divergency: u32, price: u64|
            is_kept(a, median, outliers_range, divergency, price) == is_kept(
                b,
                median,
                outliers_range,
                divergency,
                price,
            ),
        forall|outliers_range: u32| fence_fits(a, outliers_range) == fence_fits(b, outliers_range),
{
    lemma_ascending(a);
    lemma_ascending(b);
    broadcast use group_to_multiset_ensures;

    assert(a.len() == a.to_multiset().len());
    assert(b.len() == b.to_multiset().len());
}

proof fn lemma_filter_holds(s: Seq<u64>, keep: spec_fn(u64) -> bool)
    ensures
        forall|j: int| 0 <= j < s.filter(keep).len() ==> keep(#[trigger] s.filter(keep)[j]),
        forall|j: int| 0 <= j < s.len() && keep(#[trigger] s[j]) ==> s.filter(keep).contains(s[j]),
{
    broadcast use vstd::seq_lib::group_filter_ensures;

}

fn contains_price(prices: &Vec<u64>, price: u64) -> (r: bool)
    ensures
        r == prices@.contains(price),
{
    for i in 0..prices.len()
        invariant
            forall|j: int| 0 <= j < i ==> prices@[j] != price,
    {
        if prices[i] == price {
            assert(prices@[i as int] == price);
            return true;
        }
    }
    false
}

/// The public key of an account: its encoding.
fn reward_key(account: &AccountId) -> (key: [u8; 32])
    ensures
        key == *account,
{
    let account_bytes = encode_account(account);
    let mut key: [u8; 32] = [0u8;32];
    for i in 0..32usize
        invariant
            account_bytes@ == account@,
            forall|j: int| 0 <= j < i ==> key@[j] == account@[j],
    {
        key[i] = account_bytes[i];
    }
    assert forall|j: int| 0 <= j < 32 implies key[j] == account[j] by {
        assert(key@[j] == account@[j]);
    }
    assert(key =~= *account);
    key
}

/// Aggregates the prices of a trade pair.
pub fn aggregate(
    acc_and_prices: Vec<(AccountId, u64)>,
    outliers_range: u32,
    divergency: u32,
) -> (r: Option<(u64, BoundedVec<[u8; 32], 64>)>)
    requires
        fence_fits(prices_of(truncated(acc_and_prices@, 32)), outliers_range),
    ensures
        r.model() == aggregated(acc_and_prices@, outliers_range, divergency),
{
    let bounded: BoundedVec<(AccountId, u64), 32> = BoundedVec::truncate_from(acc_and_prices);
    let taken = bounded.into_inner();
    let ghost all = taken@;
    let ghost prices = prices_of(all);
    let sorted = sort_by_price(taken);
    let mut sorted_prices: Vec<u64> = Vec::new();
    for i in 0..sorted.len()
        invariant
            sorted_prices@ == prices_of(sorted@.take(i as int)),
    {
        sorted_prices.push(sorted[i].1);
        assert(prices_of(sorted@.take(i + 1)) =~= prices_of(sorted@.take(i as int)).push(
            sorted@[i as int].1,
        ));
    }
    assert(sorted@.take(sorted@.len() as int) =~= sorted@);
    let ghost s = sorted_prices@;
    assert(s == prices_of(sorted@));
    proof {
        lemma_same_prices(all);
        lemma_median_ignores_order(s, prices);
        lemma_kept_ignores_order(s, prices);
    }
    let copied = sorted_prices.clone();
    assert(copied@ =~= s);
    let median: u64 = match calculate_median(copied) {
        Some(median) => median,
        None => {
            return None;
        },
    };
    let ghost keep = |price: u64| is_kept(s, median, outliers_range, divergency, price);
    let (non_outliers, _outliers) = match filter_outliers(
        sorted_prices,
        median,
        outliers_range,
        divergency,
    ) {
        Some(split) => split,
        None => {
            return None;
        },
    };
    proof {
        assert(non_outliers@ == s.filter(keep));
        lemma_filter_holds(s, keep);
    }
    let mut rewards: Vec<[u8; 32]> = Vec::new();
    proof {
        lemma_rewarded(sorted@.take(0), prices, median, outliers_range, divergency);
    }
    for i in 0..sorted.len()
        invariant
            sorted@.len() <= 32,
            rewards@.len() <= i,
            s == prices_of(sorted@),
            keep == (|price: u64| is_kept(s, median, outliers_range, divergency, price)),
            non_outliers@ == s.filter(keep),
            forall|j: int|
                0 <= j < non_outliers@.len() ==> keep(#[trigger] non_outliers@[j]),
            forall|j: int|
                0 <= j < s.len() && keep(#[trigger] s[j]) ==> non_outliers@.contains(s[j]),
            forall|price: u64|
                is_kept(s, median, outliers_range, divergency, price) == is_kept(
                    prices,
                    median,
                    outliers_range,
                    divergency,
                    price,
                ),
            rewards@ == rewarded(
                sorted@.take(i as int),
                prices,
                median,
                outliers_range,
                divergency,
            ),
    {
        let price: u64 = sorted[i].1;
        proof {
            lemma_rewarded(sorted@.take(i + 1), prices, median, outliers_range, divergency);
            assert(sorted@.take(i + 1).drop_last() =~= sorted@.take(i as int));
            assert(s[i as int] == price);
            assert(keep(s[i as int]) ==> non_outliers@.contains(price));
            assert(non_outliers@.contains(price) ==> keep(price));
        }
        if contains_price(&non_outliers, price) {
            rewards.push(reward_key(&sorted[i].0));
        }
    }
    assert(sorted@.take(sorted@.len() as int) =~= sorted@);
    let bounded_rewards: BoundedVec<[u8; 32], 64> = BoundedVec::truncate_from(rewards);
    proof {
        assert(bounded_rewards@ == rewards@);
        assert(bounded_rewards.model() =~= bounded_rewards@);
    }
    Some((median, bounded_rewards))
}

} // verus!
