//! What the price provider promises.
use crate::aggregation::median::{lemma_median_ignores_order, median_of};
use crate::aggregation::rational::Fraction;
use crate::price_providers::generic::{
    body_value, cache_ttl, cached_bits, cached_prices, converted_price, in_time,
    lemma_aggregated_pairs,
    medians, member, only_converted, planned_requests, price_value, prices_for, resolved_config,
    response_value, step, submitted_prices, walk, LookupModel, PriceError, PriceValueModel,
};
use crate::price_providers::json::JsonModel;
use crate::scale::little_endian;
use crate::sorted_map::{holds_key, keys_ascend, listing};
use crate::types::config::node::{
    DataSourceModel, PairModel, PathStepModel, PriceProviderConfigModel,
};
use crate::types::TradePair;
use vstd::arithmetic::div_mod::*;
use vstd::arithmetic::mul::*;
use vstd::prelude::*;
use vstd::seq_lib::group_to_multiset_ensures;

verus! {

// ---------------------------------------------------------------------------------------------
// Medians by trade pair

/// The places where a price is listed for a trade pair.
pub open spec fn places(
    prices: Seq<(PairModel, Option<u64>)>,
    pair: PairModel,
    price: u64,
) -> Set<int> {
    Set::new(
        |i: int| 0 <= i < prices.len() && prices[i].0 == pair && prices[i].1 == Some(price),
    )
}

proof fn lemma_places(prices: Seq<(PairModel, Option<u64>)>, pair: PairModel, price: u64)
    ensures
        places(prices, pair, price).finite(),
        prices.len() == 0 ==> places(prices, pair, price).len() == 0,
        prices.len() > 0 ==> places(prices, pair, price).len() == places(
            prices.drop_last(),
            pair,
            price,
        ).len() + (if prices.last() == (pair, Some(price)) {
            1int
        } else {
            0
        }),
    decreases prices.len(),
{
    let all = places(prices, pair, price);
    if prices.len() == 0 {
        assert(all =~= Set::<int>::empty());
    } else {
        let rest = prices.drop_last();
        lemma_places(rest, pair, price);
        let before = places(rest, pair, price);
        let last = prices.len() - 1;
        assert(forall|i: int| 0 <= i < rest.len() ==> rest[i] == prices[i]);
        assert(all =~= if prices.last() == (pair, Some(price)) {
            before.insert(last)
        } else {
            before
        });
    }
}

/// Each converted price of a trade pair counts as often as it is listed for the pair.
pub proof fn lemma_prices_counted(
    prices: Seq<(PairModel, Option<u64>)>,
    pair: PairModel,
    price: u64,
)
    ensures
        prices_for(prices, pair).to_multiset().count(price) == places(prices, pair, price).len(),
    decreases prices.len(),
{
    broadcast use group_to_multiset_ensures;

    lemma_places(prices, pair, price);
    if prices.len() > 0 {
        lemma_prices_counted(prices.drop_last(), pair, price);
    }
}

/// `list` holds every price as often as it is listed for the pair.
pub open spec fn holds_prices(
    list: Seq<u64>,
    prices: Seq<(PairModel, Option<u64>)>,
    pair: PairModel,
) -> bool {
    forall|price: u64| #[trigger]
        list.to_multiset().count(price) == places(prices, pair, price).len()
}

/// The aggregation gives each trade pair that has a converted price, and no other, the median of all
/// its converted prices, once and in the order of the pairs.
pub proof fn lemma_medians_of_all_prices(
    prices: Seq<(PairModel, Option<u64>)>,
    pair: PairModel,
    list: Seq<u64>,
)
    requires
        holds_prices(list, prices, pair),
    ensures
        ({
            let aggregated = listing::<TradePair, u64>(medians(prices));
            &&& keys_ascend::<TradePair, u64>(aggregated)
            &&& list.len() > 0 <==> holds_key(aggregated, pair)
            &&& forall|i: int|
                0 <= i < aggregated.len() && (#[trigger] aggregated[i]).0 == pair ==> median_of(list)
                    == Some(aggregated[i].1)
        }),
{
    broadcast use group_to_multiset_ensures;

    let own = prices_for(prices, pair);
    assert forall|price: u64| own.to_multiset().count(price) == list.to_multiset().count(price) by {
        lemma_prices_counted(prices, pair, price);
        assert(list.to_multiset().count(price) == places(prices, pair, price).len());
    }
    assert(own.to_multiset() =~= list.to_multiset());
    assert(own.len() == list.len()) by {
        assert(own.to_multiset().len() == own.len());
        assert(list.to_multiset().len() == list.len());
    }
    lemma_median_ignores_order(own, list);
    lemma_aggregated_pairs(prices);
    let aggregated = listing::<TradePair, u64>(medians(prices));
    if holds_key(aggregated, pair) {
        let i = choose|i: int| 0 <= i < aggregated.len() && (#[trigger] aggregated[i]).0 == pair;
        assert(median_of(own) == Some(aggregated[i].1));
    }
}

/// With a configuration, the fetched and the cached prices of a trade pair count alike: what is
/// submitted for it is the median of all of them.
pub proof fn lemma_fetched_and_cached_submitted(
    fetched: Seq<(PairModel, Option<u64>)>,
    cached: Seq<(PairModel, Option<u64>)>,
    pair: PairModel,
    list: Seq<u64>,
)
    requires
        forall|price: u64| #[trigger]
            list.to_multiset().count(price) == places(fetched, pair, price).len() + places(
                cached,
                pair,
                price,
            ).len(),
    ensures
        ({
            let submitted = submitted_prices(true, fetched, cached);
            &&& keys_ascend::<TradePair, u64>(submitted)
            &&& list.len() > 0 <==> holds_key(submitted, pair)
            &&& forall|i: int|
                0 <= i < submitted.len() && (#[trigger] submitted[i]).0 == pair ==> median_of(list)
                    == Some(submitted[i].1)
        }),
{
    assert forall|price: u64| #[trigger]
        list.to_multiset().count(price) == places(fetched + cached, pair, price).len() by {
        lemma_places_joined(fetched, cached, pair, price);
    }
    lemma_medians_of_all_prices(fetched + cached, pair, list);
}

proof fn lemma_places_joined(
    a: Seq<(PairModel, Option<u64>)>,
    b: Seq<(PairModel, Option<u64>)>,
    pair: PairModel,
    price: u64,
)
    ensures
        places(a + b, pair, price).len() == places(a, pair, price).len() + places(
            b,
            pair,
            price,
        ).len(),
    decreases b.len(),
{
    lemma_places(b, pair, price);
    if b.len() == 0 {
        assert(a + b =~= a);
    } else {
        lemma_places(a + b, pair, price);
        assert((a + b).drop_last() =~= a + b.drop_last());
        lemma_places_joined(a, b.drop_last(), pair, price);
    }
}

/// Without a configuration the cached prices are submitted as they are, in their order, but for those
/// that could not be converted.
pub proof fn lemma_cached_submitted(
    fetched: Seq<(PairModel, Option<u64>)>,
    cached: Seq<(PairModel, Option<u64>)>,
)
    ensures
        submitted_prices(false, fetched, cached) == cached.filter(
            |entry: (PairModel, Option<u64>)| entry.1 is Some,
        ).map_values(|entry: (PairModel, Option<u64>)| (entry.0, entry.1->0)),
{
    lemma_only_converted(cached);
}

proof fn lemma_only_converted(prices: Seq<(PairModel, Option<u64>)>)
    ensures
        only_converted(prices) == prices.filter(
            |entry: (PairModel, Option<u64>)| entry.1 is Some,
        ).map_values(|entry: (PairModel, Option<u64>)| (entry.0, entry.1->0)),
    decreases prices.len(),
{
    reveal(Seq::filter);
    let some = |entry: (PairModel, Option<u64>)| entry.1 is Some;
    let pick = |entry: (PairModel, Option<u64>)| (entry.0, entry.1->0);
    if prices.len() > 0 {
        let rest = prices.drop_last();
        lemma_only_converted(rest);
        assert(rest.filter(some).push(prices.last()).map_values(pick) =~= rest.filter(
            some,
        ).map_values(pick).push(pick(prices.last())));
    } else {
        assert(prices.filter(some).map_values(pick) =~= Seq::<(PairModel, u64)>::empty());
    }
}

// ---------------------------------------------------------------------------------------------
// Conversion

/// A price converts to the whole number of thousandths that is nearest to it, where a half goes up,
/// unless that is more than a `u64` holds.
pub proof fn lemma_price_converted(price: Fraction)
    requires
        price.denom > 0,
    ensures
        converted_price(None) == Err::<u64, PriceError>(PriceError::NotRational),
        match converted_price(Some(price)) {
            Ok(v) => (2 * v - 1) * price.denom <= 2000 * price.numer && 2000 * price.numer < (2 * v
                + 1) * price.denom,
            Err(error) => error == PriceError::Overflow && 2000 * price.numer >= (2 * u64::MAX + 1)
                * price.denom,
        },
{
    let n = (price.numer * 1000) as int;
    let d = price.denom as int;
    lemma_fundamental_div_mod(n, d);
    lemma_mod_bound(n, d);
    let q = n / d;
    let r = n % d;
    let v = if 2 * r >= d {
        q + 1
    } else {
        q
    };
    assert(v == crate::price_providers::generic::scaled_price(price));
    assert((2 * v - 1) * d <= 2 * n && 2 * n < (2 * v + 1) * d) by (nonlinear_arith)
        requires
            n == d * q + r,
            0 <= r < d,
            2 * r >= d ==> v == q + 1,
            2 * r < d ==> v == q,
    ;
    if v > u64::MAX {
        assert((2 * v - 1) * d >= (2 * u64::MAX + 1) * d) by (nonlinear_arith)
            requires
                v > u64::MAX,
                d > 0,
        ;
    }
}

// ---------------------------------------------------------------------------------------------
// Cache

/// A number that is stored in eight bytes, the least significant first.
pub open spec fn eight_bytes(b: Seq<u8>, at: int) -> int {
    b[at] + 0x100 * b[at + 1] + 0x1_0000 * b[at + 2] + 0x100_0000 * b[at + 3] + 0x1_0000_0000 * b[at
        + 4] + 0x100_0000_0000 * b[at + 5] + 0x1_0000_0000_0000 * b[at + 6] + 0x100_0000_0000_0000
        * b[at + 7]
}

/// A cached price is used exactly if its entry holds the price and the time it was written at, and it
/// was written less than `ttl` milliseconds before the look.
pub proof fn lemma_cache_entry_used(lookup: LookupModel, ttl: u64)
    ensures
        match lookup.entry {
            Some(bytes) => {
                let usable = bytes.len() >= 16 && lookup.now < eight_bytes(bytes, 8) + ttl;
                &&& cached_bits(lookup, ttl) is Some <==> usable
                &&& cached_bits(lookup, ttl) matches Some(bits) ==> bits == eight_bytes(bytes, 0)
            },
            None => cached_bits(lookup, ttl) is None,
        },
{
    if lookup.entry is Some {
        let bytes = lookup.entry->0;
        if bytes.len() >= 16 {
            let low = bytes.take(8);
            let high = bytes.subrange(8, 16);
            lemma_eight_bytes(low);
            lemma_eight_bytes(high);
            assert(eight_bytes(low, 0) == eight_bytes(bytes, 0));
            assert(eight_bytes(high, 0) == eight_bytes(bytes, 8));
        }
    }
}

/// A look into the cache is in order unless it finds an entry that was written later.
pub proof fn lemma_lookup_in_time(lookup: LookupModel)
    ensures
        lookup.entry is None ==> in_time(lookup),
        lookup.entry matches Some(bytes) ==> (in_time(lookup) <==> bytes.len() < 16 || eight_bytes(
            bytes,
            8,
        ) <= lookup.now),
{
    if lookup.entry is Some {
        let bytes = lookup.entry->0;
        if bytes.len() >= 16 {
            let high = bytes.subrange(8, 16);
            lemma_eight_bytes(high);
            assert(eight_bytes(high, 0) == eight_bytes(bytes, 8));
        }
    }
}

proof fn lemma_eight_bytes(b: Seq<u8>)
    requires
        b.len() == 8,
    ensures
        little_endian(b) == eight_bytes(b, 0),
        eight_bytes(b, 0) <= u64::MAX,
{
    reveal_with_fuel(little_endian, 9);
}

/// The cached prices are those of the usable entries, with their trade pairs and in the order of the
/// looks.
pub proof fn lemma_cached_prices_listed(lookups: Seq<LookupModel>, ttl: u64)
    ensures
        cached_prices(lookups, ttl) == lookups.filter(
            |lookup: LookupModel| cached_bits(lookup, ttl) is Some,
        ).map_values(|lookup: LookupModel| (lookup.trade_pair, cached_bits(lookup, ttl)->0)),
    decreases lookups.len(),
{
    reveal(Seq::filter);
    let usable = |lookup: LookupModel| cached_bits(lookup, ttl) is Some;
    let pick = |lookup: LookupModel| (lookup.trade_pair, cached_bits(lookup, ttl)->0);
    if lookups.len() > 0 {
        let rest = lookups.drop_last();
        lemma_cached_prices_listed(rest, ttl);
        assert(rest.filter(usable).push(lookups.last()).map_values(pick) =~= rest.filter(
            usable,
        ).map_values(pick).push(pick(lookups.last())));
    } else {
        assert(lookups.filter(usable).map_values(pick) =~= Seq::<(PairModel, u64)>::empty());
    }
}

// ---------------------------------------------------------------------------------------------
// Requests

/// One trade pair is asked for at each of its sources, in their order, and at none if it has none.
pub proof fn lemma_requests_of_one(sources: Map<PairModel, Seq<DataSourceModel>>, pair: PairModel)
    ensures
        !sources.contains_key(pair) ==> planned_requests(sources, seq![pair]).len() == 0,
        sources.contains_key(pair) ==> {
            let planned = planned_requests(sources, seq![pair]);
            &&& planned.len() == sources[pair].len()
            &&& forall|j: int|
                0 <= j < planned.len() ==> #[trigger] planned[j] == (pair, sources[pair][j])
        },
{
    reveal_with_fuel(planned_requests, 2);
    assert(seq![pair].drop_last() =~= Seq::<PairModel>::empty());
}

/// The requests for two lists of trade pairs are those for the first and then those for the second.
pub proof fn lemma_requests_join(
    sources: Map<PairModel, Seq<DataSourceModel>>,
    a: Seq<PairModel>,
    b: Seq<PairModel>,
)
    ensures
        planned_requests(sources, a + b) == planned_requests(sources, a) + planned_requests(
            sources,
            b,
        ),
        planned_requests(sources, Seq::empty()).len() == 0,
    decreases b.len(),
{
    if b.len() == 0 {
        assert(a + b =~= a);
        assert(planned_requests(sources, a) + planned_requests(sources, b) =~= planned_requests(
            sources,
            a,
        ));
    } else {
        lemma_requests_join(sources, a, b.drop_last());
        assert((a + b).drop_last() =~= a + b.drop_last());
        let last = b.last();
        let own = crate::price_providers::generic::sources_of(sources, last).map_values(
            |source: DataSourceModel| (last, source),
        );
        assert(planned_requests(sources, a + b) == planned_requests(sources, a + b.drop_last())
            + own);
        assert(planned_requests(sources, b) == planned_requests(sources, b.drop_last()) + own);
        assert(planned_requests(sources, a + b) =~= planned_requests(sources, a)
            + planned_requests(sources, b));
    }
}

// ---------------------------------------------------------------------------------------------
// Documents

/// A key leads to the value of its first member in an object, an index to its item in an array, and
/// nothing else leads anywhere.
pub proof fn lemma_step(json: JsonModel, element: PathStepModel)
    ensures
        match (json, element) {
            (JsonModel::Object(members), PathStepModel::Key(key)) => {
                &&& step(json, element) is None <==> forall|i: int|
                    0 <= i < members.len() ==> (#[trigger] members[i]).0 != key
                &&& forall|i: int|
                    0 <= i < members.len() && (#[trigger] members[i]).0 == key && (forall|j: int|
                        0 <= j < i ==> (#[trigger] members[j]).0 != key) ==> step(json, element)
                        == Some(members[i].1)
            },
            (JsonModel::Array(items), PathStepModel::Index(index)) => {
                &&& index < items.len() ==> step(json, element) == Some(items[index as int])
                &&& index >= items.len() ==> step(json, element) is None
            },
            _ => step(json, element) is None,
        },
{
    match (json, element) {
        (JsonModel::Object(members), PathStepModel::Key(key)) => {
            lemma_member(members, key);
        },
        _ => {},
    }
}

proof fn lemma_member(members: Seq<(Seq<char>, JsonModel)>, key: Seq<char>)
    ensures
        member(members, key) is None <==> forall|i: int|
            0 <= i < members.len() ==> (#[trigger] members[i]).0 != key,
        forall|i: int|
            0 <= i < members.len() && (#[trigger] members[i]).0 == key && (forall|j: int|
                0 <= j < i ==> (#[trigger] members[j]).0 != key) ==> member(members, key) == Some(
                members[i].1,
            ),
    decreases members.len(),
{
    if members.len() > 0 && members[0].0 != key {
        let rest = members.drop_first();
        lemma_member(rest, key);
        assert(forall|i: int| 0 <= i < rest.len() ==> #[trigger] rest[i] == members[i + 1]);
        assert forall|i: int|
            0 <= i < members.len() && (#[trigger] members[i]).0 == key && (forall|j: int|
                0 <= j < i ==> (#[trigger] members[j]).0 != key) implies member(members, key)
            == Some(members[i].1) by {
            assert(rest[i - 1] == members[i]);
            assert forall|j: int| 0 <= j < i - 1 implies (#[trigger] rest[j]).0 != key by {
                assert(rest[j] == members[j + 1]);
            }
        }
        if member(members, key) is None {
            assert forall|i: int| 0 <= i < members.len() implies (#[trigger] members[i]).0 != key by {
                if i > 0 {
                    assert(rest[i - 1] == members[i]);
                }
            }
        }
        if forall|i: int| 0 <= i < members.len() ==> (#[trigger] members[i]).0 != key {
            assert forall|i: int| 0 <= i < rest.len() implies (#[trigger] rest[i]).0 != key by {
                assert(rest[i] == members[i + 1]);
            }
        }
    }
}

/// A path leads where its first part leads and from there the second; one element is one step, and no
/// element stays.
pub proof fn lemma_walk_joined(json: JsonModel, a: Seq<PathStepModel>, b: Seq<PathStepModel>)
    ensures
        walk(json, Seq::empty()) == Some(json),
        forall|element: PathStepModel| #[trigger]
            walk(json, seq![element]) == step(json, element),
        walk(json, a + b) == match walk(json, a) {
            Some(inner) => walk(inner, b),
            None => None,
        },
    decreases b.len(),
{
    assert forall|element: PathStepModel| #[trigger]
        walk(json, seq![element]) == step(json, element) by {
        reveal_with_fuel(walk, 2);
        assert(seq![element].drop_last() =~= Seq::<PathStepModel>::empty());
    }
    if b.len() == 0 {
        assert(a + b =~= a);
    } else {
        lemma_walk_joined(json, a, b.drop_last());
        assert((a + b).drop_last() =~= a + b.drop_last());
    }
}

/// A response has a price exactly if its status is 200, its body is a document, and the path leads to
/// a text or a number that has bits; that is the price.
pub proof fn lemma_response_price(code: u16, json: Option<JsonModel>, path: Seq<PathStepModel>)
    ensures
        code != 200 || json is None ==> response_value(code, json, path) is None,
        json is None ==> body_value(json, path) is None,
        json matches Some(document) ==> {
            let value = body_value(json, path);
            &&& code == 200 ==> response_value(code, json, path) == value
            &&& price_value(document, path) == value
            &&& match walk(document, path) {
                Some(JsonModel::Text(text)) => value == Some(PriceValueModel::Text(text)),
                Some(JsonModel::Number(Some(bits))) => value == Some(
                    PriceValueModel::Number(bits),
                ),
                _ => value is None,
            }
        },
{
}

/// The stored configuration is used where there is one, as it was read; its time to live is that of
/// the cache, which is five minutes without a configuration.
pub proof fn lemma_configuration_used(
    parsed: Option<PriceProviderConfigModel>,
    config: PriceProviderConfigModel,
)
    ensures
        resolved_config(Some(parsed)) == parsed,
        resolved_config(None) is Some,
        cache_ttl(Some(config)) == config.price_cache_ttl_millis,
        cache_ttl(None) == 5 * 60 * 1000,
{
}

} // verus!
