//! Prices from configured HTTP sources and from a cache.
//!
//! A price is carried as the bits of its floating-point number until it is converted to thousandths.
use crate::aggregation::median::{calculate_median, median_of};
use crate::aggregation::rational::{lemma_lowest_rounds, round_div, whole, Fraction, Rational};
use crate::aggregation::statistics::SCALING_FACTOR;
use crate::model::{lemma_models_push, models, Key, Model};
use crate::price_providers::json::{parse_json, parsed_json, Json, JsonModel};
use crate::scale::{decode_number_pair, little_endian};
use crate::sorted_map::{
    holds_key, keys_ascend, lemma_listed, lemma_listing, lemma_map_entry, lemma_map_of_ext, listing, map_of,
    SortedMap,
};
use crate::types::config::node::{
    ada_usd, bitget, DataSource, DataSourceModel, JsonPathElement, PairModel, PathStepModel,
    PriceProviderConfig, PriceProviderConfigModel, DEFAULT_PRICE_CACHE_TTL_MS,
    HTTP_REQUEST_TIMEOUT_MILLIS, HTTP_RESPONSE_WAIT_MILLIS,
};
use crate::types::TradePair;
use vstd::arithmetic::div_mod::*;
use vstd::prelude::*;

verus! {

pub struct GenericApiProvider;

// ---------------------------------------------------------------------------------------------
// Configuration

/// The configuration when none is stored.
pub open spec fn default_config() -> PriceProviderConfigModel {
    PriceProviderConfigModel {
        sources: map![ada_usd() => seq![bitget()]],
        http_request_timeout_millis: HTTP_REQUEST_TIMEOUT_MILLIS,
        http_response_wait_millis: HTTP_RESPONSE_WAIT_MILLIS,
        price_cache_ttl_millis: DEFAULT_PRICE_CACHE_TTL_MS,
    }
}

/// The configuration to use: the stored one if it can be read, none if it cannot, and the default
/// where nothing is stored.
pub open spec fn resolved_config(
    stored: Option<Option<PriceProviderConfigModel>>,
) -> Option<PriceProviderConfigModel> {
    match stored {
        Some(parsed) => parsed,
        None => Some(default_config()),
    }
}

/// How long a cached price is used.
pub open spec fn cache_ttl(config: Option<PriceProviderConfigModel>) -> u64 {
    match config {
        Some(config) => config.price_cache_ttl_millis,
        None => DEFAULT_PRICE_CACHE_TTL_MS,
    }
}

// ---------------------------------------------------------------------------------------------
// Responses

/// The value of the first member with a key.
pub open spec fn member(members: Seq<(Seq<char>, JsonModel)>, key: Seq<char>) -> Option<JsonModel>
    decreases members.len(),
{
    if members.len() == 0 {
        None
    } else if members[0].0 == key {
        Some(members[0].1)
    } else {
        member(members.drop_first(), key)
    }
}

/// One step into a document: a key leads into an object, an index into an array.
pub open spec fn step(json: JsonModel, element: PathStepModel) -> Option<JsonModel> {
    match (json, element) {
        (JsonModel::Object(members), PathStepModel::Key(key)) => member(members, key),
        (JsonModel::Array(items), PathStepModel::Index(index)) => if index < items.len() {
            Some(items[index as int])
        } else {
            None
        },
        _ => None,
    }
}

/// Where a path leads.
pub open spec fn walk(json: JsonModel, path: Seq<PathStepModel>) -> Option<JsonModel>
    decreases path.len(),
{
    if path.len() == 0 {
        Some(json)
    } else {
        match walk(json, path.drop_last()) {
            Some(inner) => step(inner, path.last()),
            None => None,
        }
    }
}

/// A price as a response gives it.
#[derive(Debug, PartialEq, Eq)]
pub enum PriceValue {
    /// A text, yet to be read as a number.
    Text(String),
    /// The bits of a number.
    Number(u64),
}

#[verifier::ext_equal]
pub enum PriceValueModel {
    Text(Seq<char>),
    Number(u64),
}

impl Model for PriceValue {
    type M = PriceValueModel;

    open spec fn model(&self) -> PriceValueModel {
        match self {
            PriceValue::Text(text) => PriceValueModel::Text(text@),
            PriceValue::Number(bits) => PriceValueModel::Number(*bits),
        }
    }

    fn duplicate(&self) -> (copy: PriceValue) {
        match self {
            PriceValue::Text(text) => PriceValue::Text(text.clone()),
            PriceValue::Number(bits) => PriceValue::Number(*bits),
        }
    }
}

/// The text or number that a path leads to.
pub open spec fn price_value(json: JsonModel, path: Seq<PathStepModel>) -> Option<PriceValueModel> {
    match walk(json, path) {
        Some(JsonModel::Text(text)) => Some(PriceValueModel::Text(text)),
        Some(JsonModel::Number(Some(bits))) => Some(PriceValueModel::Number(bits)),
        _ => None,
    }
}

/// The price in a body: there is none unless the body is JSON.
pub open spec fn body_value(json: Option<JsonModel>, path: Seq<PathStepModel>) -> Option<
    PriceValueModel,
> {
    match json {
        Some(json) => price_value(json, path),
        None => None,
    }
}

/// The price in a response: there is none unless the status is 200.
pub open spec fn response_value(
    code: u16,
    json: Option<JsonModel>,
    path: Seq<PathStepModel>,
) -> Option<PriceValueModel> {
    if code == 200 {
        body_value(json, path)
    } else {
        None
    }
}

fn find_member<'a>(members: &'a Vec<(String, Json)>, key: &String) -> (r: Option<&'a Json>)
    ensures
        (match r {
            Some(value) => Some(value.model()),
            None => None,
        }) == member(Json::Object(*members).model()->Object_0, key@),
{
    let ghost all = Json::Object(*members).model()->Object_0;
    assert(all.skip(0) =~= all);
    for i in 0..members.len()
        invariant
            all == Json::Object(*members).model()->Object_0,
            member(all, key@) == member(all.skip(i as int), key@),
    {
        proof {
            assert(all[i as int] == (members@[i as int].0@, members@[i as int].1.model()));
            assert(all.skip(i as int)[0] == all[i as int]);
            assert(all.skip(i as int).drop_first() =~= all.skip(i + 1));
        }
        if members[i].0 == *key {
            return Some(&members[i].1);
        }
    }
    assert(all.skip(all.len() as int).len() == 0);
    None
}

fn take_step<'a>(json: &'a Json, element: &JsonPathElement) -> (r: Option<&'a Json>)
    ensures
        (match r {
            Some(value) => Some(value.model()),
            None => None,
        }) == step(json.model(), element.model()),
{
    match element {
        JsonPathElement::Key(key) => {
            match json {
                Json::Object(members) => find_member(members, key),
                _ => None,
            }
        },
        JsonPathElement::Index(index) => {
            match json {
                Json::Array(items) => {
                    if (*index as usize) < items.len() {
                        Some(&items[*index as usize])
                    } else {
                        None
                    }
                },
                _ => None,
            }
        },
    }
}

// ---------------------------------------------------------------------------------------------
// Cache

/// A look into the cache for the price of a trade pair.
#[derive(Debug, PartialEq, Eq)]
pub struct CacheLookup {
    pub trade_pair: TradePair,
    /// The time of the look, in milliseconds.
    pub now: u64,
    /// The entry that was found: the encoded bits of the price and its timestamp.
    pub entry: Option<Vec<u8>>,
}

#[verifier::ext_equal]
pub struct LookupModel {
    pub trade_pair: PairModel,
    pub now: u64,
    pub entry: Option<Seq<u8>>,
}

impl Model for CacheLookup {
    type M = LookupModel;

    open spec fn model(&self) -> LookupModel {
        LookupModel {
            trade_pair: self.trade_pair.model(),
            now: self.now,
            entry: match self.entry {
                Some(bytes) => Some(bytes@),
                None => None,
            },
        }
    }

    fn duplicate(&self) -> (copy: CacheLookup) {
        let entry = match &self.entry {
            Some(bytes) => {
                let copied = bytes.clone();
                assert(copied@ =~= bytes@);
                Some(copied)
            },
            None => None,
        };
        CacheLookup { trade_pair: self.trade_pair.duplicate(), now: self.now, entry }
    }
}

/// The bits of a price and its timestamp, from a cache entry.
pub open spec fn decoded_entry(entry: Option<Seq<u8>>) -> Option<(nat, nat)> {
    match entry {
        Some(bytes) => if bytes.len() >= 16 {
            Some((little_endian(bytes.take(8)), little_endian(bytes.subrange(8, 16))))
        } else {
            None
        },
        None => None,
    }
}

/// The entry was not written later than it is looked for.
pub open spec fn in_time(lookup: LookupModel) -> bool {
    decoded_entry(lookup.entry) matches Some((_, timestamp)) ==> timestamp <= lookup.now
}

/// The cached price, if there is one that has not expired.
pub open spec fn cached_bits(lookup: LookupModel, ttl: u64) -> Option<u64> {
    match decoded_entry(lookup.entry) {
        Some((bits, timestamp)) => if lookup.now - timestamp < ttl {
            Some(bits as u64)
        } else {
            None
        },
        None => None,
    }
}

/// The cached prices of the trade pairs that have one.
pub open spec fn cached_prices(lookups: Seq<LookupModel>, ttl: u64) -> Seq<(PairModel, u64)>
    decreases lookups.len(),
{
    if lookups.len() == 0 {
        Seq::empty()
    } else {
        let rest = cached_prices(lookups.drop_last(), ttl);
        match cached_bits(lookups.last(), ttl) {
            Some(bits) => rest.push((lookups.last().trade_pair, bits)),
            None => rest,
        }
    }
}

pub open spec fn all_in_time(lookups: Seq<LookupModel>) -> bool {
    forall|i: int| 0 <= i < lookups.len() ==> #[trigger] in_time(lookups[i])
}

// ---------------------------------------------------------------------------------------------
// Requests

/// The sources of a trade pair.
pub open spec fn sources_of(
    sources: Map<PairModel, Seq<DataSourceModel>>,
    pair: PairModel,
) -> Seq<DataSourceModel> {
    if sources.contains_key(pair) {
        sources[pair]
    } else {
        Seq::empty()
    }
}

/// The requests for the trade pairs: one to each source of each pair.
pub open spec fn planned_requests(
    sources: Map<PairModel, Seq<DataSourceModel>>,
    pairs: Seq<PairModel>,
) -> Seq<(PairModel, DataSourceModel)>
    decreases pairs.len(),
{
    if pairs.len() == 0 {
        Seq::empty()
    } else {
        planned_requests(sources, pairs.drop_last()) + sources_of(
            sources,
            pairs.last(),
        ).map_values(|source: DataSourceModel| (pairs.last(), source))
    }
}

// ---------------------------------------------------------------------------------------------
// Conversion and aggregation

/// Why a price cannot be converted.
#[derive(Clone, Copy, Debug, PartialEq, Eq, Structural)]
pub enum PriceError {
    /// Failed to convert f64 to rational
    NotRational,
    /// Overflow: too large for u64
    Overflow,
}

/// A price in thousandths, rounded to the nearest.
pub open spec fn scaled_price(price: Fraction) -> nat {
    round_div(price.numer * SCALING_FACTOR as nat, price.denom)
}

/// What a price converts to. `None` stands for a number that has no fraction.
pub open spec fn converted_price(price: Option<Fraction>) -> Result<u64, PriceError> {
    match price {
        Some(fraction) => if scaled_price(fraction) <= u64::MAX {
            Ok(scaled_price(fraction) as u64)
        } else {
            Err(PriceError::Overflow)
        },
        None => Err(PriceError::NotRational),
    }
}

/// A price in thousandths.
pub fn price_to_u64(price: Option<Rational>) -> (r: Result<u64, PriceError>)
    requires
        price matches Some(fraction) ==> fraction@.times(whole(SCALING_FACTOR as nat)).fits(),
    ensures
        r == converted_price(
            match price {
                Some(fraction) => Some(fraction@),
                None => None,
            },
        ),
{
    let rational = match price {
        Some(rational) => rational,
        None => {
            return Err(PriceError::NotRational);
        },
    };
    proof {
        use_type_invariant(&rational);
        lemma_lowest_rounds(
            rational@.numer * SCALING_FACTOR as nat,
            rational@.denom * 1,
        );
    }
    let scaled: u128 = rational.scale(SCALING_FACTOR).round().to_integer();
    proof {
        lemma_div_basics(rational@.times(whole(SCALING_FACTOR as nat)).round() as int);
    }
    if scaled <= u64::MAX as u128 {
        Ok(scaled as u64)
    } else {
        Err(PriceError::Overflow)
    }
}

/// The prices that could be converted, with their trade pairs.
pub open spec fn only_converted(prices: Seq<(PairModel, Option<u64>)>) -> Seq<(PairModel, u64)>
    decreases prices.len(),
{
    if prices.len() == 0 {
        Seq::empty()
    } else {
        let rest = only_converted(prices.drop_last());
        match prices.last().1 {
            Some(price) => rest.push((prices.last().0, price)),
            None => rest,
        }
    }
}

/// The converted prices of one trade pair.
pub open spec fn prices_for(prices: Seq<(PairModel, Option<u64>)>, pair: PairModel) -> Seq<u64>
    decreases prices.len(),
{
    if prices.len() == 0 {
        Seq::empty()
    } else {
        let rest = prices_for(prices.drop_last(), pair);
        match prices.last().1 {
            Some(price) => if prices.last().0 == pair {
                rest.push(price)
            } else {
                rest
            },
            None => rest,
        }
    }
}

/// The converted prices of each trade pair that has any.
pub open spec fn grouped(prices: Seq<(PairModel, Option<u64>)>) -> Map<PairModel, Seq<u64>> {
    Map::new(
        |pair: PairModel| prices_for(prices, pair).len() > 0,
        |pair: PairModel| prices_for(prices, pair),
    )
}

/// The median price of each trade pair that has a price.
pub open spec fn medians(prices: Seq<(PairModel, Option<u64>)>) -> Map<PairModel, u64> {
    Map::new(
        |pair: PairModel| prices_for(prices, pair).len() > 0,
        |pair: PairModel| median_of(prices_for(prices, pair))->0,
    )
}

/// The prices that are submitted. With a configuration they are the medians of the fetched and the
/// cached prices, without one the cached prices themselves.
pub open spec fn submitted_prices(
    configured: bool,
    fetched: Seq<(PairModel, Option<u64>)>,
    cached: Seq<(PairModel, Option<u64>)>,
) -> Seq<(PairModel, u64)> {
    if configured {
        listing::<TradePair, u64>(medians(fetched + cached))
    } else {
        only_converted(cached)
    }
}

impl GenericApiProvider {
    /// The configuration to use. `stored` tells whether one is stored and, if so, what it was read
    /// as.
    pub fn load_config(stored: Option<Option<PriceProviderConfig>>) -> (r: Option<
        PriceProviderConfig,
    >)
        ensures
            r.model() == resolved_config(stored.model()),
    {
        match stored {
            Some(parsed) => parsed,
            None => Some(PriceProviderConfig::default()),
        }
    }

    /// How long a cached price is used.
    pub fn price_cache_ttl(config: &Option<PriceProviderConfig>) -> (ttl: u64)
        ensures
            ttl == cache_ttl(config.model()),
    {
        match config {
            Some(conf) => conf.price_cache_ttl_millis,
            None => DEFAULT_PRICE_CACHE_TTL_MS,
        }
    }

    /// Parse response body with JSON path into a price.
    pub fn extract_price(body: &[u8], path: &Vec<JsonPathElement>) -> (r: Option<PriceValue>)
        ensures
            r.model() == body_value(parsed_json(body@), path.model()),
    {
        match parse_json(body) {
            Some(json) => Self::price_at(&json, path),
            None => None,
        }
    }

    /// Follows a path into a document to its price.
    pub fn price_at(json: &Json, path: &Vec<JsonPathElement>) -> (r: Option<PriceValue>)
        ensures
            r.model() == price_value(json.model(), path.model()),
    {
        let ghost steps = path.model();
        let mut cursor = json;
        assert(steps.take(0) =~= Seq::<PathStepModel>::empty());
        for i in 0..path.len()
            invariant
                steps == path.model(),
                walk(json.model(), steps.take(i as int)) == Some(cursor.model()),
        {
            proof {
                assert(steps.take(i + 1).drop_last() =~= steps.take(i as int));
                assert(steps.take(i + 1).last() == path@[i as int].model());
            }
            match take_step(cursor, &path[i]) {
                Some(inner) => {
                    cursor = inner;
                },
                None => {
                    proof {
                        lemma_walk_stuck(json.model(), steps, i + 1);
                    }
                    return None;
                },
            }
        }
        assert(steps.take(steps.len() as int) =~= steps);
        match cursor {
            Json::Text(text) => Some(PriceValue::Text(text.clone())),
            Json::Number(Some(bits)) => Some(PriceValue::Number(*bits)),
            _ => None,
        }
    }

    /// The price in a response.
    pub fn price_from_response(code: u16, body: &[u8], path: &Vec<JsonPathElement>) -> (r: Option<
        PriceValue,
    >)
        ensures
            r.model() == response_value(code, parsed_json(body@), path.model()),
    {
        if code != 200 {
            return None;
        }
        Self::extract_price(body, path)
    }

    /// Whether every cache entry was written before it was looked for.
    pub fn lookups_in_time(lookups: &Vec<CacheLookup>) -> (r: bool)
        ensures
            r == all_in_time(lookups.model()),
    {
        let ghost all = lookups.model();
        for i in 0..lookups.len()
            invariant
                all == lookups.model(),
                forall|j: int| 0 <= j < i ==> #[trigger] in_time(all[j]),
        {
            let lookup = &lookups[i];
            assert(all[i as int] == lookup.model());
            match &lookup.entry {
                Some(bytes) => {
                    match decode_number_pair(bytes) {
                        Some((_bits, timestamp)) => {
                            if timestamp > lookup.now {
                                assert(!in_time(all[i as int]));
                                return false;
                            }
                        },
                        None => {},
                    }
                },
                None => {},
            }
            assert(in_time(all[i as int]));
        }
        true
    }

    /// The cached prices that have not expired, as bits.
    pub fn fetch_cached_prices(lookups: Vec<CacheLookup>, price_cache_ttl_ms: u64) -> (r: Vec<
        (TradePair, u64),
    >)
        requires
            all_in_time(lookups.model()),
        ensures
            r.model() == cached_prices(lookups.model(), price_cache_ttl_ms),
    {
        let ghost all = lookups.model();
        let mut prices_from_cache: Vec<(TradePair, u64)> = Vec::new();
        assert(models(prices_from_cache@) =~= cached_prices(all.take(0), price_cache_ttl_ms));
        for i in 0..lookups.len()
            invariant
                all == lookups.model(),
                all_in_time(all),
                models(prices_from_cache@) == cached_prices(
                    all.take(i as int),
                    price_cache_ttl_ms,
                ),
        {
            let lookup = &lookups[i];
            proof {
                assert(all.take(i + 1).drop_last() =~= all.take(i as int));
                assert(all.take(i + 1).last() == lookup.model());
                assert(in_time(all[i as int]));
            }
            match &lookup.entry {
                Some(entry_bytes) => {
                    match decode_number_pair(entry_bytes) {
                        Some((bits, timestamp)) => {
                            if lookup.now - timestamp < price_cache_ttl_ms {
                                let entry = (lookup.trade_pair.duplicate(), bits);
                                proof {
                                    lemma_models_push(prices_from_cache@, entry);
                                }
                                prices_from_cache.push(entry);
                            }
                        },
                        None => {},
                    }
                },
                None => {},
            }
        }
        assert(all.take(all.len() as int) =~= all);
        prices_from_cache
    }

    /// The requests for the trade pairs.
    pub fn plan_requests(config: &PriceProviderConfig, trade_pairs: &Vec<TradePair>) -> (r: Vec<
        (TradePair, DataSource),
    >)
        ensures
            r.model() == planned_requests(config.sources@, trade_pairs.model()),
    {
        let ghost sources = config.sources@;
        let ghost all = trade_pairs.model();
        let mut requests: Vec<(TradePair, DataSource)> = Vec::new();
        assert(models(requests@) =~= planned_requests(sources, all.take(0)));
        for i in 0..trade_pairs.len()
            invariant
                sources == config.sources@,
                all == trade_pairs.model(),
                models(requests@) == planned_requests(sources, all.take(i as int)),
        {
            let pair = &trade_pairs[i];
            let ghost target = |source: DataSourceModel| (pair.model(), source);
            let ghost before = models(requests@);
            proof {
                assert(all.take(i + 1).drop_last() =~= all.take(i as int));
                assert(all.take(i + 1).last() == pair.model());
                assert(target =~= (|source: DataSourceModel| (all.take(i + 1).last(), source)));
            }
            match config.sources.get(pair) {
                Some(listed) => {
                    assert(listed.model().take(0).map_values(target) =~= Seq::<
                        (PairModel, DataSourceModel),
                    >::empty());
                    for j in 0..listed.len()
                        invariant
                            target == (|source: DataSourceModel| (pair.model(), source)),
                            models(requests@) == before + listed.model().take(
                                j as int,
                            ).map_values(target),
                    {
                        let request = (pair.duplicate(), listed[j].duplicate());
                        proof {
                            lemma_models_push(requests@, request);
                            assert(listed.model()[j as int] == listed@[j as int].model());
                            assert(before + listed.model().take(j + 1).map_values(target) =~= (
                            before + listed.model().take(j as int).map_values(target)).push(
                                target(listed.model()[j as int]),
                            ));
                        }
                        requests.push(request);
                    }
                    assert(listed.model().take(listed@.len() as int) =~= listed.model());
                },
                None => {
                    assert(before + Seq::<DataSourceModel>::empty().map_values(target) =~= before);
                },
            }
        }
        assert(all.take(all.len() as int) =~= all);
        requests
    }

    /// The prices that could be converted.
    pub fn convert_prices(prices: Vec<(TradePair, Option<u64>)>) -> (r: Vec<(TradePair, u64)>)
        ensures
            r.model() == only_converted(prices.model()),
    {
        let ghost all = prices.model();
        let mut converted: Vec<(TradePair, u64)> = Vec::new();
        assert(models(converted@) =~= only_converted(all.take(0)));
        for i in 0..prices.len()
            invariant
                all == prices.model(),
                models(converted@) == only_converted(all.take(i as int)),
        {
            proof {
                assert(all.take(i + 1).drop_last() =~= all.take(i as int));
                assert(all.take(i + 1).last() == prices@[i as int].model());
            }
            match prices[i].1 {
                Some(price) => {
                    let entry = (prices[i].0.duplicate(), price);
                    proof {
                        lemma_models_push(converted@, entry);
                    }
                    converted.push(entry);
                },
                None => {},
            }
        }
        assert(all.take(all.len() as int) =~= all);
        converted
    }

    /// The median of the converted prices, or `None` where there is none.
    pub fn aggregate_prices(scaled: Vec<u64>) -> (r: Option<u64>)
        ensures
            r == median_of(scaled@),
    {
        calculate_median(scaled)
    }

    /// The median price of each trade pair, in the order of the pairs.
    pub fn aggregate_by_pair(prices: Vec<(TradePair, Option<u64>)>) -> (r: Vec<(TradePair, u64)>)
        ensures
            r.model() == listing::<TradePair, u64>(medians(prices.model())),
    {
        let ghost all = prices.model();
        let mut groups: SortedMap<TradePair, Vec<u64>> = SortedMap::new();
        assert(groups@ =~= grouped(all.take(0)));
        for i in 0..prices.len()
            invariant
                all == prices.model(),
                groups@ == grouped(all.take(i as int)),
        {
            let ghost before = all.take(i as int);
            let ghost after = all.take(i + 1);
            proof {
                assert(after.drop_last() =~= before);
                assert(after.last() == prices@[i as int].model());
            }
            match prices[i].1 {
                Some(price) => {
                    let pair = prices[i].0.duplicate();
                    let mut listed: Vec<u64> = match groups.get(&pair) {
                        Some(listed) => listed,
                        None => Vec::new(),
                    };
                    assert(models(listed@) =~= listed@);
                    assert(listed@ =~= prices_for(before, pair.model()));
                    listed.push(price);
                    assert(models(listed@) =~= listed@);
                    let ghost key = pair.model();
                    groups.insert(pair, listed);
                    assert(groups@ =~= grouped(after)) by {
                        assert forall|other: PairModel|
                            other != key implies #[trigger] prices_for(after, other) == prices_for(
                            before,
                            other,
                        ) by {}
                    }
                },
                None => {
                    assert(grouped(after) =~= grouped(before)) by {
                        assert forall|other: PairModel| #[trigger]
                            prices_for(after, other) == prices_for(before, other) by {}
                    }
                },
            }
        }
        assert(all.take(all.len() as int) =~= all);
        let listed = groups.iter();
        let ghost entries = listed.model();
        let mut aggregated: Vec<(TradePair, u64)> = Vec::new();
        assert(models(aggregated@) =~= with_medians(entries).take(0));
        for i in 0..listed.len()
            invariant
                entries == listed.model(),
                keys_ascend::<TradePair, Seq<u64>>(entries),
                map_of(entries) == grouped(all),
                models(aggregated@) == with_medians(entries).take(i as int),
        {
            let scaled = listed[i].1.clone();
            proof {
                assert(entries[i as int] == listed@[i as int].model());
                assert(scaled@ =~= models(listed@[i as int].1@));
                lemma_map_entry::<TradePair, Seq<u64>>(entries, i as int);
                assert(prices_for(all, entries[i as int].0).len() > 0);
            }
            match Self::aggregate_prices(scaled) {
                Some(median) => {
                    let entry = (listed[i].0.duplicate(), median);
                    proof {
                        lemma_models_push(aggregated@, entry);
                        assert(with_medians(entries).take(i + 1) =~= with_medians(entries).take(
                            i as int,
                        ).push(with_medians(entries)[i as int]));
                    }
                    aggregated.push(entry);
                },
                None => {
                    assert(false);
                },
            }
        }
        proof {
            assert(with_medians(entries).take(entries.len() as int) =~= with_medians(entries));
            lemma_medians_listing(entries, all);
        }
        aggregated
    }

    /// The prices to submit, from the fetched and the cached ones.
    pub fn combine_prices(
        configured: bool,
        fetched: Vec<(TradePair, Option<u64>)>,
        cached: Vec<(TradePair, Option<u64>)>,
    ) -> (r: Vec<(TradePair, u64)>)
        ensures
            r.model() == submitted_prices(configured, fetched.model(), cached.model()),
    {
        if !configured {
            return Self::convert_prices(cached);
        }
        let mut all = fetched;
        for i in 0..cached.len()
            invariant
                all.model() == fetched.model() + cached.model().take(i as int),
        {
            let entry = (cached[i].0.duplicate(), cached[i].1);
            proof {
                lemma_models_push(all@, entry);
                assert(cached.model()[i as int] == cached@[i as int].model());
                assert(fetched.model() + cached.model().take(i + 1) =~= (fetched.model()
                    + cached.model().take(i as int)).push(entry.model()));
            }
            all.push(entry);
        }
        assert(cached.model().take(cached@.len() as int) =~= cached.model());
        Self::aggregate_by_pair(all)
    }
}

proof fn lemma_walk_stuck(json: JsonModel, path: Seq<PathStepModel>, i: int)
    requires
        0 <= i <= path.len(),
        walk(json, path.take(i)) is None,
    ensures
        walk(json, path) is None,
    decreases path.len() - i,
{
    if i == path.len() {
        assert(path.take(i) =~= path);
    } else {
        assert(path.take(i + 1).drop_last() =~= path.take(i));
        lemma_walk_stuck(json, path, i + 1);
    }
}

/// Each group of prices with its median.
spec fn with_medians(entries: Seq<(PairModel, Seq<u64>)>) -> Seq<(PairModel, u64)> {
    entries.map_values(|entry: (PairModel, Seq<u64>)| (entry.0, median_of(entry.1)->0))
}

proof fn lemma_medians_listing(
    entries: Seq<(PairModel, Seq<u64>)>,
    prices: Seq<(PairModel, Option<u64>)>,
)
    requires
        keys_ascend::<TradePair, Seq<u64>>(entries),
        map_of(entries) == grouped(prices),
    ensures
        with_medians(entries) == listing::<TradePair, u64>(medians(prices)),
{
    let s = with_medians(entries);
    let m = medians(prices);
    assert(keys_ascend::<TradePair, u64>(s)) by {
        assert forall|i: int, j: int|
            #![trigger s[i], s[j]]
            0 <= i < j < s.len() implies TradePair::precedes(s[i].0, s[j].0) by {
            assert(TradePair::precedes(entries[i].0, entries[j].0));
        }
    }
    assert forall|i: int| 0 <= i < s.len() implies m.contains_key((#[trigger] s[i]).0)
        && m[s[i].0] == s[i].1 by {
        lemma_map_entry::<TradePair, Seq<u64>>(entries, i);
        assert(grouped(prices).contains_key(entries[i].0));
    }
    assert forall|pair: PairModel| #[trigger] m.contains_key(pair) implies holds_key(s, pair) by {
        assert(grouped(prices).contains_key(pair));
        assert(holds_key(entries, pair));
        let i = choose|i: int| 0 <= i < entries.len() && (#[trigger] entries[i]).0 == pair;
        assert(s[i].0 == pair);
    }
    lemma_map_of_ext::<TradePair, u64>(s, m);
    lemma_listing::<TradePair, u64>(s);
}

// ---------------------------------------------------------------------------------------------
// What the provider promises

/// Every cached price that is used was found for its trade pair and has not expired.
pub proof fn lemma_cached_prices_fresh(lookups: Seq<LookupModel>, ttl: u64, i: int)
    requires
        0 <= i < cached_prices(lookups, ttl).len(),
    ensures
        exists|k: int|
            #![trigger lookups[k]]
            0 <= k < lookups.len() && lookups[k].trade_pair == cached_prices(lookups, ttl)[i].0
                && cached_bits(lookups[k], ttl) == Some(cached_prices(lookups, ttl)[i].1),
    decreases lookups.len(),
{
    let rest = lookups.drop_last();
    if i < cached_prices(rest, ttl).len() {
        lemma_cached_prices_fresh(rest, ttl, i);
        let k = choose|k: int|
            #![trigger rest[k]]
            0 <= k < rest.len() && rest[k].trade_pair == cached_prices(rest, ttl)[i].0
                && cached_bits(rest[k], ttl) == Some(cached_prices(rest, ttl)[i].1);
        assert(lookups[k] == rest[k]);
    } else {
        assert(lookups[lookups.len() - 1] == lookups.last());
    }
}

proof fn lemma_medians_finite(prices: Seq<(PairModel, Option<u64>)>)
    ensures
        medians(prices).dom().finite(),
    decreases prices.len(),
{
    if prices.len() == 0 {
        assert(medians(prices).dom() =~= Set::<PairModel>::empty());
    } else {
        let rest = prices.drop_last();
        lemma_medians_finite(rest);
        let all = medians(rest).dom().insert(prices.last().0);
        assert(medians(prices).dom().subset_of(all)) by {
            assert forall|pair: PairModel| medians(prices).dom().contains(
                pair,
            ) implies all.contains(pair) by {
                if pair != prices.last().0 {
                    assert(prices_for(prices, pair) == prices_for(rest, pair));
                }
            }
        }
        vstd::set_lib::lemma_set_subset_finite(all, medians(prices).dom());
    }
}

/// The aggregation names each trade pair with a converted price once, in the order of the pairs, with
/// the median of its prices.
pub proof fn lemma_aggregated_pairs(prices: Seq<(PairModel, Option<u64>)>)
    ensures
        ({
            let aggregated = listing::<TradePair, u64>(medians(prices));
            &&& keys_ascend::<TradePair, u64>(aggregated)
            &&& forall|i: int|
                0 <= i < aggregated.len() ==> median_of(
                    prices_for(prices, (#[trigger] aggregated[i]).0),
                ) == Some(aggregated[i].1)
            &&& forall|pair: PairModel|
                prices_for(prices, pair).len() > 0 ==> #[trigger] holds_key(aggregated, pair)
        }),
{
    lemma_medians_finite(prices);
    lemma_listed::<TradePair, u64>(medians(prices));
    let aggregated = listing::<TradePair, u64>(medians(prices));
    assert forall|i: int| 0 <= i < aggregated.len() implies median_of(
        prices_for(prices, (#[trigger] aggregated[i]).0),
    ) == Some(aggregated[i].1) by {
        lemma_map_entry::<TradePair, u64>(aggregated, i);
    }
    assert forall|pair: PairModel| prices_for(prices, pair).len() > 0 implies #[trigger] holds_key(
        aggregated,
        pair,
    ) by {
        assert(map_of(aggregated).contains_key(pair));
    }
}

} // verus!
