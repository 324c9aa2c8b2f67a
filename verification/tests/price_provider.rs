use charli3_oracle_core::aggregation::rational::Rational;
use charli3_oracle_core::price_providers::generic::{
    price_to_u64, CacheLookup, PriceError, PriceValue,
};
use charli3_oracle_core::price_providers::json::{parse_json, Json};
use charli3_oracle_core::types::config::node::{
    DataSource, JsonPathElement, PriceProviderConfig, DEFAULT_PRICE_CACHE_TTL_MS,
};
use charli3_oracle_core::{GenericApiProvider, TradePair};

fn pair(ticker: &str) -> TradePair {
    TradePair::from_ticker(ticker).unwrap()
}

fn key(name: &str) -> JsonPathElement {
    JsonPathElement::Key(name.to_string())
}

fn text(value: &str) -> Option<PriceValue> {
    Some(PriceValue::Text(value.to_string()))
}

fn number(value: f64) -> Option<PriceValue> {
    Some(PriceValue::Number(value.to_bits()))
}

fn lookup(ticker: &str, now: u64, entry: Option<(f64, u64)>) -> CacheLookup {
    CacheLookup {
        trade_pair: pair(ticker),
        now,
        entry: entry.map(|(price, timestamp)| {
            let mut bytes = price.to_bits().to_le_bytes().to_vec();
            bytes.extend(timestamp.to_le_bytes());
            bytes
        }),
    }
}

#[test]
fn bodies_are_read_as_json() {
    let body = br#"{"b": [true, null, "x"], "a": -3}"#;
    let json = Json::Object(vec![
        ("a".to_string(), Json::Number(Some((-3.0f64).to_bits()))),
        (
            "b".to_string(),
            Json::Array(vec![Json::Bool(true), Json::Null, Json::Text("x".to_string())]),
        ),
    ]);
    assert_eq!(parse_json(body), Some(json));
    assert_eq!(parse_json(b"{"), None);
    assert_eq!(parse_json(b""), None);
}

#[test]
fn a_path_leads_to_a_price() {
    let body = br#"{"data": {"close": "0.35", "list": [1, [2.5]]}, "n": 7}"#;
    let extract = |path: Vec<JsonPathElement>| GenericApiProvider::extract_price(body, &path);
    assert_eq!(extract(vec![key("data"), key("close")]), text("0.35"));
    assert_eq!(extract(vec![key("n")]), number(7.0));
    assert_eq!(
        extract(vec![
            key("data"),
            key("list"),
            JsonPathElement::Index(1),
            JsonPathElement::Index(0)
        ]),
        number(2.5)
    );
}

#[test]
fn a_path_may_lead_nowhere() {
    let body = br#"{"data": {"close": "0.35"}, "list": [1]}"#;
    let extract = |path: Vec<JsonPathElement>| GenericApiProvider::extract_price(body, &path);
    assert_eq!(extract(vec![]), None);
    assert_eq!(extract(vec![key("data")]), None);
    assert_eq!(extract(vec![key("other")]), None);
    assert_eq!(extract(vec![key("list"), JsonPathElement::Index(1)]), None);
    assert_eq!(extract(vec![key("list"), key("0")]), None);
    assert_eq!(extract(vec![JsonPathElement::Index(0)]), None);
    assert_eq!(extract(vec![key("data"), key("close"), key("more")]), None);
    assert_eq!(GenericApiProvider::extract_price(b"nonsense", &vec![]), None);
}

#[test]
fn only_successful_responses_have_a_price() {
    let body = br#"{"p": 4}"#;
    let path = vec![key("p")];
    assert_eq!(GenericApiProvider::price_from_response(200, body, &path), number(4.0));
    assert_eq!(GenericApiProvider::price_from_response(404, body, &path), None);
    assert_eq!(GenericApiProvider::price_from_response(200, b"{", &path), None);
}

#[test]
fn a_missing_configuration_is_the_default() {
    assert_eq!(
        GenericApiProvider::load_config(None),
        Some(PriceProviderConfig::default())
    );
    assert_eq!(GenericApiProvider::load_config(Some(None)), None);
    let mut stored = PriceProviderConfig::default();
    stored.price_cache_ttl_millis = 9;
    let loaded = GenericApiProvider::load_config(Some(Some(stored)));
    assert_eq!(GenericApiProvider::price_cache_ttl(&loaded), 9);
    assert_eq!(GenericApiProvider::price_cache_ttl(&None), DEFAULT_PRICE_CACHE_TTL_MS);
}

#[test]
fn expired_prices_are_not_used() {
    let lookups = vec![
        lookup("A-B", 1000, Some((1.5, 901))),
        lookup("C-D", 1000, Some((2.5, 900))),
        lookup("E-F", 1000, None),
        CacheLookup { trade_pair: pair("G-H"), now: 1000, entry: Some(vec![0; 15]) },
    ];
    assert!(GenericApiProvider::lookups_in_time(&lookups));
    assert_eq!(
        GenericApiProvider::fetch_cached_prices(lookups, 100),
        vec![(pair("A-B"), 1.5f64.to_bits())]
    );
}

#[test]
fn entries_from_the_future_are_not_in_time() {
    assert!(!GenericApiProvider::lookups_in_time(&vec![lookup("A-B", 10, Some((1.0, 11)))]));
    assert!(GenericApiProvider::lookups_in_time(&vec![lookup("A-B", 10, Some((1.0, 10)))]));
}

#[test]
fn every_source_of_a_pair_is_asked() {
    let source = |name: &str| DataSource {
        name: name.to_string(),
        url: "https://example.org".to_string(),
        json_path: vec![],
        headers: vec![("a".to_string(), "b".to_string())],
    };
    let mut config = PriceProviderConfig::default();
    config.sources.insert(pair("A-B"), vec![source("x"), source("y")]);
    let pairs = vec![pair("C-D"), pair("A-B")];
    assert_eq!(
        GenericApiProvider::plan_requests(&config, &pairs),
        vec![(pair("A-B"), source("x")), (pair("A-B"), source("y"))]
    );
}

#[test]
fn prices_convert_to_thousandths() {
    assert_eq!(price_to_u64(Some(Rational::new(1, 3))), Ok(333));
    assert_eq!(price_to_u64(Some(Rational::new(2, 3))), Ok(667));
    assert_eq!(price_to_u64(Some(Rational::new(1, 2000))), Ok(1));
    assert_eq!(price_to_u64(Some(Rational::new(1, 2001))), Ok(0));
    assert_eq!(price_to_u64(None), Err(PriceError::NotRational));
    let large = Rational::from_integer(u64::MAX as u128);
    assert!(large.can_scale(1000));
    assert_eq!(price_to_u64(Some(large)), Err(PriceError::Overflow));
}

#[test]
fn prices_aggregate_to_medians_by_pair() {
    let prices = vec![
        (pair("C-D"), Some(5)),
        (pair("A-B"), Some(1)),
        (pair("C-D"), Some(7)),
        (pair("E-F"), None),
        (pair("A-B"), None),
        (pair("C-D"), Some(100)),
    ];
    assert_eq!(
        GenericApiProvider::aggregate_by_pair(prices),
        vec![(pair("A-B"), 1), (pair("C-D"), 7)]
    );
    assert_eq!(GenericApiProvider::aggregate_prices(vec![]), None);
    assert_eq!(GenericApiProvider::aggregate_prices(vec![1, 4]), Some(3));
}

#[test]
fn without_configuration_cached_prices_are_submitted() {
    let cached = || vec![(pair("C-D"), Some(5)), (pair("A-B"), None), (pair("C-D"), Some(9))];
    let fetched = || vec![(pair("C-D"), Some(1))];
    assert_eq!(
        GenericApiProvider::combine_prices(false, fetched(), cached()),
        vec![(pair("C-D"), 5), (pair("C-D"), 9)]
    );
    assert_eq!(
        GenericApiProvider::combine_prices(true, fetched(), cached()),
        vec![(pair("C-D"), 5)]
    );
}
