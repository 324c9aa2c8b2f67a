use charli3_oracle_core::bounded::BoundedVec;
use charli3_oracle_core::config::node::NodeConfig;
use charli3_oracle_core::model::{Key, Model, Rank};
use charli3_oracle_core::types::config::node::{
    default_http_request_timeout_millis, default_http_response_wait_millis,
    default_price_cache_ttl_millis, default_sources, JsonPathElement, PriceProviderConfig,
    TickerError,
};
use charli3_oracle_core::TradePair;

#[test]
fn every_delimiter_is_accepted() {
    for ticker in ["ADA-USD", "ADA_USD", "ADA USD", "ADA/USD", "ADA.USD"] {
        let pair = TradePair::from_ticker(ticker).unwrap();
        assert_eq!(pair.to_ticker(), "ADA-USD");
        assert_eq!(pair.to_ticker_bytes().into_inner(), b"ADA-USD".to_vec());
    }
}

#[test]
fn tickers_have_exactly_two_parts() {
    assert_eq!(TradePair::from_ticker("ADAUSD"), Err(TickerError::InvalidFormat));
    assert_eq!(TradePair::from_ticker("A-B-C"), Err(TickerError::InvalidFormat));
    assert_eq!(TradePair::from_ticker("A--B"), Err(TickerError::InvalidFormat));
    assert_eq!(TradePair::from_ticker(""), Err(TickerError::InvalidFormat));
    assert_eq!(TradePair::from_ticker("-").unwrap().to_ticker(), "-");
    assert_eq!(TradePair::from_ticker("-USD").unwrap().to_ticker(), "-USD");
}

#[test]
fn currencies_have_at_most_64_bytes() {
    let long = "A".repeat(65);
    let fits = "A".repeat(64);
    assert_eq!(TradePair::from_ticker(&format!("{}-USD", long)), Err(TickerError::BaseTooLong));
    assert_eq!(TradePair::from_ticker(&format!("ADA-{}", long)), Err(TickerError::QuoteTooLong));
    assert!(TradePair::from_ticker(&format!("{}-USD", fits)).is_ok());
}

#[test]
fn tickers_beyond_128_bytes_have_no_text() {
    let fits = "A".repeat(64);
    let both = TradePair::from_ticker(&format!("{}-{}", fits, fits)).unwrap();
    assert_eq!(both.ticker_len(), 129);
    assert_eq!(both.checked_ticker(), None);
    let shorter = TradePair::from_ticker(&format!("{}-{}", fits, "B".repeat(63))).unwrap();
    assert_eq!(shorter.checked_ticker().map(|text| text.len()), Some(128));
}

#[test]
fn tickers_may_hold_other_alphabets() {
    let pair = TradePair::from_ticker("\u{e9}\u{4e2d}/USD").unwrap();
    assert_eq!(pair.to_ticker(), "\u{e9}\u{4e2d}-USD");
    assert_eq!(pair.checked_ticker(), Some("\u{e9}\u{4e2d}-USD".to_string()));
}

#[test]
fn pairs_are_read_back_from_their_tickers() {
    for ticker in ["ADA-USD", "BTC_EUR", "x.y"] {
        let pair = TradePair::from_ticker(ticker).unwrap();
        assert_eq!(TradePair::from_ticker(&pair.to_ticker()), Ok(pair.duplicate()));
    }
}

#[test]
fn pairs_are_ordered_by_base_and_quote() {
    let ada_eur = TradePair::from_ticker("ADA-EUR").unwrap();
    let ada_usd = TradePair::from_ticker("ADA-USD").unwrap();
    let btc_eur = TradePair::from_ticker("BTC-EUR").unwrap();
    assert_eq!(ada_eur.rank(&ada_usd), Rank::Before);
    assert_eq!(btc_eur.rank(&ada_usd), Rank::After);
    assert!(ada_eur < ada_usd && ada_usd < btc_eur);
}

#[test]
fn the_default_configuration_asks_one_source() {
    let config = PriceProviderConfig::default();
    assert_eq!(config.http_request_timeout_millis, 4000);
    assert_eq!(config.http_response_wait_millis, 3000);
    assert_eq!(config.price_cache_ttl_millis, 300_000);
    assert_eq!(default_http_request_timeout_millis(), 4000);
    assert_eq!(default_http_response_wait_millis(), 3000);
    assert_eq!(default_price_cache_ttl_millis(), 300_000);
    let sources = config.sources.get(&TradePair::from_ticker("ADA-USD").unwrap()).unwrap();
    assert_eq!(sources.len(), 1);
    assert_eq!(sources[0].name, "bitget");
    assert_eq!(
        sources[0].url,
        "https://api.bitget.com/api/spot/v1/market/ticker?symbol=ADAUSDC_SPBL"
    );
    assert_eq!(
        sources[0].json_path,
        vec![
            JsonPathElement::Key("data".to_string()),
            JsonPathElement::Key("close".to_string())
        ]
    );
    assert!(sources[0].headers.is_empty());
    assert_eq!(default_sources(), config.sources);
}

#[test]
fn an_unset_node_configuration_is_empty() {
    let config = NodeConfig::default();
    assert_eq!(config.sources.len(), 0);
    assert_eq!(config.http_request_timeout_millis, 0);
    assert_eq!(config.http_response_wait_millis, 0);
}

#[test]
fn pairs_may_hold_any_bytes() {
    let pair = TradePair::from_currencies(
        BoundedVec::truncate_from(vec![0xff]),
        BoundedVec::truncate_from(b"U-D".to_vec()),
    );
    assert_eq!(pair.base_currency().as_vec(), &vec![0xff]);
    assert_eq!(pair.quote_currency().as_vec(), &b"U-D".to_vec());
    assert_eq!(pair.ticker_len(), 5);
    assert_eq!(pair.checked_ticker(), None);
    let ada = TradePair::from_ticker("ADA_USD").unwrap();
    assert_eq!(ada.base_currency().as_vec(), &b"ADA".to_vec());
}

#[test]
fn tickers_are_texts_if_both_currencies_are() {
    let pair = |base: &[u8], quote: &[u8]| {
        TradePair::from_currencies(
            BoundedVec::truncate_from(base.to_vec()),
            BoundedVec::truncate_from(quote.to_vec()),
        )
    };
    let cut = &"\u{e9}".as_bytes()[..1];
    let rest = &"\u{e9}".as_bytes()[1..];
    assert_eq!(pair(cut, b"USD").checked_ticker(), None);
    assert_eq!(pair(b"ADA", rest).checked_ticker(), None);
    assert_eq!(pair(cut, rest).checked_ticker(), None);
    let whole = pair("\u{e9}".as_bytes(), b"U-D");
    assert_eq!(whole.checked_ticker(), Some("\u{e9}-U-D".to_string()));
    assert_eq!(whole.to_ticker_bytes().into_inner(), "\u{e9}-U-D".as_bytes().to_vec());
}
