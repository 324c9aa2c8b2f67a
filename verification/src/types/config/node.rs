//! Trade pairs, price sources and consensus parameters.
use crate::bounded::{lemma_byte_models, BoundedVec};
use crate::model::{bytes_precede, Key, Model, Rank};
use crate::sorted_map::SortedMap;
use vstd::prelude::*;
use vstd::string::StringSliceAdditionalSpecFns;
use vstd::utf8::*;

verus! {

pub const HTTP_REQUEST_TIMEOUT_MILLIS: u64 = 4000;

pub fn default_http_request_timeout_millis() -> (millis: u64)
    ensures
        millis == HTTP_REQUEST_TIMEOUT_MILLIS,
{
    HTTP_REQUEST_TIMEOUT_MILLIS
}

pub const HTTP_RESPONSE_WAIT_MILLIS: u64 = 3000;

pub fn default_http_response_wait_millis() -> (millis: u64)
    ensures
        millis == HTTP_RESPONSE_WAIT_MILLIS,
{
    HTTP_RESPONSE_WAIT_MILLIS
}

/// Five minutes.
pub const DEFAULT_PRICE_CACHE_TTL_MS: u64 = 300_000;

pub fn default_price_cache_ttl_millis() -> (millis: u64)
    ensures
        millis == DEFAULT_PRICE_CACHE_TTL_MS,
{
    DEFAULT_PRICE_CACHE_TTL_MS
}

// ---------------------------------------------------------------------------------------------
// Trade pairs

/// Trade Pair measures price of base (from) currency in terms of quote (to) currency.
/// E.g. ADA-USD (BASE-QUOTE) price tells a price of 1 ADA in USD.
#[derive(Debug, PartialEq, Eq, PartialOrd, Ord)]
pub struct TradePair {
    /// Base aka from currency, e.g. ADA
    base_currency: BoundedVec<u8, 64>,
    /// Quote aka to currency, e.g. USD
    quote_currency: BoundedVec<u8, 64>,
}

/// The base and the quote currency.
pub type PairModel = (Seq<u8>, Seq<u8>);

/// Why a ticker names no trade pair.
#[derive(Clone, Copy, Debug, PartialEq, Eq, Structural)]
pub enum TickerError {
    /// The ticker does not consist of exactly two parts.
    InvalidFormat,
    /// The base currency exceeds 64 bytes.
    BaseTooLong,
    /// The quote currency exceeds 64 bytes.
    QuoteTooLong,
}

/// One of `_`, space, `/`, `-` and `.`.
pub open spec fn is_delimiter(byte: u8) -> bool {
    byte == 0x5f || byte == 0x20 || byte == 0x2f || byte == 0x2d || byte == 0x2e
}

pub open spec fn delimiter_free(bytes: Seq<u8>) -> bool {
    forall|i: int| 0 <= i < bytes.len() ==> !is_delimiter(#[trigger] bytes[i])
}

/// The delimiter that separates two parts without delimiters is at index `i`.
pub open spec fn splits_at(ticker: Seq<u8>, i: int) -> bool {
    &&& 0 <= i < ticker.len()
    &&& is_delimiter(ticker[i])
    &&& delimiter_free(ticker.take(i))
    &&& delimiter_free(ticker.skip(i + 1))
}

/// The parts before and after the only delimiter of a ticker. A ticker with another number of
/// delimiters has none.
pub open spec fn ticker_parts(ticker: Seq<u8>) -> Option<PairModel> {
    if exists|i: int| #[trigger] splits_at(ticker, i) {
        let i = choose|i: int| #[trigger] splits_at(ticker, i);
        Some((ticker.take(i), ticker.skip(i + 1)))
    } else {
        None
    }
}

/// What a ticker stands for.
pub open spec fn parsed_ticker(ticker: Seq<u8>) -> Result<PairModel, TickerError> {
    match ticker_parts(ticker) {
        None => Err(TickerError::InvalidFormat),
        Some(parts) => if parts.0.len() > 64 {
            Err(TickerError::BaseTooLong)
        } else if parts.1.len() > 64 {
            Err(TickerError::QuoteTooLong)
        } else {
            Ok(parts)
        },
    }
}

/// The base, a hyphen and the quote.
pub open spec fn ticker_of(pair: PairModel) -> Seq<u8> {
    pair.0 + seq![0x2du8] + pair.1
}

impl Model for TradePair {
    type M = PairModel;

    closed spec fn model(&self) -> PairModel {
        (self.base_currency.model(), self.quote_currency.model())
    }

    fn duplicate(&self) -> (copy: TradePair) {
        TradePair {
            base_currency: self.base_currency.duplicate(),
            quote_currency: self.quote_currency.duplicate(),
        }
    }
}

impl Key for TradePair {
    open spec fn precedes(a: PairModel, b: PairModel) -> bool {
        <(BoundedVec<u8, 64>, BoundedVec<u8, 64>)>::precedes(a, b)
    }

    proof fn lemma_irreflexive(a: PairModel) {
        <(BoundedVec<u8, 64>, BoundedVec<u8, 64>)>::lemma_irreflexive(a);
    }

    proof fn lemma_transitive(a: PairModel, b: PairModel, c: PairModel) {
        <(BoundedVec<u8, 64>, BoundedVec<u8, 64>)>::lemma_transitive(a, b, c);
    }

    proof fn lemma_total(a: PairModel, b: PairModel) {
        <(BoundedVec<u8, 64>, BoundedVec<u8, 64>)>::lemma_total(a, b);
    }

    fn rank(&self, other: &TradePair) -> (r: Rank) {
        match self.base_currency.rank(&other.base_currency) {
            Rank::Before => Rank::Before,
            Rank::After => Rank::After,
            Rank::Same => self.quote_currency.rank(&other.quote_currency),
        }
    }
}

proof fn lemma_split_unique(ticker: Seq<u8>, i: int, j: int)
    requires
        splits_at(ticker, i),
        splits_at(ticker, j),
    ensures
        i == j,
{
    if i < j {
        assert(ticker.take(j)[i] == ticker[i]);
    } else if j < i {
        assert(ticker.take(i)[j] == ticker[j]);
    }
}

/// `str::from_utf8` of std: the text of a byte string that is valid UTF-8, and `None` for others.
#[verifier::external_body]
fn text_of(bytes: &Vec<u8>) -> (r: Option<String>)
    ensures
        r is Some <==> valid_utf8(bytes@),
        r matches Some(text) ==> encode_utf8(text@) == bytes@,
{
    match std::str::from_utf8(bytes) {
        Ok(text) => Some(text.to_string()),
        Err(_) => None,
    }
}

impl TradePair {
    /// The pair of two currencies, whatever their bytes.
    pub fn from_currencies(
        base_currency: BoundedVec<u8, 64>,
        quote_currency: BoundedVec<u8, 64>,
    ) -> (pair: TradePair)
        ensures
            pair.model() == (base_currency.model(), quote_currency.model()),
    {
        TradePair { base_currency, quote_currency }
    }

    pub fn base_currency(&self) -> (base: &BoundedVec<u8, 64>)
        ensures
            base.model() == self.model().0,
    {
        &self.base_currency
    }

    pub fn quote_currency(&self) -> (quote: &BoundedVec<u8, 64>)
        ensures
            quote.model() == self.model().1,
    {
        &self.quote_currency
    }

    /// Create a TradePair from a ticker string (e.g., "ADA-USD").
    /// Accepts delimiters: '_', ' ', '/', '-', '.'.
    /// Returns a Result to handle parsing errors gracefully.
    pub fn from_ticker(ticker: &str) -> (r: Result<TradePair, TickerError>)
        ensures
            r is Ok <==> parsed_ticker(ticker.spec_bytes()) is Ok,
            r matches Ok(pair) ==> Ok::<PairModel, TickerError>(pair.model()) == parsed_ticker(
                ticker.spec_bytes(),
            ),
            r matches Err(error) ==> Err::<PairModel, TickerError>(error) == parsed_ticker(
                ticker.spec_bytes(),
            ),
    {
        let bytes = ticker.as_bytes();
        let mut base: Vec<u8> = Vec::new();
        let mut quote: Vec<u8> = Vec::new();
        let mut delimiters: usize = 0;
        let ghost mut at: int = 0;
        let mut i: usize = 0;
        while i < bytes.len()
            invariant
                i <= bytes.len(),
                bytes@ == ticker.spec_bytes(),
                delimiters == 0 || delimiters == 1,
                delimiters == 0 ==> base@ == bytes@.take(i as int) && quote@.len() == 0
                    && delimiter_free(bytes@.take(i as int)),
                delimiters == 1 ==> splits_at(bytes@.take(i as int), at) && base@ == bytes@.take(at)
                    && quote@ == bytes@.subrange(at + 1, i as int),
            decreases bytes.len() - i,
        {
            let byte: u8 = bytes[i];
            let ghost seen = bytes@.take(i as int);
            let ghost more = bytes@.take(i + 1);
            assert(more =~= seen.push(byte));
            if byte == 0x5f || byte == 0x20 || byte == 0x2f || byte == 0x2d || byte == 0x2e {
                if delimiters == 1 {
                    proof {
                        assert forall|j: int| !(#[trigger] splits_at(bytes@, j)) by {
                            if splits_at(bytes@, j) {
                                assert(is_delimiter(seen[at]) && is_delimiter(bytes@[i as int]));
                                if j != at && at < j {
                                    assert(bytes@.take(j)[at] == bytes@[at]);
                                } else if j != at {
                                    assert(bytes@.skip(j + 1)[at - j - 1] == bytes@[at]);
                                } else {
                                    assert(bytes@.skip(j + 1)[i - j - 1] == bytes@[i as int]);
                                }
                            }
                        }
                    }
                    return Err(TickerError::InvalidFormat);
                }
                proof {
                    at = i as int;
                    assert(more.take(at) =~= seen);
                    assert(more.skip(at + 1) =~= Seq::<u8>::empty());
                    assert(splits_at(more, at));
                }
                delimiters = 1;
                assert(quote@ =~= bytes@.subrange(at + 1, i + 1));
            } else if delimiters == 0 {
                base.push(byte);
                assert(delimiter_free(more)) by {
                    assert forall|j: int| 0 <= j < more.len() implies !is_delimiter(
                        #[trigger] more[j],
                    ) by {
                        if j < i {
                            assert(seen[j] == more[j]);
                        }
                    }
                }
            } else {
                quote.push(byte);
                proof {
                    assert(more.take(at) =~= seen.take(at));
                    assert(more.skip(at + 1) =~= seen.skip(at + 1).push(byte));
                    assert forall|j: int| 0 <= j < more.skip(at + 1).len() implies !is_delimiter(
                        #[trigger] more.skip(at + 1)[j],
                    ) by {
                        if j < i - at - 1 {
                            assert(seen.skip(at + 1)[j] == more.skip(at + 1)[j]);
                        }
                    }
                    assert(splits_at(more, at));
                    assert(quote@ =~= bytes@.subrange(at + 1, i + 1));
                }
            }
            i += 1;
        }
        assert(bytes@.take(bytes@.len() as int) =~= bytes@);
        if delimiters == 0 {
            proof {
                assert forall|j: int| !(#[trigger] splits_at(bytes@, j)) by {
                    if splits_at(bytes@, j) {
                        assert(is_delimiter(bytes@[j]));
                    }
                }
            }
            return Err(TickerError::InvalidFormat);
        }
        proof {
            assert(splits_at(bytes@, at));
            let chosen = choose|j: int| #[trigger] splits_at(bytes@, j);
            lemma_split_unique(bytes@, at, chosen);
            assert(quote@ =~= bytes@.skip(at + 1));
            lemma_byte_models(base@);
            lemma_byte_models(quote@);
        }
        let base_currency = match BoundedVec::try_from(base) {
            Ok(base_currency) => base_currency,
            Err(_) => {
                return Err(TickerError::BaseTooLong);
            },
        };
        let quote_currency = match BoundedVec::try_from(quote) {
            Ok(quote_currency) => quote_currency,
            Err(_) => {
                return Err(TickerError::QuoteTooLong);
            },
        };
        Ok(TradePair { base_currency, quote_currency })
    }

    /// The bytes of the ticker, whatever their number and whether they are a text or not.
    fn joined(&self) -> (ticker: Vec<u8>)
        ensures
            ticker@ == ticker_of(self.model()),
    {
        proof {
            lemma_byte_models(self.base_currency@);
            lemma_byte_models(self.quote_currency@);
        }
        let mut ticker: Vec<u8> = Vec::new();
        ticker.extend_from_slice(self.base_currency.as_vec().as_slice());
        ticker.push(0x2d);
        ticker.extend_from_slice(self.quote_currency.as_vec().as_slice());
        assert(ticker@ =~= ticker_of(self.model()));
        ticker
    }

    /// Convert the TradePair to a ticker bytes (e.g., "ADA-USD").
    /// Uses '-' as the delimiter. The ticker must not exceed 128 bytes and be valid UTF-8.
    pub fn to_ticker_bytes(&self) -> (r: BoundedVec<u8, 128>)
        requires
            ticker_of(self.model()).len() <= 128,
            valid_utf8(ticker_of(self.model())),
        ensures
            r@ == ticker_of(self.model()),
    {
        match BoundedVec::try_from(self.joined()) {
            Ok(bounded) => bounded,
            Err(_) => {
                assert(false);
                BoundedVec::new()
            },
        }
    }

    /// Convert the TradePair to a ticker string (e.g., "ADA-USD").
    /// Uses '-' as the delimiter. The ticker must not exceed 128 bytes and be valid UTF-8.
    pub fn to_ticker(&self) -> (r: String)
        requires
            ticker_of(self.model()).len() <= 128,
            valid_utf8(ticker_of(self.model())),
        ensures
            encode_utf8(r@) == ticker_of(self.model()),
    {
        let bounded_ticker = self.to_ticker_bytes();
        match text_of(bounded_ticker.as_vec()) {
            Some(text) => text,
            None => {
                assert(false);
                String::new()
            },
        }
    }

    /// The ticker, or `None` where it exceeds 128 bytes or is not valid UTF-8.
    pub fn checked_ticker(&self) -> (r: Option<String>)
        ensures
            r is Some <==> ticker_of(self.model()).len() <= 128 && valid_utf8(
                ticker_of(self.model()),
            ),
            r matches Some(text) ==> encode_utf8(text@) == ticker_of(self.model()),
    {
        if self.ticker_len() > 128 {
            return None;
        }
        text_of(&self.joined())
    }

    /// The length of the ticker in bytes.
    pub fn ticker_len(&self) -> (n: usize)
        ensures
            n == ticker_of(self.model()).len(),
    {
        proof {
            lemma_byte_models(self.base_currency@);
            lemma_byte_models(self.quote_currency@);
        }
        self.base_currency.len() + 1 + self.quote_currency.len()
    }
}

// ---------------------------------------------------------------------------------------------
// Price sources

/// A step into a JSON document.
#[derive(Debug, PartialEq, Eq)]
pub enum JsonPathElement {
    Key(String),
    Index(u32),
}

#[verifier::ext_equal]
pub enum PathStepModel {
    Key(Seq<char>),
    Index(u32),
}

impl Model for JsonPathElement {
    type M = PathStepModel;

    open spec fn model(&self) -> PathStepModel {
        match self {
            JsonPathElement::Key(key) => PathStepModel::Key(key@),
            JsonPathElement::Index(index) => PathStepModel::Index(*index),
        }
    }

    fn duplicate(&self) -> (copy: JsonPathElement) {
        match self {
            JsonPathElement::Key(key) => JsonPathElement::Key(key.clone()),
            JsonPathElement::Index(index) => JsonPathElement::Index(*index),
        }
    }
}

/// Where a price is fetched, and where it stands in the response.
#[derive(Debug, PartialEq, Eq)]
pub struct DataSource {
    pub name: String,
    pub url: String,
    pub json_path: Vec<JsonPathElement>,
    pub headers: Vec<(String, String)>,
}

#[verifier::ext_equal]
pub struct DataSourceModel {
    pub name: Seq<char>,
    pub url: Seq<char>,
    pub json_path: Seq<PathStepModel>,
    pub headers: Seq<(Seq<char>, Seq<char>)>,
}

impl Model for DataSource {
    type M = DataSourceModel;

    open spec fn model(&self) -> DataSourceModel {
        DataSourceModel {
            name: self.name@,
            url: self.url@,
            json_path: self.json_path.model(),
            headers: self.headers.model(),
        }
    }

    fn duplicate(&self) -> (copy: DataSource) {
        DataSource {
            name: self.name.clone(),
            url: self.url.clone(),
            json_path: self.json_path.duplicate(),
            headers: self.headers.duplicate(),
        }
    }
}

/// ADA in USD.
pub open spec fn ada_usd() -> PairModel {
    (seq![0x41u8, 0x44, 0x41], seq![0x55u8, 0x53, 0x44])
}

/// The price source that is used unless others are configured.
pub open spec fn bitget() -> DataSourceModel {
    DataSourceModel {
        name: "bitget"@,
        url: "https://api.bitget.com/api/spot/v1/market/ticker?symbol=ADAUSDC_SPBL"@,
        json_path: seq![PathStepModel::Key("data"@), PathStepModel::Key("close"@)],
        headers: Seq::empty(),
    }
}

proof fn lemma_ada_usd_ticker()
    ensures
        parsed_ticker("ADA-USD".spec_bytes()) == Ok::<PairModel, TickerError>(ada_usd()),
{
    reveal_strlit("ADA-USD");
    let ticker = "ADA-USD".spec_bytes();
    is_ascii_chars_encode_utf8("ADA-USD"@);
    assert(ticker =~= seq![0x41u8, 0x44, 0x41, 0x2d, 0x55, 0x53, 0x44]);
    assert(ticker.take(3) =~= ada_usd().0);
    assert(ticker.skip(4) =~= ada_usd().1);
    assert(splits_at(ticker, 3));
    let i = choose|i: int| #[trigger] splits_at(ticker, i);
    lemma_split_unique(ticker, 3, i);
}

/// The trade pair of the ticker "ADA-USD".
pub fn ada_usd_pair() -> (pair: TradePair)
    ensures
        pair.model() == ada_usd(),
{
    proof {
        lemma_ada_usd_ticker();
    }
    match TradePair::from_ticker("ADA-USD") {
        Ok(pair) => pair,
        Err(_) => {
            assert(false);
            TradePair { base_currency: BoundedVec::new(), quote_currency: BoundedVec::new() }
        },
    }
}

pub fn default_sources() -> (r: SortedMap<TradePair, Vec<DataSource>>)
    ensures
        r@ == map![ada_usd() => seq![bitget()]],
{
    let mut json_path: Vec<JsonPathElement> = Vec::new();
    json_path.push(JsonPathElement::Key("data".to_owned()));
    json_path.push(JsonPathElement::Key("close".to_owned()));
    let headers: Vec<(String, String)> = Vec::new();
    let source = DataSource {
        name: "bitget".to_owned(),
        url: "https://api.bitget.com/api/spot/v1/market/ticker?symbol=ADAUSDC_SPBL".to_owned(),
        json_path,
        headers,
    };
    assert(source.json_path.model() =~= bitget().json_path);
    assert(source.headers.model() =~= bitget().headers);
    let mut listed: Vec<DataSource> = Vec::new();
    listed.push(source);
    assert(listed.model() =~= seq![bitget()]);
    let mut sources: SortedMap<TradePair, Vec<DataSource>> = SortedMap::new();
    sources.insert(ada_usd_pair(), listed);
    assert(sources@ =~= map![ada_usd() => seq![bitget()]]);
    sources
}

/// How a node fetches prices.
#[derive(Debug, PartialEq, Eq)]
pub struct PriceProviderConfig {
    pub sources: SortedMap<TradePair, Vec<DataSource>>,
    pub http_request_timeout_millis: u64,
    pub http_response_wait_millis: u64,
    pub price_cache_ttl_millis: u64,
}

#[verifier::ext_equal]
pub struct PriceProviderConfigModel {
    pub sources: Map<PairModel, Seq<DataSourceModel>>,
    pub http_request_timeout_millis: u64,
    pub http_response_wait_millis: u64,
    pub price_cache_ttl_millis: u64,
}

impl Model for PriceProviderConfig {
    type M = PriceProviderConfigModel;

    open spec fn model(&self) -> PriceProviderConfigModel {
        PriceProviderConfigModel {
            sources: self.sources@,
            http_request_timeout_millis: self.http_request_timeout_millis,
            http_response_wait_millis: self.http_response_wait_millis,
            price_cache_ttl_millis: self.price_cache_ttl_millis,
        }
    }

    fn duplicate(&self) -> (copy: PriceProviderConfig) {
        PriceProviderConfig {
            sources: self.sources.duplicate(),
            http_request_timeout_millis: self.http_request_timeout_millis,
            http_response_wait_millis: self.http_response_wait_millis,
            price_cache_ttl_millis: self.price_cache_ttl_millis,
        }
    }
}

impl Default for PriceProviderConfig {
    fn default() -> (config: PriceProviderConfig)
        ensures
            config.model() == (PriceProviderConfigModel {
                sources: map![ada_usd() => seq![bitget()]],
                http_request_timeout_millis: HTTP_REQUEST_TIMEOUT_MILLIS,
                http_response_wait_millis: HTTP_RESPONSE_WAIT_MILLIS,
                price_cache_ttl_millis: DEFAULT_PRICE_CACHE_TTL_MS,
            }),
    {
        PriceProviderConfig {
            sources: default_sources(),
            http_request_timeout_millis: default_http_request_timeout_millis(),
            http_response_wait_millis: default_http_response_wait_millis(),
            price_cache_ttl_millis: default_price_cache_ttl_millis(),
        }
    }
}

// ---------------------------------------------------------------------------------------------
// Consensus

/// The policy id, on Cardano, of the NFT that marks an aggregation state.
pub type ChannelId = BoundedVec<u8, 64>;

/// The trade pairs of each channel, by their index in the list of all trade pairs.
pub type MessagesConfiguration = BoundedVec<(ChannelId, BoundedVec<u16, 64>), 16>;

#[derive(Debug, PartialEq, Eq)]
pub struct ConsensusConfiguration {
    pub min_nodes_for_trusted_aggregation: u32,
    pub feed_age: u16,
    pub outliers_range: u32,
    pub divergency: u32,
    pub trade_pairs: BoundedVec<TradePair, 64>,
}

#[verifier::ext_equal]
pub struct ConsensusModel {
    pub min_nodes_for_trusted_aggregation: u32,
    pub feed_age: u16,
    pub outliers_range: u32,
    pub divergency: u32,
    pub trade_pairs: Seq<PairModel>,
}

impl Model for ConsensusConfiguration {
    type M = ConsensusModel;

    open spec fn model(&self) -> ConsensusModel {
        ConsensusModel {
            min_nodes_for_trusted_aggregation: self.min_nodes_for_trusted_aggregation,
            feed_age: self.feed_age,
            outliers_range: self.outliers_range,
            divergency: self.divergency,
            trade_pairs: self.trade_pairs.model(),
        }
    }

    fn duplicate(&self) -> (copy: ConsensusConfiguration) {
        ConsensusConfiguration {
            min_nodes_for_trusted_aggregation: self.min_nodes_for_trusted_aggregation,
            feed_age: self.feed_age,
            outliers_range: self.outliers_range,
            divergency: self.divergency,
            trade_pairs: self.trade_pairs.duplicate(),
        }
    }
}

/// The asset that rewards are paid in.
#[derive(Debug, PartialEq, Eq)]
pub struct RewardConfiguration {
    pub reward_policy_id: ChannelId,
    pub reward_asset_name: BoundedVec<u8, 64>,
}

#[verifier::ext_equal]
pub struct RewardModel {
    pub reward_policy_id: Seq<u8>,
    pub reward_asset_name: Seq<u8>,
}

impl Model for RewardConfiguration {
    type M = RewardModel;

    open spec fn model(&self) -> RewardModel {
        RewardModel {
            reward_policy_id: self.reward_policy_id.model(),
            reward_asset_name: self.reward_asset_name.model(),
        }
    }

    fn duplicate(&self) -> (copy: RewardConfiguration) {
        RewardConfiguration {
            reward_policy_id: self.reward_policy_id.duplicate(),
            reward_asset_name: self.reward_asset_name.duplicate(),
        }
    }
}

// ---------------------------------------------------------------------------------------------
// Tickers and trade pairs

/// A trade pair whose currencies hold no delimiter is read back from its ticker.
pub proof fn lemma_ticker_read_back(pair: PairModel)
    requires
        delimiter_free(pair.0),
        delimiter_free(pair.1),
        pair.0.len() <= 64,
        pair.1.len() <= 64,
    ensures
        parsed_ticker(ticker_of(pair)) == Ok::<PairModel, TickerError>(pair),
{
    let ticker = ticker_of(pair);
    let at = pair.0.len() as int;
    assert(ticker.take(at) =~= pair.0);
    assert(ticker.skip(at + 1) =~= pair.1);
    assert(ticker[at] == 0x2du8);
    assert(splits_at(ticker, at));
    let i = choose|i: int| #[trigger] splits_at(ticker, i);
    lemma_split_unique(ticker, at, i);
}

/// The ticker of a parsed trade pair is the parsed ticker with its delimiter replaced by a hyphen.
pub proof fn lemma_ticker_normalized(ticker: Seq<u8>)
    requires
        parsed_ticker(ticker) is Ok,
    ensures
        exists|i: int|
            #![trigger ticker.update(i, 0x2du8)]
            splits_at(ticker, i) && ticker_of(parsed_ticker(ticker)->Ok_0) == ticker.update(
                i,
                0x2du8,
            ),
        parsed_ticker(ticker_of(parsed_ticker(ticker)->Ok_0)) == parsed_ticker(ticker),
{
    let i = choose|i: int| #[trigger] splits_at(ticker, i);
    let pair = (ticker.take(i), ticker.skip(i + 1));
    assert(ticker_of(pair) =~= ticker.update(i, 0x2du8));
    lemma_ticker_read_back(pair);
}

/// A text that is cut at an ASCII character leaves a text on both sides.
proof fn lemma_cut_at_ascii(bytes: Seq<u8>, i: int)
    requires
        valid_utf8(bytes),
        0 <= i < bytes.len(),
        bytes[i] <= 0x7f,
    ensures
        valid_utf8(bytes.take(i)),
        valid_utf8(bytes.skip(i + 1)),
{
    let rest = bytes.skip(i);
    is_char_boundary_iff_not_is_continuation_byte(bytes, i);
    valid_utf8_split(bytes, i);
    assert(bytes.subrange(0, i) =~= bytes.take(i));
    assert(bytes.subrange(i, bytes.len() as int) =~= rest);
    assert(rest[0] == bytes[i]);
    assert(pop_first_scalar(rest) =~= bytes.skip(i + 1));
}

/// The ticker of a trade pair is a text exactly if both currencies are texts.
pub proof fn lemma_ticker_text(pair: PairModel)
    ensures
        valid_utf8(ticker_of(pair)) <==> valid_utf8(pair.0) && valid_utf8(pair.1),
{
    let ticker = ticker_of(pair);
    let hyphen = seq![0x2du8];
    let at = pair.0.len() as int;
    if valid_utf8(ticker) {
        lemma_cut_at_ascii(ticker, at);
        assert(ticker.take(at) =~= pair.0);
        assert(ticker.skip(at + 1) =~= pair.1);
    }
    if valid_utf8(pair.0) && valid_utf8(pair.1) {
        utf8_byte_ranges_bitwise(0x2du8);
        assert(valid_utf8(hyphen)) by {
            reveal_with_fuel(valid_utf8, 2);
            assert(pop_first_scalar(hyphen) =~= Seq::<u8>::empty());
        }
        valid_utf8_concat(pair.0, hyphen);
        valid_utf8_concat(pair.0 + hyphen, pair.1);
    }
}

/// A trade pair that was parsed from a text has a ticker that is a text again.
pub proof fn lemma_ticker_is_text(text: Seq<char>)
    requires
        parsed_ticker(encode_utf8(text)) is Ok,
    ensures
        valid_utf8(ticker_of(parsed_ticker(encode_utf8(text))->Ok_0)),
{
    let ticker = encode_utf8(text);
    encode_utf8_valid_utf8(text);
    let i = choose|i: int| #[trigger] splits_at(ticker, i);
    lemma_cut_at_ascii(ticker, i);
    lemma_ticker_text((ticker.take(i), ticker.skip(i + 1)));
}

/// The byte is one of the five characters between which a ticker is parted.
pub open spec fn parts_tickers(byte: u8) -> bool {
    byte as char == '_' || byte as char == ' ' || byte as char == '/' || byte as char == '-' || byte as char
        == '.'
}

/// None of the bytes parts a ticker.
pub open spec fn in_one_part(bytes: Seq<u8>) -> bool {
    forall|i: int| 0 <= i < bytes.len() ==> !parts_tickers(#[trigger] bytes[i])
}

/// A ticker of two parts stands for the pair of them, unless one is longer than 64 bytes.
pub proof fn lemma_two_parts_parsed(base: Seq<u8>, delimiter: u8, quote: Seq<u8>)
    requires
        in_one_part(base),
        in_one_part(quote),
        parts_tickers(delimiter),
    ensures
        ({
            let parsed = parsed_ticker(base + seq![delimiter] + quote);
            &&& base.len() > 64 ==> parsed == Err::<PairModel, TickerError>(TickerError::BaseTooLong)
            &&& base.len() <= 64 && quote.len() > 64 ==> parsed == Err::<PairModel, TickerError>(
                TickerError::QuoteTooLong,
            )
            &&& base.len() <= 64 && quote.len() <= 64 ==> parsed == Ok::<PairModel, TickerError>(
                (base, quote),
            )
        }),
{
    let ticker = base + seq![delimiter] + quote;
    let at = base.len() as int;
    assert(ticker.take(at) =~= base);
    assert(ticker.skip(at + 1) =~= quote);
    assert(ticker[at] == delimiter);
    assert forall|i: int| 0 <= i < base.len() implies !is_delimiter(#[trigger] base[i]) by {
        assert(!parts_tickers(base[i]));
    }
    assert forall|i: int| 0 <= i < quote.len() implies !is_delimiter(#[trigger] quote[i]) by {
        assert(!parts_tickers(quote[i]));
    }
    assert(splits_at(ticker, at));
    let i = choose|i: int| #[trigger] splits_at(ticker, i);
    lemma_split_unique(ticker, at, i);
}

/// A ticker without a place to part it, or with two, stands for nothing.
pub proof fn lemma_other_tickers_refused(ticker: Seq<u8>)
    ensures
        in_one_part(ticker) ==> parsed_ticker(ticker) == Err::<PairModel, TickerError>(
            TickerError::InvalidFormat,
        ),
        (exists|i: int, j: int|
            0 <= i < j < ticker.len() && parts_tickers(#[trigger] ticker[i]) && parts_tickers(
                #[trigger] ticker[j],
            )) ==> parsed_ticker(ticker) == Err::<PairModel, TickerError>(
            TickerError::InvalidFormat,
        ),
{
    if exists|k: int| #[trigger] splits_at(ticker, k) {
        let k = choose|k: int| #[trigger] splits_at(ticker, k);
        assert(parts_tickers(ticker[k]));
        assert forall|i: int| 0 <= i < ticker.len() && i != k implies !parts_tickers(
            #[trigger] ticker[i],
        ) by {
            if i < k {
                assert(ticker.take(k)[i] == ticker[i]);
            } else {
                assert(ticker.skip(k + 1)[i - k - 1] == ticker[i]);
            }
        }
    }
}

/// A ticker is the base currency, a hyphen and the quote currency.
pub proof fn lemma_ticker_bytes(pair: PairModel)
    ensures
        ticker_of(pair).len() == pair.0.len() + 1 + pair.1.len(),
        ticker_of(pair)[pair.0.len() as int] as char == '-',
        forall|i: int| 0 <= i < pair.0.len() ==> #[trigger] ticker_of(pair)[i] == pair.0[i],
        forall|i: int|
            0 <= i < pair.1.len() ==> ticker_of(pair)[pair.0.len() + 1 + i] == #[trigger] pair.1[i],
{
}

/// Trade pairs are ordered by their base currencies, and those with one by their quote currencies.
pub proof fn lemma_pair_order(a: PairModel, b: PairModel)
    ensures
        bytes_precede(a.0, b.0) ==> TradePair::precedes(a, b),
        a.0 == b.0 ==> (TradePair::precedes(a, b) <==> bytes_precede(a.1, b.1)),
        bytes_precede(b.0, a.0) ==> !TradePair::precedes(a, b),
{
    crate::model::lemma_bytes_irreflexive(a.0);
    if bytes_precede(b.0, a.0) {
        if bytes_precede(a.0, b.0) {
            crate::model::lemma_bytes_transitive(a.0, b.0, a.0);
        }
    }
}

} // verus!
