//! The price sources: who they are, what a fetch yields and how it fails.

use vstd::prelude::*;
use crate::price::Price;

pub mod binance;
pub mod huobi;
pub mod kraken;

verus! {

/// The cache key of the Binance price.
pub const BINANCE_PRICE_KEY: &'static str = "binance_price";

/// The cache key of the Kraken price.
pub const KRAKEN_PRICE_KEY: &'static str = "kraken_price";

/// The cache key of the Huobi price.
pub const HUOBI_PRICE_KEY: &'static str = "huobi_price";

/// A market-data provider.
#[derive(Clone, Copy, Debug, PartialEq, Eq, Structural)]
pub enum SourceId {
    Binance,
    Kraken,
    Huobi,
}

impl SourceId {
    /// The key under which the source's price is cached.
    pub open spec fn key(self) -> Seq<char> {
        match self {
            SourceId::Binance => BINANCE_PRICE_KEY@,
            SourceId::Kraken => KRAKEN_PRICE_KEY@,
            SourceId::Huobi => HUOBI_PRICE_KEY@,
        }
    }

    /// The key under which the source's price is cached.
    pub fn cache_key(&self) -> (key: &'static str)
        ensures
            key@ == self.key(),
    {
        match self {
            SourceId::Binance => BINANCE_PRICE_KEY,
            SourceId::Kraken => KRAKEN_PRICE_KEY,
            SourceId::Huobi => HUOBI_PRICE_KEY,
        }
    }

    /// One key per source: two sources never share a key.
    pub proof fn lemma_keys_differ(a: SourceId, b: SourceId)
        ensures
            a.key() == b.key() <==> a == b,
    {
        reveal_strlit("binance_price");
        reveal_strlit("kraken_price");
        reveal_strlit("huobi_price");
        assert("binance_price"@[0] == 'b');
        assert("kraken_price"@[0] == 'k');
        assert("huobi_price"@[0] == 'h');
    }
}

/// The configured sources, in the order in which their keys are read.
pub open spec fn configured_sources() -> Seq<SourceId> {
    seq![SourceId::Binance, SourceId::Kraken, SourceId::Huobi]
}

/// The configured sources, in the order in which their keys are read.
pub fn sources() -> (all: Vec<SourceId>)
    ensures
        all@ == configured_sources(),
{
    let mut all: Vec<SourceId> = Vec::new();
    all.push(SourceId::Binance);
    all.push(SourceId::Kraken);
    all.push(SourceId::Huobi);
    proof {
        assert(all@ =~= configured_sources());
    }
    all
}

/// Why a source gave no price. The collector treats every one of these
/// alike: the source is skipped for the cycle.
#[derive(Clone, Copy, Debug, PartialEq, Eq, Structural)]
pub enum FetchError {
    /// The source could not be reached, or the exchange of messages broke
    /// off.
    Connection,
    /// The payload is not what the source's protocol prescribes.
    MalformedPayload,
    /// The reply holds no ask price.
    MissingAskPrice,
    /// The reply holds no bid price.
    MissingBidPrice,
    /// The order book holds no ask.
    InvalidAskData,
    /// The best bid of the order book is not a number.
    InvalidBidPrice,
    /// A price is not a decimal number in range.
    InvalidNumber,
    /// The stream ended before it gave a price.
    InvalidMessageFormat,
}

impl FetchError {
    /// The text that describes the failure.
    pub open spec fn text(self) -> Seq<char> {
        match self {
            FetchError::Connection => "Connection failed"@,
            FetchError::MalformedPayload => "Malformed payload"@,
            FetchError::MissingAskPrice => "Failed to get ask price"@,
            FetchError::MissingBidPrice => "Failed to get bid price"@,
            FetchError::InvalidAskData => "Invalid ask data"@,
            FetchError::InvalidBidPrice => "Invalid bid price"@,
            FetchError::InvalidNumber => "Invalid number"@,
            FetchError::InvalidMessageFormat => "Invalid message format"@,
        }
    }

    /// The text that describes the failure.
    pub fn message(&self) -> (text: String)
        ensures
            text@ == self.text(),
    {
        match self {
            FetchError::Connection => "Connection failed".to_string(),
            FetchError::MalformedPayload => "Malformed payload".to_string(),
            FetchError::MissingAskPrice => "Failed to get ask price".to_string(),
            FetchError::MissingBidPrice => "Failed to get bid price".to_string(),
            FetchError::InvalidAskData => "Invalid ask data".to_string(),
            FetchError::InvalidBidPrice => "Invalid bid price".to_string(),
            FetchError::InvalidNumber => "Invalid number".to_string(),
            FetchError::InvalidMessageFormat => "Invalid message format".to_string(),
        }
    }
}

/// What a source's client does after a message of a stream was taken in.
#[derive(Clone, Copy, Debug, PartialEq, Eq)]
pub enum StreamStep {
    /// The message gave no price: wait for the next one.
    Continue,
    /// The fetch is over, with this outcome.
    Finish(Result<Price, FetchError>),
}

/// One price snapshot of one source. It lives for one collection cycle.
#[derive(Clone, Copy, Debug, PartialEq, Eq, Structural)]
pub struct Quote {
    /// The source that gave the price.
    pub source_id: SourceId,
    /// The mid-price.
    pub price: Price,
    /// When the price was observed, in milliseconds of the caller's clock.
    pub observed_at: u64,
}

} // verus!
