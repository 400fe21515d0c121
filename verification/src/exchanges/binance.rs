//! Binance: mid-prices from its book ticker.

use vstd::prelude::*;
use crate::decimal::price_of_text;
use crate::exchanges::FetchError;
use crate::json::{as_text, json_member, json_parse, json_text, member, parse_json};
use crate::price::{Price, div_round};

verus! {

/// The client of the Binance book ticker.
#[derive(Debug)]
pub struct BinanceService {
    api_url: String,
}

/// The mid-price of a ticker, given the texts of its `askPrice` and its
/// `bidPrice`, each `None` where the ticker has no such text.
///
/// The ask is looked at first: where it is missing the fetch fails with
/// `MissingAskPrice`, where it is no decimal price with `InvalidNumber`. The
/// bid follows in the same way, with `MissingBidPrice`. The mid-price is the
/// mean of the two.
pub open spec fn ticker_mid_price(ask: Option<Seq<char>>, bid: Option<Seq<char>>) -> Result<
    Price,
    FetchError,
> {
    match ask {
        None => Err(FetchError::MissingAskPrice),
        Some(ask_text) => match price_of_text(ask_text) {
            Err(_) => Err(FetchError::InvalidNumber),
            Ok(ask_price) => match bid {
                None => Err(FetchError::MissingBidPrice),
                Some(bid_text) => match price_of_text(bid_text) {
                    Err(_) => Err(FetchError::InvalidNumber),
                    Ok(bid_price) => Ok(
                        Price::of_units(div_round(ask_price@ + bid_price@, 2)),
                    ),
                },
            },
        },
    }
}

/// The mid-price that the body of a ticker reply gives: `MalformedPayload`
/// where the body is no JSON document, and else the mid-price of the texts
/// that the document holds under `askPrice` and `bidPrice`.
pub open spec fn snapshot_mid_price(body: Seq<char>) -> Result<Price, FetchError> {
    match json_parse(body) {
        None => Err(FetchError::MalformedPayload),
        Some(document) => ticker_mid_price(
            json_text(json_member(document, "askPrice"@)),
            json_text(json_member(document, "bidPrice"@)),
        ),
    }
}

impl BinanceService {
    /// The client of the ticker of BTC/USDT.
    pub fn new() -> (service: Self)
        ensures
            service.url() == "https://api.binance.com/api/v3/ticker/bookTicker?symbol=BTCUSDT"@,
    {
        BinanceService {
            api_url: "https://api.binance.com/api/v3/ticker/bookTicker?symbol=BTCUSDT".to_string(),
        }
    }

    /// Where the ticker is asked for.
    pub closed spec fn url(&self) -> Seq<char> {
        self.api_url@
    }

    /// The client of the ticker at `api_url`.
    pub fn with_url(api_url: String) -> (service: Self)
        ensures
            service.url() == api_url@,
    {
        BinanceService { api_url }
    }

    /// Where the ticker is asked for.
    pub fn api_url(&self) -> (url: &str)
        ensures
            url@ == self.url(),
    {
        self.api_url.as_str()
    }

    /// The mid-price that the body of a ticker reply gives.
    pub fn get_mid_price(&self, body: &str) -> (mid: Result<Price, FetchError>)
        ensures
            mid == snapshot_mid_price(body@),
    {
        self.calculate_mid_price_snapshot(body)
    }

    /// The mid-price that the body of a ticker reply gives.
    pub fn calculate_mid_price_snapshot(&self, body: &str) -> (mid: Result<Price, FetchError>)
        ensures
            mid == snapshot_mid_price(body@),
    {
        match parse_json(body) {
            Err(_) => Err(FetchError::MalformedPayload),
            Ok(document) => {
                let ask: Option<&str> = as_text(member(&document, "askPrice"));
                let bid: Option<&str> = as_text(member(&document, "bidPrice"));
                self.mid_price_of_ticker(ask, bid)
            },
        }
    }

    /// The mid-price of a ticker, given the texts of its `askPrice` and
    /// its `bidPrice`.
    pub fn mid_price_of_ticker(&self, ask: Option<&str>, bid: Option<&str>) -> (mid: Result<
        Price,
        FetchError,
    >)
        ensures
            mid == ticker_mid_price(
                match ask {
                    Some(text) => Some(text@),
                    None => None,
                },
                match bid {
                    Some(text) => Some(text@),
                    None => None,
                },
            ),
    {
        let ask_text: &str = match ask {
            Some(text) => text,
            None => {
                return Err(FetchError::MissingAskPrice);
            },
        };
        let ask_price: Price = match Price::parse(ask_text) {
            Ok(price) => price,
            Err(_) => {
                return Err(FetchError::InvalidNumber);
            },
        };
        let bid_text: &str = match bid {
            Some(text) => text,
            None => {
                return Err(FetchError::MissingBidPrice);
            },
        };
        let bid_price: Price = match Price::parse(bid_text) {
            Ok(price) => price,
            Err(_) => {
                return Err(FetchError::InvalidNumber);
            },
        };
        Ok(Price::mid_price(ask_price, bid_price))
    }
}

} // verus!
