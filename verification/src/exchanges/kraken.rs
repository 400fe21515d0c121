//! Kraken: mid-prices from the order book that its WebSocket feed sends.

use vstd::prelude::*;
use crate::decimal::{PriceTextError, price_of_text};
use crate::exchanges::{FetchError, StreamStep};
use crate::price::{Price, div_round};

verus! {

/// The levels of a book snapshot: price, volume and time of each level, as
/// texts.
#[derive(Debug)]
pub struct BookSnapshot {
    pub asks: Option<Vec<[String; 3]>>,
    pub bids: Option<Vec<[String; 3]>>,
}

/// The levels of a book update.
#[derive(Debug)]
pub struct BookUpdate {
    pub asks: Option<Vec<[String; 3]>>,
    pub bids: Option<Vec<[String; 3]>>,
}

/// A text message of the feed, as far as the client reads it.
#[derive(Debug)]
pub enum KrakenMessage {
    /// A subscription status, or a text that is no message of the feed.
    Other,
    /// A book message. `snapshot` is its second element read as a snapshot,
    /// `update` the same element read as an update; each is `None` where the
    /// element is missing or does not read as that.
    Book { snapshot: Option<BookSnapshot>, update: Option<BookUpdate> },
}

/// The client of the Kraken feed.
#[derive(Debug)]
pub struct KrakenService {
    api_url: String,
}

/// The levels of one side of a book, none where the side is missing.
pub open spec fn side(levels: Option<Vec<[String; 3]>>) -> Seq<[String; 3]> {
    match levels {
        Some(v) => v@,
        None => Seq::empty(),
    }
}

/// The price text of the best level of a side.
pub open spec fn best_price_text(levels: Seq<[String; 3]>) -> Seq<char> {
    levels[0]@[0]@
}

/// The mid-price of a book: the mean of its best bid and its best ask.
///
/// A book without asks gives `InvalidAskData`, one without bids
/// `MissingBidPrice`. The best ask is read as a decimal price, then the best
/// bid; a text that is no price gives `InvalidNumber`, but for a best bid
/// that spells "not a number", which gives `InvalidBidPrice`.
pub open spec fn book_mid_price(bids: Seq<[String; 3]>, asks: Seq<[String; 3]>) -> Result<
    Price,
    FetchError,
> {
    if asks.len() == 0 {
        Err(FetchError::InvalidAskData)
    } else if bids.len() == 0 {
        Err(FetchError::MissingBidPrice)
    } else {
        match price_of_text(best_price_text(asks)) {
            Err(_) => Err(FetchError::InvalidNumber),
            Ok(lowest_ask) => match price_of_text(best_price_text(bids)) {
                Err(PriceTextError::Invalid) => Err(FetchError::InvalidNumber),
                Err(PriceTextError::NotANumber) => Err(FetchError::InvalidBidPrice),
                Ok(highest_bid) => Ok(Price::of_units(div_round(highest_bid@ + lowest_ask@, 2))),
            },
        }
    }
}

/// What follows a message of the feed: a book message that reads as a
/// snapshot ends the fetch with the snapshot's mid-price; one that reads as
/// an update only, with the update's; any other message is passed over.
pub open spec fn message_step(message: KrakenMessage) -> StreamStep {
    match message {
        KrakenMessage::Other => StreamStep::Continue,
        KrakenMessage::Book { snapshot, update } => match snapshot {
            Some(data) => StreamStep::Finish(book_mid_price(side(data.bids), side(data.asks))),
            None => match update {
                Some(data) => StreamStep::Finish(
                    book_mid_price(side(data.bids), side(data.asks)),
                ),
                None => StreamStep::Continue,
            },
        },
    }
}

impl KrakenService {
    /// Where the feed is reached.
    pub closed spec fn url(&self) -> Seq<char> {
        self.api_url@
    }

    /// The client of the public feed.
    pub fn new() -> (service: Self)
        ensures
            service.url() == "wss://ws.kraken.com"@,
    {
        KrakenService { api_url: "wss://ws.kraken.com".to_string() }
    }

    /// The client of the feed at `api_url`.
    pub fn with_url(api_url: String) -> (service: Self)
        ensures
            service.url() == api_url@,
    {
        KrakenService { api_url }
    }

    /// Where the feed is reached.
    pub fn api_url(&self) -> (url: &str)
        ensures
            url@ == self.url(),
    {
        self.api_url.as_str()
    }

    /// The message that subscribes to the order book of XBT/USD, ten levels
    /// deep.
    pub fn subscribe_message(&self) -> (message: String)
        ensures
            message@
                == "{\"event\":\"subscribe\",\"pair\":[\"XBT/USD\"],\"subscription\":{\"name\":\"book\",\"depth\":10}}"@,
    {
        "{\"event\":\"subscribe\",\"pair\":[\"XBT/USD\"],\"subscription\":{\"name\":\"book\",\"depth\":10}}".to_string()
    }

    /// One step of a fetch: takes in a text message of the feed and says
    /// whether the fetch goes on.
    pub fn get_mid_price(&self, message: KrakenMessage) -> (step: StreamStep)
        ensures
            step == message_step(message),
    {
        match message {
            KrakenMessage::Other => StreamStep::Continue,
            KrakenMessage::Book { snapshot, update } => match snapshot {
                Some(data) => StreamStep::Finish(self.calculate_mid_price_snapshot(data)),
                None => match update {
                    Some(data) => StreamStep::Finish(self.calculate_mid_price_update(data)),
                    None => StreamStep::Continue,
                },
            },
        }
    }

    /// The outcome of a fetch whose feed ended before it gave a book.
    pub fn end_of_stream(&self) -> (outcome: Result<Price, FetchError>)
        ensures
            outcome == Err::<Price, FetchError>(FetchError::InvalidMessageFormat),
    {
        Err(FetchError::InvalidMessageFormat)
    }

    /// The mid-price of a book snapshot.
    pub fn calculate_mid_price_snapshot(&self, data: BookSnapshot) -> (mid: Result<
        Price,
        FetchError,
    >)
        ensures
            mid == book_mid_price(side(data.bids), side(data.asks)),
    {
        let bids: Vec<[String; 3]> = match data.bids {
            Some(levels) => levels,
            None => Vec::new(),
        };
        let asks: Vec<[String; 3]> = match data.asks {
            Some(levels) => levels,
            None => Vec::new(),
        };
        self.calculate_mid_price(bids, asks)
    }

    /// The mid-price of a book update.
    pub fn calculate_mid_price_update(&self, data: BookUpdate) -> (mid: Result<Price, FetchError>)
        ensures
            mid == book_mid_price(side(data.bids), side(data.asks)),
    {
        let bids: Vec<[String; 3]> = match data.bids {
            Some(levels) => levels,
            None => Vec::new(),
        };
        let asks: Vec<[String; 3]> = match data.asks {
            Some(levels) => levels,
            None => Vec::new(),
        };
        self.calculate_mid_price(bids, asks)
    }

    /// The mid-price of a book, from its best bid and its best ask.
    pub fn calculate_mid_price(&self, bids: Vec<[String; 3]>, asks: Vec<[String; 3]>) -> (mid:
        Result<Price, FetchError>)
        ensures
            mid == book_mid_price(bids@, asks@),
    {
        if asks.len() == 0 {
            return Err(FetchError::InvalidAskData);
        }
        if bids.len() == 0 {
            return Err(FetchError::MissingBidPrice);
        }
        let lowest_ask: Price = match Price::parse(asks[0][0].as_str()) {
            Ok(price) => price,
            Err(_) => {
                return Err(FetchError::InvalidNumber);
            },
        };
        match Price::parse(bids[0][0].as_str()) {
            Ok(highest_bid) => Ok(Price::mid_price(highest_bid, lowest_ask)),
            Err(PriceTextError::NotANumber) => Err(FetchError::InvalidBidPrice),
            Err(PriceTextError::Invalid) => Err(FetchError::InvalidNumber),
        }
    }
}

} // verus!
