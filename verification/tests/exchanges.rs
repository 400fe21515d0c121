use std::io::Write;

use global_price_index::exchanges::binance::BinanceService;
use global_price_index::exchanges::huobi::{FrameStep, HuobiService, HuobiTick};
use global_price_index::exchanges::kraken::{
    BookSnapshot, BookUpdate, KrakenMessage, KrakenService,
};
use global_price_index::exchanges::{FetchError, StreamStep};
use global_price_index::price::Price;

fn price(value: f64) -> Price {
    Price::from_units((value * 1e8).round() as i64).unwrap()
}

fn level(price: &str) -> [String; 3] {
    [price.to_string(), "1.00000000".to_string(), "1700000000.000000".to_string()]
}

fn gzip(text: &str) -> Vec<u8> {
    let mut encoder = flate2::write::GzEncoder::new(Vec::new(), flate2::Compression::default());
    encoder.write_all(text.as_bytes()).unwrap();
    encoder.finish().unwrap()
}

// Kraken

#[test]
fn kraken_mid_price_is_the_mean_of_best_bid_and_best_ask() {
    let kraken = KrakenService::new();
    assert_eq!(
        kraken.calculate_mid_price(
            vec![level("67000.10000"), level("66999.00000")],
            vec![level("67000.30000"), level("67001.00000")]
        ),
        Ok(price(67000.2))
    );
}

#[test]
fn kraken_without_bids_fails() {
    let kraken = KrakenService::new();
    assert_eq!(
        kraken.calculate_mid_price(Vec::new(), vec![level("67000.30000")]),
        Err(FetchError::MissingBidPrice)
    );
    assert_eq!(
        kraken.calculate_mid_price(Vec::new(), vec![level("102.0")]),
        Err(FetchError::MissingBidPrice)
    );
    assert_eq!(
        kraken.calculate_mid_price(Vec::new(), vec![level("x")]),
        Err(FetchError::MissingBidPrice)
    );
}

#[test]
fn kraken_without_asks_fails() {
    let kraken = KrakenService::new();
    assert_eq!(
        kraken.calculate_mid_price(vec![level("67000.1")], Vec::new()),
        Err(FetchError::InvalidAskData)
    );
    assert_eq!(
        kraken.calculate_mid_price(Vec::new(), Vec::new()),
        Err(FetchError::InvalidAskData)
    );
}

#[test]
fn kraken_with_a_price_that_is_no_number_fails() {
    let kraken = KrakenService::new();
    assert_eq!(
        kraken.calculate_mid_price(vec![level("1.0")], vec![level("x")]),
        Err(FetchError::InvalidNumber)
    );
    assert_eq!(
        kraken.calculate_mid_price(vec![level("x")], vec![level("1.0")]),
        Err(FetchError::InvalidNumber)
    );
    assert_eq!(
        kraken.calculate_mid_price(vec![level("NaN")], vec![level("x")]),
        Err(FetchError::InvalidNumber)
    );
}

#[test]
fn kraken_with_a_bid_that_spells_not_a_number_fails() {
    let kraken = KrakenService::new();
    assert_eq!(
        kraken.calculate_mid_price(vec![level("NaN")], vec![level("1.0")]),
        Err(FetchError::InvalidBidPrice)
    );
    assert_eq!(
        kraken.calculate_mid_price(vec![level("-nan")], vec![level("0.5")]),
        Err(FetchError::InvalidBidPrice)
    );
}

#[test]
fn kraken_with_an_ask_that_spells_not_a_number_fails() {
    let kraken = KrakenService::new();
    assert_eq!(
        kraken.calculate_mid_price(vec![level("1.0")], vec![level("NaN")]),
        Err(FetchError::InvalidNumber)
    );
    assert_eq!(
        kraken.calculate_mid_price(vec![level("nan")], vec![level("NaN")]),
        Err(FetchError::InvalidNumber)
    );
    assert_eq!(
        kraken.calculate_mid_price(vec![level("x")], vec![level("NaN")]),
        Err(FetchError::InvalidNumber)
    );
}

#[test]
fn kraken_looks_at_the_best_levels_only() {
    let kraken = KrakenService::new();
    assert_eq!(
        kraken.calculate_mid_price(
            vec![level("1.0"), level("x")],
            vec![level("3.0"), level("NaN")]
        ),
        Ok(price(2.0))
    );
}

#[test]
fn kraken_snapshot_and_update_take_a_missing_side_as_empty() {
    let kraken = KrakenService::new();
    assert_eq!(
        kraken.calculate_mid_price_snapshot(BookSnapshot {
            asks: Some(vec![level("3.0")]),
            bids: Some(vec![level("1.0")]),
        }),
        Ok(price(2.0))
    );
    assert_eq!(
        kraken.calculate_mid_price_snapshot(BookSnapshot {
            asks: Some(vec![level("3.0")]),
            bids: None,
        }),
        Err(FetchError::MissingBidPrice)
    );
    assert_eq!(
        kraken.calculate_mid_price_snapshot(BookSnapshot { asks: None, bids: None }),
        Err(FetchError::InvalidAskData)
    );
    assert_eq!(
        kraken.calculate_mid_price_update(BookUpdate {
            asks: Some(vec![level("5.0")]),
            bids: Some(vec![level("4.0")]),
        }),
        Ok(price(4.5))
    );
    assert_eq!(
        kraken.calculate_mid_price_update(BookUpdate {
            asks: None,
            bids: Some(vec![level("4.0")]),
        }),
        Err(FetchError::InvalidAskData)
    );
}

#[test]
fn kraken_passes_over_what_is_no_book() {
    let kraken = KrakenService::new();
    assert_eq!(kraken.get_mid_price(KrakenMessage::Other), StreamStep::Continue);
    assert_eq!(
        kraken.get_mid_price(KrakenMessage::Book { snapshot: None, update: None }),
        StreamStep::Continue
    );
}

#[test]
fn kraken_ends_the_fetch_with_the_first_book() {
    let kraken = KrakenService::new();
    let snapshot = BookSnapshot {
        asks: Some(vec![level("3.0")]),
        bids: Some(vec![level("1.0")]),
    };
    let update = BookUpdate { asks: Some(vec![level("30.0")]), bids: Some(vec![level("10.0")]) };
    assert_eq!(
        kraken.get_mid_price(KrakenMessage::Book {
            snapshot: Some(snapshot),
            update: Some(update)
        }),
        StreamStep::Finish(Ok(price(2.0)))
    );
    let update = BookUpdate { asks: Some(vec![level("30.0")]), bids: Some(vec![level("10.0")]) };
    assert_eq!(
        kraken.get_mid_price(KrakenMessage::Book { snapshot: None, update: Some(update) }),
        StreamStep::Finish(Ok(price(20.0)))
    );
    assert_eq!(
        kraken.get_mid_price(KrakenMessage::Book {
            snapshot: Some(BookSnapshot { asks: None, bids: None }),
            update: None
        }),
        StreamStep::Finish(Err(FetchError::InvalidAskData))
    );
}

#[test]
fn kraken_client_settings() {
    let kraken = KrakenService::new();
    assert_eq!(kraken.api_url(), "wss://ws.kraken.com");
    assert_eq!(KrakenService::with_url("ws://localhost:1".to_string()).api_url(), "ws://localhost:1");
    let message: serde_json::Value = serde_json::from_str(&kraken.subscribe_message()).unwrap();
    assert_eq!(message["event"].as_str(), Some("subscribe"));
    assert_eq!(message["pair"][0].as_str(), Some("XBT/USD"));
    assert_eq!(message["subscription"]["name"].as_str(), Some("book"));
    assert_eq!(message["subscription"]["depth"].as_u64(), Some(10));
    assert_eq!(kraken.end_of_stream(), Err(FetchError::InvalidMessageFormat));
}

// Huobi

#[test]
fn huobi_answers_a_heartbeat() {
    let huobi = HuobiService::new();
    assert_eq!(
        huobi.get_mid_price(&gzip("{\"ping\":1700000000000}")),
        FrameStep::Reply("{\"pong\":1700000000000}".to_string())
    );
    assert_eq!(
        huobi.classify("ping ping tick".to_string()),
        FrameStep::Reply("pong pong tick".to_string())
    );
    assert_eq!(
        huobi.classify("pingping pping pin ping".to_string()),
        FrameStep::Reply("pongpong ppong pin pong".to_string())
    );
    assert_eq!(huobi.classify("ping".to_string()), FrameStep::Reply("pong".to_string()));
}

#[test]
fn huobi_hands_a_tick_on() {
    let huobi = HuobiService::new();
    let text = "{\"ch\":\"market.btcusdt.depth.step0\",\"tick\":{\"bids\":[[1.0,2.0]],\"asks\":[[3.0,4.0]]}}";
    assert_eq!(huobi.get_mid_price(&gzip(text)), FrameStep::Tick(text.to_string()));
}

#[test]
fn huobi_passes_over_other_frames() {
    let huobi = HuobiService::new();
    assert_eq!(
        huobi.get_mid_price(&gzip("{\"id\":\"id1\",\"status\":\"ok\",\"subbed\":\"x\"}")),
        FrameStep::Skip
    );
    assert_eq!(huobi.get_mid_price(&gzip("")), FrameStep::Skip);
    assert_eq!(huobi.classify("pin tic".to_string()), FrameStep::Skip);
}

#[test]
fn huobi_fails_on_a_frame_that_is_no_gzip_text() {
    let huobi = HuobiService::new();
    assert_eq!(
        huobi.get_mid_price(b"{\"ping\":1700000000000}"),
        FrameStep::Fail(FetchError::MalformedPayload)
    );
    assert_eq!(huobi.get_mid_price(&[]), FrameStep::Fail(FetchError::MalformedPayload));
    let mut encoder = flate2::write::GzEncoder::new(Vec::new(), flate2::Compression::default());
    encoder.write_all(&[0xff, 0xfe, 0xfd]).unwrap();
    assert_eq!(
        huobi.get_mid_price(&encoder.finish().unwrap()),
        FrameStep::Fail(FetchError::MalformedPayload)
    );
}

#[test]
fn huobi_mid_price_is_the_mean_of_best_bid_and_best_ask() {
    let huobi = HuobiService::new();
    let tick = HuobiTick {
        bids: vec![vec![price(66999.5), price(0.3)], vec![price(66000.0), price(1.0)]],
        asks: vec![vec![price(67000.5), price(0.1)]],
    };
    assert_eq!(
        huobi.mid_price_of_tick(Some(tick)),
        StreamStep::Finish(Ok(price(67000.0)))
    );
}

#[test]
fn huobi_waits_for_a_tick_with_both_sides() {
    let huobi = HuobiService::new();
    assert_eq!(
        huobi.mid_price_of_tick(Some(HuobiTick { bids: Vec::new(), asks: vec![vec![price(1.0)]] })),
        StreamStep::Continue
    );
    assert_eq!(
        huobi.mid_price_of_tick(Some(HuobiTick { bids: vec![vec![price(1.0)]], asks: Vec::new() })),
        StreamStep::Continue
    );
    assert_eq!(
        huobi.mid_price_of_tick(Some(HuobiTick { bids: Vec::new(), asks: Vec::new() })),
        StreamStep::Continue
    );
}

#[test]
fn huobi_fails_on_what_is_no_tick() {
    let huobi = HuobiService::new();
    assert_eq!(
        huobi.mid_price_of_tick(None),
        StreamStep::Finish(Err(FetchError::MalformedPayload))
    );
    assert_eq!(
        huobi.mid_price_of_tick(Some(HuobiTick {
            bids: vec![Vec::new()],
            asks: vec![vec![price(1.0)]]
        })),
        StreamStep::Finish(Err(FetchError::MalformedPayload))
    );
    assert_eq!(
        huobi.mid_price_of_tick(Some(HuobiTick {
            bids: vec![vec![price(1.0)]],
            asks: vec![Vec::new()]
        })),
        StreamStep::Finish(Err(FetchError::MalformedPayload))
    );
}

#[test]
fn huobi_client_settings() {
    let huobi = HuobiService::new();
    assert_eq!(huobi.api_url(), "wss://api.huobi.pro/ws");
    assert_eq!(HuobiService::with_url("ws://localhost:2".to_string()).api_url(), "ws://localhost:2");
    let message: serde_json::Value = serde_json::from_str(&huobi.subscribe_message()).unwrap();
    assert_eq!(message["sub"].as_str(), Some("market.btcusdt.depth.step0"));
    assert_eq!(message["id"].as_str(), Some("id1"));
    assert_eq!(huobi.end_of_stream(), Err(FetchError::InvalidMessageFormat));
}

// Binance

#[test]
fn binance_mid_price_is_the_mean_of_bid_and_ask() {
    let binance = BinanceService::new();
    let body = "{\"symbol\":\"BTCUSDT\",\"bidPrice\":\"67000.10000000\",\"bidQty\":\"1.5\",\"askPrice\":\"67000.30000000\",\"askQty\":\"0.2\"}";
    assert_eq!(binance.get_mid_price(body), Ok(price(67000.2)));
    assert_eq!(binance.calculate_mid_price_snapshot(body), Ok(price(67000.2)));
}

#[test]
fn binance_fails_on_a_body_that_is_no_json() {
    let binance = BinanceService::new();
    assert_eq!(binance.get_mid_price(""), Err(FetchError::MalformedPayload));
    assert_eq!(binance.get_mid_price("<html>"), Err(FetchError::MalformedPayload));
    assert_eq!(
        binance.get_mid_price("{\"askPrice\":\"1\",\"bidPrice\":\"1\"} x"),
        Err(FetchError::MalformedPayload)
    );
}

#[test]
fn binance_fails_on_a_missing_price() {
    let binance = BinanceService::new();
    assert_eq!(
        binance.get_mid_price("{\"bidPrice\":\"1.0\"}"),
        Err(FetchError::MissingAskPrice)
    );
    assert_eq!(
        binance.get_mid_price("{\"askPrice\":\"1.0\"}"),
        Err(FetchError::MissingBidPrice)
    );
    assert_eq!(binance.get_mid_price("{}"), Err(FetchError::MissingAskPrice));
    assert_eq!(binance.get_mid_price("[1, 2]"), Err(FetchError::MissingAskPrice));
    assert_eq!(binance.get_mid_price("null"), Err(FetchError::MissingAskPrice));
}

#[test]
fn binance_takes_prices_from_texts_only() {
    let binance = BinanceService::new();
    assert_eq!(
        binance.get_mid_price("{\"askPrice\":1.0,\"bidPrice\":\"1.0\"}"),
        Err(FetchError::MissingAskPrice)
    );
    assert_eq!(
        binance.get_mid_price("{\"askPrice\":\"1.0\",\"bidPrice\":null}"),
        Err(FetchError::MissingBidPrice)
    );
}

#[test]
fn binance_fails_on_a_price_that_is_no_number() {
    let binance = BinanceService::new();
    assert_eq!(
        binance.get_mid_price("{\"askPrice\":\"abc\",\"bidPrice\":\"1.0\"}"),
        Err(FetchError::InvalidNumber)
    );
    assert_eq!(
        binance.get_mid_price("{\"askPrice\":\"1.0\",\"bidPrice\":\"NaN\"}"),
        Err(FetchError::InvalidNumber)
    );
    assert_eq!(
        binance.get_mid_price("{\"askPrice\":\"abc\"}"),
        Err(FetchError::InvalidNumber)
    );
}

#[test]
fn binance_mid_price_of_ticker() {
    let binance = BinanceService::new();
    assert_eq!(binance.mid_price_of_ticker(Some("3"), Some("1")), Ok(price(2.0)));
    assert_eq!(
        binance.mid_price_of_ticker(Some("0.00000001"), Some("0.00000002")),
        Ok(Price::from_units(2).unwrap())
    );
    assert_eq!(binance.mid_price_of_ticker(None, None), Err(FetchError::MissingAskPrice));
    assert_eq!(binance.mid_price_of_ticker(None, Some("x")), Err(FetchError::MissingAskPrice));
    assert_eq!(binance.mid_price_of_ticker(Some("x"), None), Err(FetchError::InvalidNumber));
    assert_eq!(binance.mid_price_of_ticker(Some("1"), None), Err(FetchError::MissingBidPrice));
    assert_eq!(binance.mid_price_of_ticker(Some("1"), Some("x")), Err(FetchError::InvalidNumber));
}

#[test]
fn binance_client_settings() {
    assert_eq!(
        BinanceService::new().api_url(),
        "https://api.binance.com/api/v3/ticker/bookTicker?symbol=BTCUSDT"
    );
    assert_eq!(
        BinanceService::with_url("http://localhost:3".to_string()).api_url(),
        "http://localhost:3"
    );
}
