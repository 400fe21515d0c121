use global_price_index::aggregator::AggregationError;
use global_price_index::controller::{
    global_price_index, health_check, AverageMidPriceDto, Response, ResponseBody,
    GLOBAL_PRICE_INDEX_PATH, HEALTH_PATH,
};
use global_price_index::price::Price;

#[test]
fn paths() {
    assert_eq!(GLOBAL_PRICE_INDEX_PATH, "/global-price-index");
    assert_eq!(HEALTH_PATH, "/health");
}

#[test]
fn health_is_ok() {
    assert_eq!(
        health_check(),
        Response { status: 200, body: ResponseBody::Text("OK".to_string()) }
    );
}

#[test]
fn an_average_is_served_with_200() {
    let price = Price::from_units(10_000_000_000).unwrap();
    assert_eq!(
        global_price_index(Ok(price)),
        Response {
            status: 200,
            body: ResponseBody::AverageMidPrice(AverageMidPriceDto { average_mid_price: price })
        }
    );
}

#[test]
fn no_prices_are_answered_with_500() {
    assert_eq!(
        global_price_index(Err(AggregationError::NoPricesAvailable)),
        Response {
            status: 500,
            body: ResponseBody::Text("No prices available in cache".to_string())
        }
    );
}
