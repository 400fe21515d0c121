//! The HTTP surface: what each route answers.

use vstd::prelude::*;
use crate::aggregator::AggregationError;
use crate::price::Price;

verus! {

/// The path that serves the global price index.
pub const GLOBAL_PRICE_INDEX_PATH: &'static str = "/global-price-index";

/// The path that tells whether the process is alive.
pub const HEALTH_PATH: &'static str = "/health";

/// The body of a successful answer to a request for the index.
#[derive(Clone, Copy, Debug, PartialEq, Eq, Structural)]
pub struct AverageMidPriceDto {
    pub average_mid_price: Price,
}

/// What a response carries.
#[derive(Debug, PartialEq, Eq)]
pub enum ResponseBody {
    /// A JSON object with the average mid-price.
    AverageMidPrice(AverageMidPriceDto),
    /// A plain text.
    Text(String),
}

/// A response: its status code and what it carries.
#[derive(Debug, PartialEq, Eq)]
pub struct Response {
    pub status: u16,
    pub body: ResponseBody,
}

/// What a response carries, its text as a sequence of characters.
pub enum ResponseBodyView {
    AverageMidPrice(AverageMidPriceDto),
    Text(Seq<char>),
}

/// A response, its text as a sequence of characters.
pub struct ResponseView {
    pub status: u16,
    pub body: ResponseBodyView,
}

impl View for Response {
    type V = ResponseView;

    open spec fn view(&self) -> ResponseView {
        ResponseView {
            status: self.status,
            body: match self.body {
                ResponseBody::AverageMidPrice(dto) => ResponseBodyView::AverageMidPrice(dto),
                ResponseBody::Text(text) => ResponseBodyView::Text(text@),
            },
        }
    }
}

/// The answer to a request for the index, given how its poll ended: `200`
/// with the average where there is one, and `500` with the diagnostic text of
/// the error where there is none.
pub open spec fn index_response(result: Result<Price, AggregationError>) -> ResponseView {
    match result {
        Ok(price) => ResponseView {
            status: 200,
            body: ResponseBodyView::AverageMidPrice(
                AverageMidPriceDto { average_mid_price: price },
            ),
        },
        Err(_) => ResponseView {
            status: 500,
            body: ResponseBodyView::Text("No prices available in cache"@),
        },
    }
}

/// The answer to a health check: `200` and the text `OK`.
pub open spec fn health_response() -> ResponseView {
    ResponseView { status: 200, body: ResponseBodyView::Text("OK"@) }
}

/// Answers a request for the index, given how its poll ended.
pub fn global_price_index(result: Result<Price, AggregationError>) -> (response: Response)
    ensures
        response@ == index_response(result),
{
    match result {
        Ok(price) => Response {
            status: 200,
            body: ResponseBody::AverageMidPrice(AverageMidPriceDto { average_mid_price: price }),
        },
        Err(error) => Response { status: 500, body: ResponseBody::Text(error.message()) },
    }
}

/// Answers a health check, whatever the state of the sources and of the
/// store.
pub fn health_check() -> (response: Response)
    ensures
        response@ == health_response(),
{
    Response { status: 200, body: ResponseBody::Text("OK".to_string()) }
}

} // verus!
