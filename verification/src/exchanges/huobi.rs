//! Huobi: mid-prices from the depth ticks that its WebSocket feed sends.

use vstd::prelude::*;
use crate::exchanges::{FetchError, StreamStep};
use crate::gzip::{gunzip, gunzipped};
use crate::price::{Price, div_round};
use crate::text::{contains, occurs_in, replace, replaced};

verus! {

/// The two sides of a depth tick. A level holds its price first, then its
/// volume.
#[derive(Debug)]
pub struct HuobiTick {
    pub bids: Vec<Vec<Price>>,
    pub asks: Vec<Vec<Price>>,
}

/// What the client does with a binary frame of the feed.
#[derive(Debug, PartialEq, Eq)]
pub enum FrameStep {
    /// The frame is a heartbeat: send this text back and wait for the next
    /// frame.
    Reply(String),
    /// The frame holds a tick: read this text as one and hand the result to
    /// `mid_price_of_tick`.
    Tick(String),
    /// The frame holds neither: wait for the next frame.
    Skip,
    /// The fetch is over, with this failure.
    Fail(FetchError),
}

/// What the client does with a binary frame of the feed, as a value of
/// specifications.
pub enum FrameStepView {
    Reply(Seq<char>),
    Tick(Seq<char>),
    Skip,
    Fail(FetchError),
}

impl View for FrameStep {
    type V = FrameStepView;

    open spec fn view(&self) -> FrameStepView {
        match self {
            FrameStep::Reply(text) => FrameStepView::Reply(text@),
            FrameStep::Tick(text) => FrameStepView::Tick(text@),
            FrameStep::Skip => FrameStepView::Skip,
            FrameStep::Fail(error) => FrameStepView::Fail(*error),
        }
    }
}

/// The client of the Huobi feed.
#[derive(Debug)]
pub struct HuobiService {
    api_url: String,
}

/// What follows the text of a frame. A text that holds `ping` is a
/// heartbeat and is answered with the same text, `pong` in place of `ping`;
/// any other text that holds `tick` is read as a tick; any other is passed
/// over.
pub open spec fn text_step(text: Seq<char>) -> FrameStepView {
    if occurs_in("ping"@, text) {
        FrameStepView::Reply(replaced(text, "ping"@, "pong"@))
    } else if occurs_in("tick"@, text) {
        FrameStepView::Tick(text)
    } else {
        FrameStepView::Skip
    }
}

/// What follows a binary frame: a frame that does not decode to text ends
/// the fetch with `MalformedPayload`; any other is treated by its text.
pub open spec fn frame_step(frame: Seq<u8>) -> FrameStepView {
    match gunzipped(frame) {
        Some(text) => text_step(text),
        None => FrameStepView::Fail(FetchError::MalformedPayload),
    }
}

/// What follows a frame that holds `tick`, given the tick that its text
/// reads as, `None` where it reads as none.
///
/// A text that is no tick ends the fetch with `MalformedPayload`. A tick
/// with a bid and an ask ends it with the mean of the best bid and the best
/// ask, or with `MalformedPayload` where one of the two levels holds no
/// price. A tick that lacks a side is passed over.
pub open spec fn tick_step(tick: Option<HuobiTick>) -> StreamStep {
    match tick {
        None => StreamStep::Finish(Err(FetchError::MalformedPayload)),
        Some(t) => if t.bids@.len() == 0 || t.asks@.len() == 0 {
            StreamStep::Continue
        } else if t.bids@[0]@.len() == 0 || t.asks@[0]@.len() == 0 {
            StreamStep::Finish(Err(FetchError::MalformedPayload))
        } else {
            StreamStep::Finish(
                Ok(Price::of_units(div_round(t.bids@[0]@[0]@ + t.asks@[0]@[0]@, 2))),
            )
        },
    }
}

impl HuobiService {
    /// Where the feed is reached.
    pub closed spec fn url(&self) -> Seq<char> {
        self.api_url@
    }

    /// The client of the public feed.
    pub fn new() -> (service: Self)
        ensures
            service.url() == "wss://api.huobi.pro/ws"@,
    {
        HuobiService { api_url: "wss://api.huobi.pro/ws".to_string() }
    }

    /// The client of the feed at `api_url`.
    pub fn with_url(api_url: String) -> (service: Self)
        ensures
            service.url() == api_url@,
    {
        HuobiService { api_url }
    }

    /// Where the feed is reached.
    pub fn api_url(&self) -> (url: &str)
        ensures
            url@ == self.url(),
    {
        self.api_url.as_str()
    }

    /// The message that subscribes to the depth of BTC/USDT.
    pub fn subscribe_message(&self) -> (message: String)
        ensures
            message@ == "{\"sub\":\"market.btcusdt.depth.step0\",\"id\":\"id1\"}"@,
    {
        "{\"sub\":\"market.btcusdt.depth.step0\",\"id\":\"id1\"}".to_string()
    }

    /// One step of a fetch: takes in a binary frame of the feed and says
    /// what to do with it.
    pub fn get_mid_price(&self, frame: &[u8]) -> (step: FrameStep)
        ensures
            step@ == frame_step(frame@),
    {
        match gunzip(frame) {
            Some(text) => self.classify(text),
            None => FrameStep::Fail(FetchError::MalformedPayload),
        }
    }

    /// Says what to do with a frame that decoded to `text`.
    pub fn classify(&self, text: String) -> (step: FrameStep)
        ensures
            step@ == text_step(text@),
    {
        if contains(text.as_str(), "ping") {
            FrameStep::Reply(replace(text.as_str(), "ping", "pong"))
        } else if contains(text.as_str(), "tick") {
            FrameStep::Tick(text)
        } else {
            FrameStep::Skip
        }
    }

    /// Says whether the fetch goes on after a frame that holds `tick`.
    pub fn mid_price_of_tick(&self, tick: Option<HuobiTick>) -> (step: StreamStep)
        ensures
            step == tick_step(tick),
    {
        match tick {
            None => StreamStep::Finish(Err(FetchError::MalformedPayload)),
            Some(t) => {
                if t.bids.len() == 0 || t.asks.len() == 0 {
                    StreamStep::Continue
                } else if t.bids[0].len() == 0 || t.asks[0].len() == 0 {
                    StreamStep::Finish(Err(FetchError::MalformedPayload))
                } else {
                    StreamStep::Finish(Ok(Price::mid_price(t.bids[0][0], t.asks[0][0])))
                }
            },
        }
    }

    /// The outcome of a fetch whose feed ended before it gave a tick.
    pub fn end_of_stream(&self) -> (outcome: Result<Price, FetchError>)
        ensures
            outcome == Err::<Price, FetchError>(FetchError::InvalidMessageFormat),
    {
        Err(FetchError::InvalidMessageFormat)
    }
}

} // verus!
