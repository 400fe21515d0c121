//! The service facade: the collector and the aggregator under one
//! configuration.
//!
//! One `AppService` is built at startup and shared by the collector's task
//! and by every request. It holds no state of a request or of a cycle: each
//! method takes what happened and says what to do next.

use vstd::prelude::*;
use crate::aggregator::{
    Poll,
    PollOutcome,
    PollStep,
    aggregate,
    law_budget_ends_poll,
    law_quorum_ends_poll,
    lemma_present_count,
    present,
    run,
};
use crate::cache::{CacheWrite, Contents, read_all_at, read_at};
use crate::collector::{
    CollectionError,
    CollectorStep,
    CycleEvent,
    after_cycle,
    fetched_for,
    first_step,
    is_quote_of,
    law_partial_tolerance,
    next_step,
    one_fetch_per_source,
    plan_cycle,
    planned_writes,
    start_schedule,
    step_after,
};
use crate::config::Config;
use crate::exchanges::{FetchError, Quote, SourceId, configured_sources, sources};
use crate::exchanges::binance::BinanceService;
use crate::exchanges::huobi::HuobiService;
use crate::exchanges::kraken::KrakenService;
use crate::price::Price;

verus! {

/// The service: its sources and its configuration.
#[derive(Debug)]
pub struct AppService {
    binance_service: BinanceService,
    kraken_service: KrakenService,
    huobi_service: HuobiService,
    config: Config,
}

impl AppService {
    /// The configuration the service was built with.
    pub closed spec fn settings(&self) -> Config {
        self.config
    }

    /// The client of Binance.
    pub closed spec fn binance_service(&self) -> BinanceService {
        self.binance_service
    }

    /// The client of Kraken.
    pub closed spec fn kraken_service(&self) -> KrakenService {
        self.kraken_service
    }

    /// The client of Huobi.
    pub closed spec fn huobi_service(&self) -> HuobiService {
        self.huobi_service
    }

    /// The service under `config`, with a client for each source at the
    /// place that `config` names for it.
    pub fn new(config: Config) -> (service: Self)
        ensures
            service.settings() == config,
            service.binance_service().url() == config.binance_api_url@,
            service.kraken_service().url() == config.kraken_api_url@,
            service.huobi_service().url() == config.huobi_api_url@,
    {
        AppService {
            binance_service: BinanceService::with_url(config.binance_api_url.clone()),
            kraken_service: KrakenService::with_url(config.kraken_api_url.clone()),
            huobi_service: HuobiService::with_url(config.huobi_api_url.clone()),
            config,
        }
    }

    /// The configuration the service was built with.
    pub fn config(&self) -> (config: &Config)
        ensures
            *config == self.settings(),
    {
        &self.config
    }

    /// The client of Binance.
    pub fn binance(&self) -> (client: &BinanceService)
        ensures
            *client == self.binance_service(),
    {
        &self.binance_service
    }

    /// The client of Kraken.
    pub fn kraken(&self) -> (client: &KrakenService)
        ensures
            *client == self.kraken_service(),
    {
        &self.kraken_service
    }

    /// The client of Huobi.
    pub fn huobi(&self) -> (client: &HuobiService)
        ensures
            *client == self.huobi_service(),
    {
        &self.huobi_service
    }

    /// The sources whose keys a request reads, in reading order.
    pub fn sources(&self) -> (all: Vec<SourceId>)
        ensures
            all@ == configured_sources(),
    {
        sources()
    }

    /// Starts the collector: its first step is the cycle that fills the
    /// cache before the first request arrives.
    pub fn start_collecting_prices(&self) -> (step: CollectorStep)
        ensures
            step == first_step(),
    {
        start_schedule()
    }

    /// The collector's step after `done`: after a cycle, a pause of
    /// `price_collection_interval` milliseconds; after a pause, the next
    /// cycle. It is the same whether a cycle stored prices, stored none or
    /// was abandoned.
    pub fn continue_collecting_prices(&self, done: CollectorStep) -> (step: CollectorStep)
        ensures
            step == step_after(done, self.settings().price_collection_interval),
    {
        next_step(done, self.config.price_collection_interval)
    }

    /// Decides what one collection cycle writes: nothing, with
    /// `CacheUnavailable` and the reason given, where no connection to the
    /// store was had, and else the price of each fetch that succeeded, to
    /// live for `cache_expiration_time` seconds.
    pub fn collect_and_store_prices(&self, event: &CycleEvent) -> (plan: Result<
        Vec<CacheWrite>,
        CollectionError,
    >)
        ensures
            match *event {
                CycleEvent::CacheUnavailable(reason) => plan matches Err(
                    CollectionError::CacheUnavailable(given),
                ) && given@ == reason@,
                CycleEvent::Fetched(outcomes) => plan matches Ok(writes) && writes@
                    == planned_writes(outcomes@, self.settings().cache_expiration_time),
            },
    {
        plan_cycle(event, self.config.cache_expiration_time)
    }

    /// Begins a request for the average price: a poll of at most
    /// `max_cache_check_attempts` reads, `cache_check_interval_ms`
    /// milliseconds apart, that a reading of every configured source ends at
    /// once.
    pub fn get_average_mid_price(&self) -> (step: PollStep)
        ensures
            step == Poll::start(
                self.settings().max_cache_check_attempts,
                self.settings().cache_check_interval_ms,
                configured_sources().len() as usize,
            ),
    {
        Poll::begin(
            self.config.max_cache_check_attempts,
            self.config.cache_check_interval_ms,
            3,
        )
    }
}

/// What a request finds in each of its attempts, where attempt number `i`
/// reads `contents` at `times[i]`.
pub open spec fn readings_at(contents: Contents, times: Seq<int>) -> Seq<Seq<Price>> {
    Seq::new(
        times.len(),
        |i: int| present(read_all_at(contents, configured_sources(), times[i])),
    )
}

/// What a cycle stored is what requests are answered with while it lives.
///
/// After a cycle in which every configured source gave a quote, a request
/// whose first read comes before the time to live has passed finds each
/// quote's price under the key of its source, makes that one read, pauses
/// for nothing and is answered with the mean of the three prices.
pub proof fn law_collected_prices_are_served(
    contents: Contents,
    outcomes: Seq<Result<Quote, FetchError>>,
    ttl_secs: usize,
    written_at_ms: u64,
    read_at_ms: int,
    max_attempts: usize,
    interval_ms: u64,
)
    requires
        one_fetch_per_source(outcomes),
        forall|s: int|
            0 <= s < configured_sources().len() ==> fetched_for(
                outcomes,
                #[trigger] configured_sources()[s],
            ),
        read_at_ms < written_at_ms + 1000 * ttl_secs,
        max_attempts > 0,
    ensures
        forall|i: int|
            0 <= i < outcomes.len() && (#[trigger] outcomes[i]) is Ok ==> read_at(
                after_cycle(contents, outcomes, ttl_secs, written_at_ms),
                outcomes[i]->Ok_0.source_id,
                read_at_ms,
            ) == Some(outcomes[i]->Ok_0.price),
        run(
            Poll::start(max_attempts, interval_ms, 3),
            readings_at(
                after_cycle(contents, outcomes, ttl_secs, written_at_ms),
                seq![read_at_ms],
            ),
        ) == Some(
            PollOutcome {
                result: aggregate(
                    present(
                        read_all_at(
                            after_cycle(contents, outcomes, ttl_secs, written_at_ms),
                            configured_sources(),
                            read_at_ms,
                        ),
                    ),
                ),
                reads: 1,
                waited_ms: 0,
            },
        ),
        aggregate(
            present(
                read_all_at(
                    after_cycle(contents, outcomes, ttl_secs, written_at_ms),
                    configured_sources(),
                    read_at_ms,
                ),
            ),
        ) is Ok,
{
    let stored = after_cycle(contents, outcomes, ttl_secs, written_at_ms);
    let reading = read_all_at(stored, configured_sources(), read_at_ms);
    let script = readings_at(stored, seq![read_at_ms]);
    law_partial_tolerance(contents, outcomes, ttl_secs, written_at_ms);
    assert forall|j: int| 0 <= j < reading.len() implies (#[trigger] reading[j]) is Some by {
        let source = configured_sources()[j];
        assert(fetched_for(outcomes, source));
        let i = choose|i: int| 0 <= i < outcomes.len() && is_quote_of(#[trigger] outcomes[i], source);
        assert(outcomes[i] is Ok);
    }
    lemma_present_count(reading);
    assert(script[0] == present(reading));
    law_quorum_ends_poll(max_attempts, interval_ms, 3, script, 0);
    assert(0 * interval_ms == 0);
}

/// A source that always fails is isolated.
///
/// Where the key of one source is absent and that source gives no quote,
/// a cycle still stores what the other sources gave, and a request that
/// reads before the time to live has passed is still answered: it uses its
/// whole budget, for want of a full quorum, and succeeds with the mean of the
/// prices of the other sources.
pub proof fn law_failing_source_is_isolated(
    contents: Contents,
    outcomes: Seq<Result<Quote, FetchError>>,
    failing: int,
    ttl_secs: usize,
    written_at_ms: u64,
    times: Seq<int>,
    max_attempts: usize,
    interval_ms: u64,
)
    requires
        one_fetch_per_source(outcomes),
        0 <= failing < configured_sources().len(),
        !contents.contains_key(configured_sources()[failing]),
        forall|s: int|
            0 <= s < configured_sources().len() ==> (s != failing <==> fetched_for(
                outcomes,
                #[trigger] configured_sources()[s],
            )),
        max_attempts > 0,
        times.len() == max_attempts,
        forall|i: int| 0 <= i < times.len() ==> #[trigger] times[i] < written_at_ms + 1000 * ttl_secs,
    ensures
        run(
            Poll::start(max_attempts, interval_ms, 3),
            readings_at(after_cycle(contents, outcomes, ttl_secs, written_at_ms), times),
        ) == Some(
            PollOutcome {
                result: aggregate(
                    present(
                        read_all_at(
                            after_cycle(contents, outcomes, ttl_secs, written_at_ms),
                            configured_sources(),
                            times[max_attempts - 1],
                        ),
                    ),
                ),
                reads: max_attempts as nat,
                waited_ms: (max_attempts * interval_ms) as nat,
            },
        ),
        present(
            read_all_at(
                after_cycle(contents, outcomes, ttl_secs, written_at_ms),
                configured_sources(),
                times[max_attempts - 1],
            ),
        ).len() == 2,
        aggregate(
            present(
                read_all_at(
                    after_cycle(contents, outcomes, ttl_secs, written_at_ms),
                    configured_sources(),
                    times[max_attempts - 1],
                ),
            ),
        ) is Ok,
{
    let stored = after_cycle(contents, outcomes, ttl_secs, written_at_ms);
    let script = readings_at(stored, times);
    law_partial_tolerance(contents, outcomes, ttl_secs, written_at_ms);
    assert forall|i: int| 0 <= i < max_attempts implies (#[trigger] script[i]).len() == 2 by {
        let reading = read_all_at(stored, configured_sources(), times[i]);
        assert(script[i] == present(reading));
        assert forall|j: int| 0 <= j < 3 implies ((#[trigger] reading[j]) is Some <==> j
            != failing) by {
            let source = configured_sources()[j];
            if j != failing {
                assert(fetched_for(outcomes, source));
                let k = choose|k: int|
                    0 <= k < outcomes.len() && is_quote_of(#[trigger] outcomes[k], source);
                assert(outcomes[k] is Ok);
            } else {
                assert(!fetched_for(outcomes, source));
            }
        }
        reveal_with_fuel(present, 4);
        assert(reading.drop_last().drop_last().drop_last() =~= Seq::<Option<Price>>::empty());
    }
    law_budget_ends_poll(max_attempts, interval_ms, 3, script);
}

} // verus!
