use global_price_index::aggregator::{AggregationError, CacheRead, PollStep};
use global_price_index::cache::MemoryStore;
use global_price_index::collector::{CollectionError, CollectorStep, CycleEvent};
use global_price_index::config::Config;
use global_price_index::controller::{global_price_index, health_check, ResponseBody};
use global_price_index::exchanges::{FetchError, Quote, SourceId};
use global_price_index::price::Price;
use global_price_index::service::AppService;

fn price(value: f64) -> Price {
    Price::from_units((value * 1e8).round() as i64).unwrap()
}

fn config() -> Config {
    Config {
        server_host: "127.0.0.1".to_string(),
        server_port: 8080,
        redis_url: "redis://127.0.0.1/".to_string(),
        binance_api_url: "http://localhost:1".to_string(),
        kraken_api_url: "ws://localhost:2".to_string(),
        huobi_api_url: "ws://localhost:3".to_string(),
        price_collection_interval: 5_000,
        cache_expiration_time: 60,
        cache_check_interval_ms: 100,
        max_cache_check_attempts: 5,
    }
}

/// A process in small: a store, a clock and the service.
struct World {
    service: AppService,
    store: MemoryStore,
    now_ms: u64,
    store_is_up: bool,
}

impl World {
    fn new() -> World {
        World {
            service: AppService::new(config()),
            store: MemoryStore::new(),
            now_ms: 0,
            store_is_up: true,
        }
    }

    /// Runs one collection cycle in which the sources give `fetched`.
    fn cycle(&mut self, fetched: [Option<f64>; 3]) -> Result<usize, CollectionError> {
        let event = if self.store_is_up {
            let sources = self.service.sources();
            CycleEvent::Fetched(
                fetched
                    .iter()
                    .enumerate()
                    .map(|(i, value)| match value {
                        Some(v) => Ok(Quote {
                            source_id: sources[i],
                            price: price(*v),
                            observed_at: self.now_ms,
                        }),
                        None => Err(FetchError::Connection),
                    })
                    .collect(),
            )
        } else {
            CycleEvent::CacheUnavailable("connection refused".to_string())
        };
        let writes = self.service.collect_and_store_prices(&event)?;
        self.store.apply(&writes, self.now_ms);
        Ok(writes.len())
    }

    /// Serves one request. Gives the answer and the number of reads.
    fn request(&mut self) -> (Result<Price, AggregationError>, usize) {
        let mut reads = 0;
        let mut step = self.service.get_average_mid_price();
        loop {
            match step {
                PollStep::Done { after_ms, result } => {
                    self.now_ms += after_ms;
                    return (result, reads);
                }
                PollStep::Read { after_ms, poll } => {
                    self.now_ms += after_ms;
                    reads += 1;
                    let read = if self.store_is_up {
                        CacheRead::Values(self.store.read_all(&self.service.sources(), self.now_ms))
                    } else {
                        CacheRead::Unavailable
                    };
                    step = poll.observe(&read);
                }
            }
        }
    }
}

#[test]
fn the_service_keeps_its_configuration() {
    let service = AppService::new(config());
    assert_eq!(service.config().max_cache_check_attempts, 5);
    assert_eq!(service.config().server_port, 8080);
    assert_eq!(service.binance().api_url(), "http://localhost:1");
    assert_eq!(service.kraken().api_url(), "ws://localhost:2");
    assert_eq!(service.huobi().api_url(), "ws://localhost:3");
    assert_eq!(
        service.sources(),
        vec![SourceId::Binance, SourceId::Kraken, SourceId::Huobi]
    );
}

#[test]
fn the_collector_runs_at_startup_and_then_every_interval() {
    let service = AppService::new(config());
    let first = service.start_collecting_prices();
    assert_eq!(first, CollectorStep::RunCycle { at_startup: true });
    let second = service.continue_collecting_prices(first);
    assert_eq!(second, CollectorStep::Sleep { millis: 5_000 });
    let third = service.continue_collecting_prices(second);
    assert_eq!(third, CollectorStep::RunCycle { at_startup: false });
    let fourth = service.continue_collecting_prices(third);
    assert_eq!(fourth, CollectorStep::Sleep { millis: 5_000 });
    assert_eq!(
        service.continue_collecting_prices(fourth),
        CollectorStep::RunCycle { at_startup: false }
    );
}

#[test]
fn a_full_cache_is_served_at_once() {
    let mut world = World::new();
    assert_eq!(world.cycle([Some(100.0), Some(102.0), Some(98.0)]), Ok(3));
    assert_eq!(world.request(), (Ok(price(100.0)), 1));
    assert_eq!(world.now_ms, 0);
}

#[test]
fn a_single_source_is_served_after_the_budget() {
    let mut world = World::new();
    assert_eq!(world.cycle([Some(100.0), None, None]), Ok(1));
    assert_eq!(world.request(), (Ok(price(100.0)), 5));
    assert_eq!(world.now_ms, 500);
}

#[test]
fn an_empty_cache_fails_closed() {
    let mut world = World::new();
    assert_eq!(world.request(), (Err(AggregationError::NoPricesAvailable), 5));
    assert_eq!(world.now_ms, 500);
    assert_eq!(world.cycle([None, None, None]), Ok(0));
    assert_eq!(world.request(), (Err(AggregationError::NoPricesAvailable), 5));
    assert_eq!(world.now_ms, 1_000);
}

#[test]
fn expired_prices_are_not_served() {
    let mut world = World::new();
    assert_eq!(world.cycle([Some(100.0), Some(102.0), Some(98.0)]), Ok(3));
    world.now_ms = 59_999;
    assert_eq!(world.request(), (Ok(price(100.0)), 1));
    world.now_ms = 60_000;
    assert_eq!(world.request(), (Err(AggregationError::NoPricesAvailable), 5));
}

#[test]
fn a_failing_source_expires_while_the_others_are_renewed() {
    let mut world = World::new();
    assert_eq!(world.cycle([Some(100.0), Some(102.0), Some(98.0)]), Ok(3));
    world.now_ms = 30_000;
    assert_eq!(world.cycle([Some(104.0), None, Some(100.0)]), Ok(2));
    assert_eq!(world.request(), (Ok(price(102.0)), 1));
    world.now_ms = 60_000;
    assert_eq!(world.request(), (Ok(price(102.0)), 5));
}

#[test]
fn a_request_rides_out_a_cycle_in_progress() {
    let mut world = World::new();
    assert_eq!(world.cycle([Some(100.0), None, None]), Ok(1));
    let mut step = world.service.get_average_mid_price();
    let mut reads = 0;
    let result = loop {
        match step {
            PollStep::Done { result, .. } => break result,
            PollStep::Read { poll, .. } => {
                reads += 1;
                if reads == 3 {
                    world.cycle([Some(100.0), Some(102.0), Some(98.0)]).unwrap();
                }
                let read = CacheRead::Values(world.store.read_all(&world.service.sources(), 0));
                step = poll.observe(&read);
            }
        }
    };
    assert_eq!(result, Ok(price(100.0)));
    assert_eq!(reads, 3);
}

#[test]
fn a_store_outage_degrades_and_does_not_break_the_service() {
    let mut world = World::new();
    assert_eq!(world.cycle([Some(100.0), Some(102.0), Some(98.0)]), Ok(3));
    world.store_is_up = false;
    assert_eq!(
        world.cycle([Some(1.0), Some(1.0), Some(1.0)]),
        Err(CollectionError::CacheUnavailable("connection refused".to_string()))
    );
    assert_eq!(world.request(), (Err(AggregationError::NoPricesAvailable), 5));
    world.store_is_up = true;
    assert_eq!(world.request(), (Ok(price(100.0)), 1));
}

#[test]
fn test_health_check() {
    let response = health_check();
    assert!((200..300).contains(&response.status));
    assert_eq!(response.body, ResponseBody::Text("OK".to_string()));
}

#[test]
fn test_global_price_index() {
    let mut world = World::new();
    world.cycle([Some(100.0), Some(102.0), Some(98.0)]).unwrap();
    let (result, _) = world.request();
    let response = global_price_index(result);
    assert!((200..300).contains(&response.status));
    let (result, _) = World::new().request();
    assert_eq!(global_price_index(result).status, 500);
}
