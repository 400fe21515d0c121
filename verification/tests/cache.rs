use global_price_index::cache::{CacheWrite, CachedPrice, MemoryStore};
use global_price_index::exchanges::{sources, SourceId};
use global_price_index::price::Price;

fn units(value: i64) -> Price {
    Price::from_units(value).unwrap()
}

fn write(source: SourceId, value: i64, ttl_secs: usize) -> CacheWrite {
    CacheWrite { source, price: units(value), ttl_secs }
}

#[test]
fn a_new_store_holds_nothing() {
    let store = MemoryStore::new();
    for source in sources() {
        assert_eq!(store.get(source, 0), None);
    }
    assert_eq!(store.read_all(&sources(), 0), vec![None, None, None]);
}

#[test]
fn a_written_price_is_read_back_until_it_expires() {
    let mut store = MemoryStore::new();
    store.set_ex(write(SourceId::Kraken, 42, 10), 5_000);
    assert_eq!(store.get(SourceId::Kraken, 5_000), Some(units(42)));
    assert_eq!(store.get(SourceId::Kraken, 14_999), Some(units(42)));
    assert_eq!(store.get(SourceId::Kraken, 15_000), None);
    assert_eq!(store.get(SourceId::Kraken, 15_001), None);
    assert_eq!(store.get(SourceId::Kraken, u64::MAX), None);
}

#[test]
fn a_price_that_lives_zero_seconds_is_never_read() {
    let mut store = MemoryStore::new();
    store.set_ex(write(SourceId::Huobi, 42, 0), 5_000);
    assert_eq!(store.get(SourceId::Huobi, 5_000), None);
}

#[test]
fn the_longest_life_does_not_overflow() {
    let mut store = MemoryStore::new();
    store.set_ex(write(SourceId::Binance, 7, usize::MAX), u64::MAX);
    assert_eq!(store.get(SourceId::Binance, u64::MAX), Some(units(7)));
    assert_eq!(store.get(SourceId::Binance, 0), Some(units(7)));
}

#[test]
fn a_write_replaces_the_price_of_its_source_only() {
    let mut store = MemoryStore::new();
    store.set_ex(write(SourceId::Binance, 1, 10), 0);
    store.set_ex(write(SourceId::Kraken, 2, 10), 0);
    store.set_ex(write(SourceId::Binance, 3, 10), 1_000);
    assert_eq!(store.get(SourceId::Binance, 1_000), Some(units(3)));
    assert_eq!(store.get(SourceId::Kraken, 1_000), Some(units(2)));
    assert_eq!(store.get(SourceId::Huobi, 1_000), None);
    assert_eq!(store.get(SourceId::Kraken, 10_000), None);
    assert_eq!(store.get(SourceId::Binance, 10_000), Some(units(3)));
}

#[test]
fn apply_carries_out_writes_in_turn() {
    let mut store = MemoryStore::new();
    store.apply(
        &vec![
            write(SourceId::Huobi, 1, 10),
            write(SourceId::Binance, 2, 20),
            write(SourceId::Huobi, 3, 30),
        ],
        100,
    );
    assert_eq!(
        store.read_all(&sources(), 100),
        vec![Some(units(2)), None, Some(units(3))]
    );
    assert_eq!(
        store.read_all(&sources(), 20_100),
        vec![None, None, Some(units(3))]
    );
    let before = store;
    store.apply(&Vec::new(), 500);
    assert_eq!(store, before);
}

#[test]
fn read_all_follows_the_order_of_the_sources() {
    let mut store = MemoryStore::new();
    store.set_ex(write(SourceId::Kraken, 2, 10), 0);
    assert_eq!(
        store.read_all(&vec![SourceId::Kraken, SourceId::Binance, SourceId::Kraken], 0),
        vec![Some(units(2)), None, Some(units(2))]
    );
}

#[test]
fn cached_price_readability() {
    let cached = CachedPrice { price: units(1), written_at_ms: 1_000, ttl_secs: 2 };
    assert!(cached.is_readable_at(0));
    assert!(cached.is_readable_at(2_999));
    assert!(!cached.is_readable_at(3_000));
}

#[test]
fn cache_keys() {
    assert_eq!(SourceId::Binance.cache_key(), "binance_price");
    assert_eq!(SourceId::Kraken.cache_key(), "kraken_price");
    assert_eq!(SourceId::Huobi.cache_key(), "huobi_price");
    assert_eq!(sources(), vec![SourceId::Binance, SourceId::Kraken, SourceId::Huobi]);
}
