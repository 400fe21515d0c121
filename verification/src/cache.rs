//! The expiring store, as the collector and the aggregator see it.
//!
//! The store holds at most one price for each source. A price is written
//! with a time to live and is absent to every reader from the moment that
//! time has passed. The store that runs in production is a networked
//! service; `MemoryStore` has the same meaning and lives in this process.

use vstd::prelude::*;
use crate::exchanges::SourceId;
use crate::price::Price;

verus! {

/// A request to store `price` under the key of `source`, to expire after
/// `ttl_secs` seconds.
#[derive(Clone, Copy, Debug, PartialEq, Eq, Structural)]
pub struct CacheWrite {
    pub source: SourceId,
    pub price: Price,
    pub ttl_secs: usize,
}

/// A price as the store holds it.
#[derive(Clone, Copy, Debug, PartialEq, Eq, Structural)]
pub struct CachedPrice {
    pub price: Price,
    /// When the price was written, in milliseconds of the store's clock.
    pub written_at_ms: u64,
    /// The time to live it was written with, in seconds.
    pub ttl_secs: usize,
}

impl CachedPrice {
    /// The first moment at which the price is gone.
    pub open spec fn expires_at_ms(self) -> int {
        self.written_at_ms + self.ttl_secs * 1000
    }

    /// Whether a reader at `now_ms` still sees the price.
    pub open spec fn readable_at(self, now_ms: int) -> bool {
        now_ms < self.expires_at_ms()
    }

    /// Whether a reader at `now_ms` still sees the price.
    pub fn is_readable_at(&self, now_ms: u64) -> (readable: bool)
        ensures
            readable == self.readable_at(now_ms as int),
    {
        let lifetime: u128 = (self.ttl_secs as u128) * 1000;
        (now_ms as u128) < (self.written_at_ms as u128) + lifetime
    }
}

/// What the store holds: for each source at most one price.
pub type Contents = Map<SourceId, CachedPrice>;

/// The contents after `write` was carried out at `now_ms`: the price of its
/// source is replaced, every other key is as before.
pub open spec fn after_write(contents: Contents, write: CacheWrite, now_ms: u64) -> Contents {
    contents.insert(
        write.source,
        CachedPrice { price: write.price, written_at_ms: now_ms, ttl_secs: write.ttl_secs },
    )
}

/// The contents after `writes` were carried out in turn at `now_ms`.
pub open spec fn after_writes(contents: Contents, writes: Seq<CacheWrite>, now_ms: u64) -> Contents
    decreases writes.len(),
{
    if writes.len() == 0 {
        contents
    } else {
        after_write(after_writes(contents, writes.drop_last(), now_ms), writes.last(), now_ms)
    }
}

/// What a reader at `now_ms` finds under the key of `source`.
pub open spec fn read_at(contents: Contents, source: SourceId, now_ms: int) -> Option<Price> {
    if contents.contains_key(source) && contents[source].readable_at(now_ms) {
        Some(contents[source].price)
    } else {
        None
    }
}

/// What a reader at `now_ms` finds under the keys of `sources`, in their
/// order.
pub open spec fn read_all_at(contents: Contents, sources: Seq<SourceId>, now_ms: int) -> Seq<
    Option<Price>,
> {
    Seq::new(sources.len(), |i: int| read_at(contents, sources[i], now_ms))
}

/// Time to live: a price written at `written_at_ms` to live for `ttl_secs`
/// seconds is read back at every moment before `written_at_ms + 1000 *
/// ttl_secs` and is absent at that moment and at every later one.
pub proof fn law_ttl_expiry(contents: Contents, write: CacheWrite, written_at_ms: u64, now_ms: int)
    ensures
        now_ms < written_at_ms + 1000 * write.ttl_secs ==> read_at(
            after_write(contents, write, written_at_ms),
            write.source,
            now_ms,
        ) == Some(write.price),
        now_ms >= written_at_ms + 1000 * write.ttl_secs ==> read_at(
            after_write(contents, write, written_at_ms),
            write.source,
            now_ms,
        ) is None,
{
}

/// A write touches one key: what a reader finds under any other key is
/// what it found before.
pub proof fn law_write_touches_one_key(
    contents: Contents,
    write: CacheWrite,
    written_at_ms: u64,
    other: SourceId,
    now_ms: int,
)
    requires
        other != write.source,
    ensures
        read_at(after_write(contents, write, written_at_ms), other, now_ms) == read_at(
            contents,
            other,
            now_ms,
        ),
{
}

/// An expiring store in memory, with one slot for each source.
#[derive(Clone, Copy, Debug, PartialEq, Eq)]
pub struct MemoryStore {
    binance: Option<CachedPrice>,
    kraken: Option<CachedPrice>,
    huobi: Option<CachedPrice>,
}

impl View for MemoryStore {
    type V = Contents;

    closed spec fn view(&self) -> Contents {
        Map::new(
            |source: SourceId| self.slot(source) is Some,
            |source: SourceId| self.slot(source)->Some_0,
        )
    }
}

impl MemoryStore {
    /// The slot of `source`.
    spec fn slot(self, source: SourceId) -> Option<CachedPrice> {
        match source {
            SourceId::Binance => self.binance,
            SourceId::Kraken => self.kraken,
            SourceId::Huobi => self.huobi,
        }
    }

    /// A store that holds nothing.
    pub fn new() -> (store: MemoryStore)
        ensures
            store@ == Map::<SourceId, CachedPrice>::empty(),
    {
        let store = MemoryStore { binance: None, kraken: None, huobi: None };
        proof {
            assert(store@ =~= Map::<SourceId, CachedPrice>::empty());
        }
        store
    }

    /// Carries out `write` at `now_ms`.
    pub fn set_ex(&mut self, write: CacheWrite, now_ms: u64)
        ensures
            final(self)@ == after_write(old(self)@, write, now_ms),
    {
        let cached = CachedPrice {
            price: write.price,
            written_at_ms: now_ms,
            ttl_secs: write.ttl_secs,
        };
        match write.source {
            SourceId::Binance => {
                self.binance = Some(cached);
            },
            SourceId::Kraken => {
                self.kraken = Some(cached);
            },
            SourceId::Huobi => {
                self.huobi = Some(cached);
            },
        }
        proof {
            assert(self@ =~= after_write(old(self)@, write, now_ms));
        }
    }

    /// Carries out `writes` in turn at `now_ms`.
    pub fn apply(&mut self, writes: &Vec<CacheWrite>, now_ms: u64)
        ensures
            final(self)@ == after_writes(old(self)@, writes@, now_ms),
    {
        let mut i: usize = 0;
        while i < writes.len()
            invariant
                i <= writes.len(),
                self@ == after_writes(old(self)@, writes@.take(i as int), now_ms),
            decreases writes.len() - i,
        {
            proof {
                let next = writes@.take(i + 1);
                assert(next.drop_last() =~= writes@.take(i as int));
                assert(next.last() == writes@[i as int]);
            }
            self.set_ex(writes[i], now_ms);
            i = i + 1;
        }
        proof {
            assert(writes@.take(writes.len() as int) =~= writes@);
        }
    }

    /// What a reader at `now_ms` finds under the key of `source`.
    pub fn get(&self, source: SourceId, now_ms: u64) -> (found: Option<Price>)
        ensures
            found == read_at(self@, source, now_ms as int),
    {
        let slot: Option<CachedPrice> = match source {
            SourceId::Binance => self.binance,
            SourceId::Kraken => self.kraken,
            SourceId::Huobi => self.huobi,
        };
        match slot {
            Some(cached) => if cached.is_readable_at(now_ms) {
                Some(cached.price)
            } else {
                None
            },
            None => None,
        }
    }

    /// What a reader at `now_ms` finds under the keys of `sources`, in their
    /// order.
    pub fn read_all(&self, sources: &Vec<SourceId>, now_ms: u64) -> (found: Vec<Option<Price>>)
        ensures
            found@ == read_all_at(self@, sources@, now_ms as int),
    {
        let mut found: Vec<Option<Price>> = Vec::new();
        let mut i: usize = 0;
        while i < sources.len()
            invariant
                i <= sources.len(),
                found@.len() == i,
                forall|j: int|
                    0 <= j < i ==> found@[j] == read_at(self@, sources@[j], now_ms as int),
            decreases sources.len() - i,
        {
            found.push(self.get(sources[i], now_ms));
            i = i + 1;
        }
        proof {
            assert(found@ =~= read_all_at(self@, sources@, now_ms as int));
        }
        found
    }
}

} // verus!
