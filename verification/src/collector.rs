//! The write path: what one collection cycle stores, and when cycles run.
//!
//! A cycle fetches a quote from every source and stores the price of each
//! fetch that succeeded, under the key of its source and with the configured
//! time to live. A fetch that failed stores nothing and leaves the key of its
//! source as it is. One cycle runs when the process starts; after it a pause
//! of a fixed length and a cycle alternate, on a schedule that no outcome of
//! a cycle changes.

use vstd::prelude::*;
use crate::cache::{CacheWrite, CachedPrice, Contents, after_writes};
use crate::exchanges::{FetchError, Quote, SourceId};

verus! {

/// Why a collection cycle was abandoned.
#[derive(Clone, Debug, PartialEq, Eq)]
pub enum CollectionError {
    /// No connection to the store could be had, for the reason given.
    /// Nothing was fetched and nothing was written.
    CacheUnavailable(String),
}

impl CollectionError {
    /// The diagnostic text of the error.
    pub fn message(&self) -> (text: String)
        ensures
            text@ == "Failed to get cache connection"@,
    {
        "Failed to get cache connection".to_string()
    }
}

/// What happened in one collection cycle before anything is written.
#[derive(Debug)]
pub enum CycleEvent {
    /// No connection to the store could be had, for the reason given.
    CacheUnavailable(String),
    /// A connection was had and every source was asked once: the outcomes of
    /// the fetches, one for each source.
    Fetched(Vec<Result<Quote, FetchError>>),
}

/// The write that stores the price of `quote`.
pub open spec fn write_for(quote: Quote, ttl_secs: usize) -> CacheWrite {
    CacheWrite { source: quote.source_id, price: quote.price, ttl_secs }
}

/// The writes of a cycle whose fetches ended in `outcomes`: one for each
/// fetch that succeeded, in the order of the fetches.
pub open spec fn planned_writes(outcomes: Seq<Result<Quote, FetchError>>, ttl_secs: usize) -> Seq<
    CacheWrite,
>
    decreases outcomes.len(),
{
    if outcomes.len() == 0 {
        Seq::empty()
    } else {
        match outcomes.last() {
            Ok(quote) => planned_writes(outcomes.drop_last(), ttl_secs).push(
                write_for(quote, ttl_secs),
            ),
            Err(_) => planned_writes(outcomes.drop_last(), ttl_secs),
        }
    }
}

/// The number of fetches that succeeded.
pub open spec fn succeeded(outcomes: Seq<Result<Quote, FetchError>>) -> nat
    decreases outcomes.len(),
{
    if outcomes.len() == 0 {
        0
    } else if outcomes.last() is Ok {
        succeeded(outcomes.drop_last()) + 1
    } else {
        succeeded(outcomes.drop_last())
    }
}

/// Whether `outcome` is a quote of `source`.
pub open spec fn is_quote_of(outcome: Result<Quote, FetchError>, source: SourceId) -> bool {
    match outcome {
        Ok(quote) => quote.source_id == source,
        Err(_) => false,
    }
}

/// Whether some fetch of `outcomes` succeeded for `source`.
pub open spec fn fetched_for(outcomes: Seq<Result<Quote, FetchError>>, source: SourceId) -> bool {
    exists|i: int| 0 <= i < outcomes.len() && is_quote_of(#[trigger] outcomes[i], source)
}

/// Whether no two fetches of `outcomes` succeeded for one source.
pub open spec fn one_fetch_per_source(outcomes: Seq<Result<Quote, FetchError>>) -> bool {
    forall|i: int, j: int|
        0 <= i < j < outcomes.len() && (#[trigger] outcomes[i]) is Ok && (#[trigger] outcomes[j])
            is Ok ==> outcomes[i]->Ok_0.source_id != outcomes[j]->Ok_0.source_id
}

/// The sources that `writes` write to.
pub open spec fn written_sources(writes: Seq<CacheWrite>) -> Set<SourceId> {
    Set::new(|source: SourceId| exists|i: int| 0 <= i < writes.len() && (#[trigger] writes[i]).source == source)
}

/// Decides what one collection cycle writes.
///
/// A cycle that got no connection to the store is abandoned with
/// `CacheUnavailable` and the reason it was given. Any other cycle succeeds,
/// whatever its fetches gave, and writes the price of each fetch that
/// succeeded.
pub fn plan_cycle(event: &CycleEvent, ttl_secs: usize) -> (plan: Result<
    Vec<CacheWrite>,
    CollectionError,
>)
    ensures
        match *event {
            CycleEvent::CacheUnavailable(reason) => plan matches Err(
                CollectionError::CacheUnavailable(given),
            ) && given@ == reason@,
            CycleEvent::Fetched(outcomes) => plan matches Ok(writes) && writes@ == planned_writes(
                outcomes@,
                ttl_secs,
            ),
        },
{
    match event {
        CycleEvent::CacheUnavailable(reason) => Err(
            CollectionError::CacheUnavailable(reason.clone()),
        ),
        CycleEvent::Fetched(outcomes) => {
            let mut writes: Vec<CacheWrite> = Vec::new();
            let mut i: usize = 0;
            while i < outcomes.len()
                invariant
                    i <= outcomes.len(),
                    writes@ == planned_writes(outcomes@.take(i as int), ttl_secs),
                decreases outcomes.len() - i,
            {
                proof {
                    let next = outcomes@.take(i + 1);
                    assert(next.drop_last() =~= outcomes@.take(i as int));
                    assert(next.last() == outcomes@[i as int]);
                }
                match &outcomes[i] {
                    Ok(quote) => {
                        writes.push(
                            CacheWrite { source: quote.source_id, price: quote.price, ttl_secs },
                        );
                    },
                    Err(_) => {},
                }
                i = i + 1;
            }
            proof {
                assert(outcomes@.take(outcomes.len() as int) =~= outcomes@);
            }
            Ok(writes)
        },
    }
}

/// A step of the collector's schedule.
#[derive(Clone, Copy, Debug, PartialEq, Eq, Structural)]
pub enum CollectorStep {
    /// Run one collection cycle. `at_startup` tells the cycle that fills
    /// the cache when the process starts from the periodic ones.
    RunCycle { at_startup: bool },
    /// Pause for `millis` milliseconds.
    Sleep { millis: u64 },
}

/// The step the collector starts with: the startup cycle.
pub open spec fn first_step() -> CollectorStep {
    CollectorStep::RunCycle { at_startup: true }
}

/// The step that follows `done`. Every cycle, the startup cycle too, is
/// followed by a pause of `interval_ms` milliseconds; a pause by the next
/// periodic cycle.
pub open spec fn step_after(done: CollectorStep, interval_ms: u64) -> CollectorStep {
    match done {
        CollectorStep::RunCycle { .. } => CollectorStep::Sleep { millis: interval_ms },
        CollectorStep::Sleep { .. } => CollectorStep::RunCycle { at_startup: false },
    }
}

/// Step number `k` of the schedule, counted from zero.
pub open spec fn schedule(k: nat, interval_ms: u64) -> CollectorStep
    decreases k,
{
    if k == 0 {
        first_step()
    } else {
        step_after(schedule((k - 1) as nat, interval_ms), interval_ms)
    }
}

/// The step the collector starts with.
pub fn start_schedule() -> (step: CollectorStep)
    ensures
        step == first_step(),
{
    CollectorStep::RunCycle { at_startup: true }
}

/// The step that follows `done`, whichever way `done` ended.
pub fn next_step(done: CollectorStep, interval_ms: u64) -> (step: CollectorStep)
    ensures
        step == step_after(done, interval_ms),
{
    match done {
        CollectorStep::RunCycle { .. } => CollectorStep::Sleep { millis: interval_ms },
        CollectorStep::Sleep { .. } => CollectorStep::RunCycle { at_startup: false },
    }
}

/// The schedule never ends and is periodic: it starts with one cycle, the
/// startup cycle, and from then on a pause of `interval_ms` milliseconds and
/// a cycle alternate for ever. Between two cycles there is always exactly
/// one pause.
pub proof fn law_schedule_is_periodic(k: nat, interval_ms: u64)
    ensures
        schedule(0, interval_ms) == (CollectorStep::RunCycle { at_startup: true }),
        schedule(2 * k + 1, interval_ms) == (CollectorStep::Sleep { millis: interval_ms }),
        schedule(2 * k + 2, interval_ms) == (CollectorStep::RunCycle { at_startup: false }),
    decreases k,
{
    reveal_with_fuel(schedule, 3);
    if k > 0 {
        law_schedule_is_periodic((k - 1) as nat, interval_ms);
    }
}

/// The writes of a cycle are as many as its fetches that succeeded.
pub proof fn lemma_one_write_per_success(outcomes: Seq<Result<Quote, FetchError>>, ttl_secs: usize)
    ensures
        planned_writes(outcomes, ttl_secs).len() == succeeded(outcomes),
    decreases outcomes.len(),
{
    if outcomes.len() > 0 {
        lemma_one_write_per_success(outcomes.drop_last(), ttl_secs);
    }
}

/// A source is written to just when a fetch succeeded for it.
pub proof fn lemma_written_iff_fetched(
    outcomes: Seq<Result<Quote, FetchError>>,
    ttl_secs: usize,
    source: SourceId,
)
    ensures
        written_sources(planned_writes(outcomes, ttl_secs)).contains(source) <==> fetched_for(
            outcomes,
            source,
        ),
    decreases outcomes.len(),
{
    let writes = planned_writes(outcomes, ttl_secs);
    if outcomes.len() > 0 {
        let front = outcomes.drop_last();
        let front_writes = planned_writes(front, ttl_secs);
        lemma_written_iff_fetched(front, ttl_secs, source);
        if written_sources(writes).contains(source) {
            let i = choose|i: int| 0 <= i < writes.len() && (#[trigger] writes[i]).source == source;
            if i < front_writes.len() {
                assert(front_writes[i].source == source);
                assert(fetched_for(front, source));
                let j = choose|j: int| 0 <= j < front.len() && is_quote_of(#[trigger] front[j], source);
                assert(outcomes[j] == front[j]);
            } else {
                assert(outcomes[outcomes.len() - 1] is Ok);
            }
        }
        if fetched_for(outcomes, source) {
            let j = choose|j: int|
                0 <= j < outcomes.len() && is_quote_of(#[trigger] outcomes[j], source);
            if j < front.len() {
                assert(front[j] == outcomes[j]);
                assert(fetched_for(front, source));
                let i = choose|i: int|
                    0 <= i < front_writes.len() && (#[trigger] front_writes[i]).source == source;
                assert(writes[i] == front_writes[i]);
            } else {
                assert(writes[writes.len() - 1].source == source);
            }
        }
    }
}

/// The sources written to grow by one source with each write.
proof fn lemma_written_sources_push(writes: Seq<CacheWrite>, write: CacheWrite)
    ensures
        written_sources(writes.push(write)) == written_sources(writes).insert(write.source),
{
    let more = writes.push(write);
    assert forall|source: SourceId|
        written_sources(more).contains(source) <==> written_sources(writes).insert(
            write.source,
        ).contains(source) by {
        if written_sources(more).contains(source) {
            let i = choose|i: int| 0 <= i < more.len() && (#[trigger] more[i]).source == source;
            if i < writes.len() {
                assert(writes[i].source == source);
            }
        }
        if written_sources(writes).contains(source) {
            let i = choose|i: int| 0 <= i < writes.len() && (#[trigger] writes[i]).source == source;
            assert(more[i].source == source);
        }
        if source == write.source {
            assert(more[writes.len() as int].source == source);
        }
    }
    assert(written_sources(more) =~= written_sources(writes).insert(write.source));
}

/// Where every source was fetched once, a cycle writes to as many keys as
/// fetches succeeded.
proof fn lemma_one_key_per_success(outcomes: Seq<Result<Quote, FetchError>>, ttl_secs: usize)
    requires
        one_fetch_per_source(outcomes),
    ensures
        written_sources(planned_writes(outcomes, ttl_secs)).finite(),
        written_sources(planned_writes(outcomes, ttl_secs)).len() == succeeded(outcomes),
    decreases outcomes.len(),
{
    if outcomes.len() == 0 {
        assert(written_sources(planned_writes(outcomes, ttl_secs)) =~= Set::<SourceId>::empty());
    } else {
        let front = outcomes.drop_last();
        let front_writes = planned_writes(front, ttl_secs);
        assert forall|i: int, j: int|
            0 <= i < j < front.len() && (#[trigger] front[i]) is Ok && (#[trigger] front[j])
                is Ok implies front[i]->Ok_0.source_id != front[j]->Ok_0.source_id by {
            assert(front[i] == outcomes[i]);
            assert(front[j] == outcomes[j]);
        }
        lemma_one_key_per_success(front, ttl_secs);
        match outcomes.last() {
            Ok(quote) => {
                lemma_written_sources_push(front_writes, write_for(quote, ttl_secs));
                lemma_written_iff_fetched(front, ttl_secs, quote.source_id);
                if fetched_for(front, quote.source_id) {
                    let j = choose|j: int|
                        0 <= j < front.len() && is_quote_of(#[trigger] front[j], quote.source_id);
                    assert(outcomes[j] == front[j]);
                    assert(outcomes[outcomes.len() - 1] is Ok);
                    assert(false);
                }
            },
            Err(_) => {},
        }
    }
}

/// Writes leave alone every key that none of them names.
proof fn lemma_unnamed_key_unchanged(
    contents: Contents,
    writes: Seq<CacheWrite>,
    now_ms: u64,
    source: SourceId,
)
    requires
        !written_sources(writes).contains(source),
    ensures
        after_writes(contents, writes, now_ms).contains_key(source) == contents.contains_key(
            source,
        ),
        after_writes(contents, writes, now_ms)[source] == contents[source],
    decreases writes.len(),
{
    if writes.len() > 0 {
        let front = writes.drop_last();
        assert(writes[writes.len() - 1].source != source);
        assert forall|i: int| 0 <= i < front.len() implies (#[trigger] front[i]).source
            != source by {
            assert(writes[i].source != source);
        }
        lemma_unnamed_key_unchanged(contents, front, now_ms, source);
    }
}

/// Where no later write names the same key, a write is what the store
/// holds under its key in the end.
proof fn lemma_last_write_wins(contents: Contents, writes: Seq<CacheWrite>, now_ms: u64, i: int)
    requires
        0 <= i < writes.len(),
        forall|j: int| i < j < writes.len() ==> (#[trigger] writes[j]).source != writes[i].source,
    ensures
        after_writes(contents, writes, now_ms).contains_key(writes[i].source),
        after_writes(contents, writes, now_ms)[writes[i].source] == (CachedPrice {
            price: writes[i].price,
            written_at_ms: now_ms,
            ttl_secs: writes[i].ttl_secs,
        }),
    decreases writes.len(),
{
    let front = writes.drop_last();
    if i < writes.len() - 1 {
        assert(writes[writes.len() - 1].source != writes[i].source);
        assert(front[i] == writes[i]);
        assert forall|j: int| i < j < front.len() implies (#[trigger] front[j]).source
            != front[i].source by {
            assert(writes[j].source != writes[i].source);
        }
        lemma_last_write_wins(contents, front, now_ms, i);
    }
}

/// Whether a fetch of `outcomes` later than number `i` succeeded for
/// `source`.
spec fn fetched_later(outcomes: Seq<Result<Quote, FetchError>>, i: int, source: SourceId) -> bool {
    exists|j: int| i < j < outcomes.len() && is_quote_of(#[trigger] outcomes[j], source)
}

/// The write planned for a fetch that succeeded stands among the planned
/// writes, and after it stand only writes planned for later fetches.
proof fn lemma_write_of_success(outcomes: Seq<Result<Quote, FetchError>>, ttl_secs: usize, i: int)
    requires
        0 <= i < outcomes.len(),
        outcomes[i] is Ok,
    ensures
        succeeded(outcomes.take(i)) < planned_writes(outcomes, ttl_secs).len(),
        planned_writes(outcomes, ttl_secs)[succeeded(outcomes.take(i)) as int] == write_for(
            outcomes[i]->Ok_0,
            ttl_secs,
        ),
        forall|w: int|
            succeeded(outcomes.take(i)) < w < planned_writes(outcomes, ttl_secs).len()
                ==> fetched_later(outcomes, i, (#[trigger] planned_writes(outcomes, ttl_secs)[w]).source),
    decreases outcomes.len(),
{
    let writes = planned_writes(outcomes, ttl_secs);
    let front = outcomes.drop_last();
    let front_writes = planned_writes(front, ttl_secs);
    let at = succeeded(outcomes.take(i)) as int;
    if i == outcomes.len() - 1 {
        assert(outcomes.take(i) =~= front);
        lemma_one_write_per_success(front, ttl_secs);
    } else {
        assert(front[i] == outcomes[i]);
        assert(front.take(i) =~= outcomes.take(i));
        lemma_write_of_success(front, ttl_secs, i);
        assert forall|w: int| at < w < writes.len() implies fetched_later(
            outcomes,
            i,
            (#[trigger] writes[w]).source,
        ) by {
            if w < front_writes.len() {
                assert(writes[w] == front_writes[w]);
                assert(fetched_later(front, i, front_writes[w].source));
                let j = choose|j: int|
                    i < j < front.len() && is_quote_of(#[trigger] front[j], front_writes[w].source);
                assert(outcomes[j] == front[j]);
            } else {
                assert(is_quote_of(outcomes[outcomes.len() - 1], writes[w].source));
            }
        }
    }
}

/// What the store holds after a cycle whose fetches ended in `outcomes`
/// wrote at `now_ms`.
pub open spec fn after_cycle(
    contents: Contents,
    outcomes: Seq<Result<Quote, FetchError>>,
    ttl_secs: usize,
    now_ms: u64,
) -> Contents {
    after_writes(contents, planned_writes(outcomes, ttl_secs), now_ms)
}

/// Partial tolerance: of a cycle in which every source was fetched once
/// and `K` fetches succeeded, exactly `K` writes are planned, to `K`
/// different keys. Carried out, they leave under the key of each source
/// whose fetch succeeded the fetched price with the configured time to
/// live, and leave every other key as it was: not overwritten, not cleared.
pub proof fn law_partial_tolerance(
    contents: Contents,
    outcomes: Seq<Result<Quote, FetchError>>,
    ttl_secs: usize,
    now_ms: u64,
)
    requires
        one_fetch_per_source(outcomes),
    ensures
        planned_writes(outcomes, ttl_secs).len() == succeeded(outcomes),
        written_sources(planned_writes(outcomes, ttl_secs)).finite(),
        written_sources(planned_writes(outcomes, ttl_secs)).len() == succeeded(outcomes),
        forall|i: int|
            0 <= i < outcomes.len() && (#[trigger] outcomes[i]) is Ok ==> after_cycle(
                contents,
                outcomes,
                ttl_secs,
                now_ms,
            ).contains_key(outcomes[i]->Ok_0.source_id) && after_cycle(
                contents,
                outcomes,
                ttl_secs,
                now_ms,
            )[outcomes[i]->Ok_0.source_id] == (CachedPrice {
                price: outcomes[i]->Ok_0.price,
                written_at_ms: now_ms,
                ttl_secs,
            }),
        forall|source: SourceId|
            !(#[trigger] fetched_for(outcomes, source)) ==> after_cycle(
                contents,
                outcomes,
                ttl_secs,
                now_ms,
            ).contains_key(source) == contents.contains_key(source) && after_cycle(
                contents,
                outcomes,
                ttl_secs,
                now_ms,
            )[source] == contents[source],
{
    let writes = planned_writes(outcomes, ttl_secs);
    let after = after_cycle(contents, outcomes, ttl_secs, now_ms);
    lemma_one_write_per_success(outcomes, ttl_secs);
    lemma_one_key_per_success(outcomes, ttl_secs);
    assert forall|i: int| 0 <= i < outcomes.len() && (#[trigger] outcomes[i]) is Ok implies after.contains_key(
        outcomes[i]->Ok_0.source_id,
    ) && after[outcomes[i]->Ok_0.source_id] == (CachedPrice {
        price: outcomes[i]->Ok_0.price,
        written_at_ms: now_ms,
        ttl_secs,
    }) by {
        let at = succeeded(outcomes.take(i)) as int;
        lemma_write_of_success(outcomes, ttl_secs, i);
        assert forall|w: int| at < w < writes.len() implies (#[trigger] writes[w]).source
            != writes[at].source by {
            assert(fetched_later(outcomes, i, writes[w].source));
            let j = choose|j: int|
                i < j < outcomes.len() && is_quote_of(#[trigger] outcomes[j], writes[w].source);
            assert(outcomes[j] is Ok);
        }
        lemma_last_write_wins(contents, writes, now_ms, at);
    }
    assert forall|source: SourceId| !(#[trigger] fetched_for(outcomes, source)) implies after.contains_key(
        source,
    ) == contents.contains_key(source) && after[source] == contents[source] by {
        lemma_written_iff_fetched(outcomes, ttl_secs, source);
        lemma_unnamed_key_unchanged(contents, writes, now_ms, source);
    }
}

/// Isolation on the write path: a fetch that failed changes nothing of
/// what the cycle writes. The writes are those of the cycle without that
/// fetch, so every price that another source gave is written.
pub proof fn law_failed_fetch_does_not_block(
    outcomes: Seq<Result<Quote, FetchError>>,
    ttl_secs: usize,
    failed: int,
)
    requires
        0 <= failed < outcomes.len(),
        outcomes[failed] is Err,
    ensures
        planned_writes(outcomes, ttl_secs) == planned_writes(outcomes.remove(failed), ttl_secs),
        forall|i: int|
            0 <= i < outcomes.len() && (#[trigger] outcomes[i]) is Ok ==> planned_writes(
                outcomes,
                ttl_secs,
            ).contains(write_for(outcomes[i]->Ok_0, ttl_secs)),
    decreases outcomes.len(),
{
    let front = outcomes.drop_last();
    if failed == outcomes.len() - 1 {
        assert(outcomes.remove(failed) =~= front);
    } else {
        assert(front[failed] == outcomes[failed]);
        law_failed_fetch_does_not_block(front, ttl_secs, failed);
        let without = outcomes.remove(failed);
        assert(without.drop_last() =~= front.remove(failed));
        assert(without.last() == outcomes.last());
    }
    assert forall|i: int| 0 <= i < outcomes.len() && (#[trigger] outcomes[i]) is Ok implies planned_writes(
        outcomes,
        ttl_secs,
    ).contains(write_for(outcomes[i]->Ok_0, ttl_secs)) by {
        lemma_write_of_success(outcomes, ttl_secs, i);
    }
}

} // verus!
