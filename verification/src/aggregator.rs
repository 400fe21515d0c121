//! The read path: a bounded poll of the cache and the average it serves.
//!
//! A request reads every configured key. Where all of them are present it
//! is answered at once; otherwise the keys are read again after a fixed
//! pause, up to a configured number of attempts, and the request is answered
//! with the mean of what the last attempt found.

use vstd::prelude::*;
use crate::price::{
    MAX_PRICE_UNITS,
    Price,
    ROUNDING_STEP,
    div_round,
    in_price_range,
    lemma_div_round_bounded,
    lemma_div_round_exact,
    lemma_div_round_is_nearest,
    magnitude,
    round_quotient,
};

verus! {

/// Why a request for the average could not be answered.
#[derive(Clone, Copy, Debug, PartialEq, Eq, Structural)]
pub enum AggregationError {
    /// No source had a readable cached price in the attempt that ended the
    /// poll.
    NoPricesAvailable,
}

impl AggregationError {
    /// The diagnostic text of the error.
    pub fn message(&self) -> (text: String)
        ensures
            text@ == "No prices available in cache"@,
    {
        "No prices available in cache".to_string()
    }
}

/// What one attempt found in the cache.
#[derive(Debug)]
pub enum CacheRead {
    /// The store could not be reached: the attempt counts as one that found
    /// no key.
    Unavailable,
    /// One entry for each key that was read: its price, or `None` where the
    /// key was absent, expired or unreadable.
    Values(Vec<Option<Price>>),
}

/// The prices that are present in `readings`, in their order.
pub open spec fn present(readings: Seq<Option<Price>>) -> Seq<Price>
    decreases readings.len(),
{
    if readings.len() == 0 {
        Seq::empty()
    } else {
        match readings.last() {
            Some(price) => present(readings.drop_last()).push(price),
            None => present(readings.drop_last()),
        }
    }
}

/// The prices that an attempt found.
pub open spec fn found(read: CacheRead) -> Seq<Price> {
    match read {
        CacheRead::Unavailable => Seq::empty(),
        CacheRead::Values(readings) => present(readings@),
    }
}

/// The sum of the amounts of `prices`.
pub open spec fn total(prices: Seq<Price>) -> int
    decreases prices.len(),
{
    if prices.len() == 0 {
        0
    } else {
        total(prices.drop_last()) + prices.last()@
    }
}

/// The arithmetic mean of `prices`, rounded to the nearest multiple of
/// `ROUNDING_STEP`, a tie going away from zero. Meant for a sequence that is
/// not empty.
pub open spec fn rounded_mean(prices: Seq<Price>) -> int {
    div_round(total(prices), prices.len() * ROUNDING_STEP) * ROUNDING_STEP
}

/// The answer that a set of cached prices gives: their rounded mean, or
/// `NoPricesAvailable` where there is none.
pub open spec fn aggregate(prices: Seq<Price>) -> Result<Price, AggregationError> {
    if prices.len() == 0 {
        Err(AggregationError::NoPricesAvailable)
    } else {
        Ok(Price::of_units(rounded_mean(prices)))
    }
}

/// Whether every price of the sequence is in range. Every price that exists
/// at run time is.
pub open spec fn all_in_range(prices: Seq<Price>) -> bool {
    forall|i: int| 0 <= i < prices.len() ==> in_price_range(#[trigger] prices[i]@)
}

/// The sum of `n` prices in range is within `n * MAX_PRICE_UNITS` of zero.
pub proof fn lemma_total_bounded(prices: Seq<Price>)
    requires
        all_in_range(prices),
    ensures
        -(prices.len() * MAX_PRICE_UNITS) <= total(prices) <= prices.len() * MAX_PRICE_UNITS,
    decreases prices.len(),
{
    if prices.len() > 0 {
        lemma_total_bounded(prices.drop_last());
        assert(in_price_range(prices[prices.len() - 1]@));
        assert((prices.len() - 1) * MAX_PRICE_UNITS + MAX_PRICE_UNITS == prices.len()
            * MAX_PRICE_UNITS) by (nonlinear_arith);
    }
}

/// The rounded mean of prices in range is in range, and a multiple of
/// `ROUNDING_STEP`.
pub proof fn lemma_rounded_mean_in_range(prices: Seq<Price>)
    requires
        prices.len() > 0,
        all_in_range(prices),
    ensures
        in_price_range(rounded_mean(prices)),
        rounded_mean(prices) % (ROUNDING_STEP as int) == 0,
{
    let n = prices.len() as int;
    let den = n * ROUNDING_STEP;
    let limit = n * MAX_PRICE_UNITS;
    let bound: int = 100_000_000_000_000;
    lemma_total_bounded(prices);
    assert(den > 0 && limit >= 0 && limit == den * bound) by (nonlinear_arith)
        requires
            n > 0,
            den == n * 10_000,
            limit == n * 1_000_000_000_000_000_000,
            bound == 100_000_000_000_000,
    ;
    vstd::arithmetic::div_mod::lemma_fundamental_div_mod_converse(limit, den, bound, 0);
    lemma_div_round_bounded(total(prices), den, limit);
    let q = div_round(total(prices), den);
    assert(-bound <= q <= bound);
    assert(q * ROUNDING_STEP == ROUNDING_STEP * q) by (nonlinear_arith);
    vstd::arithmetic::div_mod::lemma_fundamental_div_mod_converse(
        q * ROUNDING_STEP,
        ROUNDING_STEP as int,
        q,
        0,
    );
}

/// The average that is served for `prices`.
pub fn average_price(prices: &Vec<Price>) -> (r: Result<Price, AggregationError>)
    ensures
        r == aggregate(prices@),
{
    let n: usize = prices.len();
    if n == 0 {
        return Err(AggregationError::NoPricesAvailable);
    }
    let mut sum: i128 = 0;
    let mut i: usize = 0;
    while i < n
        invariant
            i <= n,
            n == prices.len(),
            sum == total(prices@.take(i as int)),
            all_in_range(prices@.take(i as int)),
            -(i * MAX_PRICE_UNITS) <= sum <= i * MAX_PRICE_UNITS,
        decreases n - i,
    {
        let amount: i64 = prices[i].units();
        proof {
            let next = prices@.take(i + 1);
            assert(next.drop_last() =~= prices@.take(i as int));
            assert(next.last() == prices@[i as int]);
            assert forall|j: int| 0 <= j < next.len() implies in_price_range(
                #[trigger] next[j]@,
            ) by {
                if j < i {
                    assert(next[j] == prices@.take(i as int)[j]);
                }
            }
            lemma_total_bounded(next);
            assert(i * MAX_PRICE_UNITS <= 0xffff_ffff_ffff_ffff * MAX_PRICE_UNITS)
                by (nonlinear_arith)
                requires
                    i <= 0xffff_ffff_ffff_ffff,
            ;
        }
        sum = sum + amount as i128;
        i = i + 1;
    }
    proof {
        assert(prices@.take(n as int) =~= prices@);
        lemma_rounded_mean_in_range(prices@);
        assert(n * MAX_PRICE_UNITS <= 0xffff_ffff_ffff_ffff * MAX_PRICE_UNITS)
            by (nonlinear_arith)
            requires
                n <= 0xffff_ffff_ffff_ffff,
        ;
        assert(n * ROUNDING_STEP <= 0xffff_ffff_ffff_ffff * ROUNDING_STEP) by (nonlinear_arith)
            requires
                n <= 0xffff_ffff_ffff_ffff,
        ;
        assert(n * ROUNDING_STEP > 0) by (nonlinear_arith)
            requires
                n > 0,
        ;
    }
    let den: u128 = (n as u128) * (ROUNDING_STEP as u128);
    let quotient: i128 = round_quotient(sum, den);
    proof {
        let q = quotient as int;
        assert(in_price_range(q * ROUNDING_STEP));
        assert(-100_000_000_000_000 <= q <= 100_000_000_000_000) by (nonlinear_arith)
            requires
                -1_000_000_000_000_000_000 <= q * 10_000 <= 1_000_000_000_000_000_000,
        ;
    }
    let rounded: i128 = quotient * (ROUNDING_STEP as i128);
    Ok(Price::from_units(rounded as i64).unwrap())
}

/// The prices present in one reading, in reading order.
pub fn present_prices(readings: &Vec<Option<Price>>) -> (prices: Vec<Price>)
    ensures
        prices@ == present(readings@),
{
    let mut prices: Vec<Price> = Vec::new();
    let mut i: usize = 0;
    while i < readings.len()
        invariant
            i <= readings.len(),
            prices@ == present(readings@.take(i as int)),
        decreases readings.len() - i,
    {
        proof {
            let next = readings@.take(i + 1);
            assert(next.drop_last() =~= readings@.take(i as int));
            assert(next.last() == readings@[i as int]);
        }
        match readings[i] {
            Some(price) => {
                prices.push(price);
            },
            None => {},
        }
        i = i + 1;
    }
    proof {
        assert(readings@.take(readings.len() as int) =~= readings@);
    }
    prices
}

/// A poll in progress: the attempts that were made and did not end it, and
/// the limits it runs under.
#[derive(Clone, Copy, Debug, PartialEq, Eq, Structural)]
pub struct Poll {
    /// Attempts made so far.
    pub attempts: usize,
    /// The attempt budget of the request.
    pub max_attempts: usize,
    /// The pause between two attempts, in milliseconds.
    pub interval_ms: u64,
    /// The number of configured sources: a reading with that many prices
    /// is a full quorum.
    pub expected: usize,
}

/// What the caller of a poll does next.
#[derive(Clone, Copy, Debug, PartialEq, Eq)]
pub enum PollStep {
    /// Pause for `after_ms` milliseconds, read every configured key and hand
    /// what was found to `poll.observe`.
    Read { after_ms: u64, poll: Poll },
    /// Pause for `after_ms` milliseconds, then answer the request with
    /// `result`.
    Done { after_ms: u64, result: Result<Price, AggregationError> },
}

/// How a poll ended: the answer, the number of attempts that read the
/// cache, and the time spent pausing.
pub struct PollOutcome {
    pub result: Result<Price, AggregationError>,
    pub reads: nat,
    pub waited_ms: nat,
}

impl Poll {
    /// The first step of a request: one read at once, unless the budget is
    /// zero, in which case the request fails without reading.
    pub open spec fn start(max_attempts: usize, interval_ms: u64, expected: usize) -> PollStep {
        if max_attempts == 0 {
            PollStep::Done { after_ms: 0, result: Err(AggregationError::NoPricesAvailable) }
        } else {
            PollStep::Read {
                after_ms: 0,
                poll: Poll { attempts: 0, max_attempts, interval_ms, expected },
            }
        }
    }

    /// The step that follows an attempt which found `prices`.
    ///
    /// A full quorum ends the poll at once. Any other attempt is followed by
    /// a pause; after it the keys are read again if the budget allows, and
    /// else the request is answered with what this attempt found.
    pub open spec fn next(self, prices: Seq<Price>) -> PollStep {
        if prices.len() == self.expected {
            PollStep::Done { after_ms: 0, result: aggregate(prices) }
        } else if self.attempts + 1 < self.max_attempts {
            PollStep::Read {
                after_ms: self.interval_ms,
                poll: Poll {
                    attempts: (self.attempts + 1) as usize,
                    max_attempts: self.max_attempts,
                    interval_ms: self.interval_ms,
                    expected: self.expected,
                },
            }
        } else {
            PollStep::Done { after_ms: self.interval_ms, result: aggregate(prices) }
        }
    }

    /// Begins the poll of one request.
    pub fn begin(max_attempts: usize, interval_ms: u64, expected: usize) -> (step: PollStep)
        ensures
            step == Poll::start(max_attempts, interval_ms, expected),
    {
        if max_attempts == 0 {
            PollStep::Done { after_ms: 0, result: Err(AggregationError::NoPricesAvailable) }
        } else {
            PollStep::Read {
                after_ms: 0,
                poll: Poll { attempts: 0, max_attempts, interval_ms, expected },
            }
        }
    }

    /// Takes in what one attempt found and says what to do next.
    pub fn observe(self, read: &CacheRead) -> (step: PollStep)
        ensures
            step == self.next(found(*read)),
    {
        let prices: Vec<Price> = match read {
            CacheRead::Unavailable => Vec::new(),
            CacheRead::Values(readings) => present_prices(readings),
        };
        if prices.len() == self.expected {
            PollStep::Done { after_ms: 0, result: average_price(&prices) }
        } else if self.attempts < self.max_attempts && self.attempts + 1 < self.max_attempts {
            PollStep::Read {
                after_ms: self.interval_ms,
                poll: Poll {
                    attempts: self.attempts + 1,
                    max_attempts: self.max_attempts,
                    interval_ms: self.interval_ms,
                    expected: self.expected,
                },
            }
        } else {
            PollStep::Done { after_ms: self.interval_ms, result: average_price(&prices) }
        }
    }
}

/// The outcome of carrying out `step` and what follows it, where the
/// attempts find `script[0]`, `script[1]`, ... in turn; `None` where the
/// script ends before the poll does.
pub open spec fn run(step: PollStep, script: Seq<Seq<Price>>) -> Option<PollOutcome>
    decreases script.len(),
{
    match step {
        PollStep::Done { after_ms, result } => Some(
            PollOutcome { result, reads: 0, waited_ms: after_ms as nat },
        ),
        PollStep::Read { after_ms, poll } => if script.len() == 0 {
            None
        } else {
            match run(poll.next(script.first()), script.drop_first()) {
                Some(rest) => Some(
                    PollOutcome {
                        result: rest.result,
                        reads: rest.reads + 1,
                        waited_ms: after_ms as nat + rest.waited_ms,
                    },
                ),
                None => None,
            }
        },
    }
}

/// A poll that has attempts left and meets no full quorum in them uses the
/// whole budget and answers with what its last attempt found.
proof fn lemma_run_without_quorum(poll: Poll, after_ms: u64, script: Seq<Seq<Price>>)
    requires
        poll.attempts < poll.max_attempts,
        script.len() >= poll.max_attempts - poll.attempts,
        forall|i: int|
            0 <= i < poll.max_attempts - poll.attempts ==> (#[trigger] script[i]).len()
                != poll.expected,
    ensures
        run(PollStep::Read { after_ms, poll }, script) == Some(
            PollOutcome {
                result: aggregate(script[poll.max_attempts - poll.attempts - 1]),
                reads: (poll.max_attempts - poll.attempts) as nat,
                waited_ms: (after_ms + (poll.max_attempts - poll.attempts) * poll.interval_ms) as nat,
            },
        ),
    decreases poll.max_attempts - poll.attempts,
{
    let left = poll.max_attempts - poll.attempts;
    reveal_with_fuel(run, 2);
    assert(script.first().len() != poll.expected);
    if poll.attempts + 1 < poll.max_attempts {
        let later = Poll {
            attempts: (poll.attempts + 1) as usize,
            max_attempts: poll.max_attempts,
            interval_ms: poll.interval_ms,
            expected: poll.expected,
        };
        let rest = script.drop_first();
        assert forall|i: int| 0 <= i < left - 1 implies (#[trigger] rest[i]).len()
            != poll.expected by {
            assert(rest[i] == script[i + 1]);
        }
        lemma_run_without_quorum(later, poll.interval_ms, rest);
        assert(rest[left - 2] == script[left - 1]);
        assert(poll.interval_ms + (left - 1) * poll.interval_ms == left * poll.interval_ms)
            by (nonlinear_arith);
    } else {
        assert(left == 1);
        assert(left * poll.interval_ms == poll.interval_ms) by (nonlinear_arith)
            requires
                left == 1,
        ;
    }
}

/// A poll whose attempt number `k` is the first to meet a full quorum ends
/// with that attempt.
proof fn lemma_run_until_quorum(poll: Poll, after_ms: u64, script: Seq<Seq<Price>>, k: int)
    requires
        0 <= k < script.len(),
        poll.attempts + k < poll.max_attempts,
        script[k].len() == poll.expected,
        forall|i: int| 0 <= i < k ==> (#[trigger] script[i]).len() != poll.expected,
    ensures
        run(PollStep::Read { after_ms, poll }, script) == Some(
            PollOutcome {
                result: aggregate(script[k]),
                reads: (k + 1) as nat,
                waited_ms: (after_ms + k * poll.interval_ms) as nat,
            },
        ),
    decreases k,
{
    reveal_with_fuel(run, 2);
    if k == 0 {
        assert(script.first().len() == poll.expected);
        assert(k * poll.interval_ms == 0) by (nonlinear_arith)
            requires
                k == 0,
        ;
    } else {
        assert(script.first().len() != poll.expected);
        let later = Poll {
            attempts: (poll.attempts + 1) as usize,
            max_attempts: poll.max_attempts,
            interval_ms: poll.interval_ms,
            expected: poll.expected,
        };
        let rest = script.drop_first();
        assert forall|i: int| 0 <= i < k - 1 implies (#[trigger] rest[i]).len()
            != poll.expected by {
            assert(rest[i] == script[i + 1]);
        }
        assert(rest[k - 1] == script[k]);
        lemma_run_until_quorum(later, poll.interval_ms, rest, k - 1);
        assert(poll.interval_ms + (k - 1) * poll.interval_ms == k * poll.interval_ms)
            by (nonlinear_arith);
    }
}

/// Early exit on a full quorum: the first attempt that finds a price for
/// every configured source ends the poll. The request is answered with the
/// mean of that attempt's prices, after `k + 1` reads and `k` pauses where
/// the attempt is number `k`, counted from zero. With `k == 0` no pause and
/// no second read occur.
pub proof fn law_quorum_ends_poll(
    max_attempts: usize,
    interval_ms: u64,
    expected: usize,
    script: Seq<Seq<Price>>,
    k: int,
)
    requires
        0 <= k < script.len(),
        k < max_attempts,
        script[k].len() == expected,
        forall|i: int| 0 <= i < k ==> (#[trigger] script[i]).len() != expected,
    ensures
        run(Poll::start(max_attempts, interval_ms, expected), script) == Some(
            PollOutcome {
                result: aggregate(script[k]),
                reads: (k + 1) as nat,
                waited_ms: (k * interval_ms) as nat,
            },
        ),
{
    let poll = Poll { attempts: 0, max_attempts, interval_ms, expected };
    lemma_run_until_quorum(poll, 0, script, k);
}

/// A poll that never meets a full quorum makes exactly `max_attempts`
/// reads, pauses after each of them, and answers with what the last attempt
/// found: the mean of those prices, or `NoPricesAvailable` where it found
/// none.
pub proof fn law_budget_ends_poll(
    max_attempts: usize,
    interval_ms: u64,
    expected: usize,
    script: Seq<Seq<Price>>,
)
    requires
        max_attempts > 0,
        script.len() >= max_attempts,
        forall|i: int| 0 <= i < max_attempts ==> (#[trigger] script[i]).len() != expected,
    ensures
        run(Poll::start(max_attempts, interval_ms, expected), script) == Some(
            PollOutcome {
                result: aggregate(script[max_attempts - 1]),
                reads: max_attempts as nat,
                waited_ms: (max_attempts * interval_ms) as nat,
            },
        ),
{
    let poll = Poll { attempts: 0, max_attempts, interval_ms, expected };
    lemma_run_without_quorum(poll, 0, script);
}

/// Every poll ends within its budget: given what `max_attempts` attempts
/// find, it reads at most that often and pauses for at most
/// `max_attempts * interval_ms` milliseconds in all.
pub proof fn law_poll_is_bounded(
    max_attempts: usize,
    interval_ms: u64,
    expected: usize,
    script: Seq<Seq<Price>>,
)
    requires
        script.len() >= max_attempts,
    ensures
        run(Poll::start(max_attempts, interval_ms, expected), script) matches Some(outcome)
            && outcome.reads <= max_attempts && outcome.waited_ms <= max_attempts * interval_ms,
{
    if max_attempts > 0 {
        if exists|i: int| 0 <= i < max_attempts && (#[trigger] script[i]).len() == expected {
            let k = first_quorum(script, expected, max_attempts as int);
            law_quorum_ends_poll(max_attempts, interval_ms, expected, script, k);
            assert(k * interval_ms <= max_attempts * interval_ms) by (nonlinear_arith)
                requires
                    0 <= k < max_attempts,
                    0 <= interval_ms,
            ;
        } else {
            law_budget_ends_poll(max_attempts, interval_ms, expected, script);
        }
    } else {
        assert(max_attempts * interval_ms == 0) by (nonlinear_arith)
            requires
                max_attempts == 0,
        ;
    }
}

/// The first of the first `limit` attempts of `script` that finds
/// `expected` prices.
proof fn first_quorum(script: Seq<Seq<Price>>, expected: usize, limit: int) -> (k: int)
    requires
        limit <= script.len(),
        exists|i: int| 0 <= i < limit && (#[trigger] script[i]).len() == expected,
    ensures
        0 <= k < limit,
        script[k].len() == expected,
        forall|i: int| 0 <= i < k ==> (#[trigger] script[i]).len() != expected,
    decreases limit,
{
    let witness = choose|i: int| 0 <= i < limit && (#[trigger] script[i]).len() == expected;
    if exists|i: int| 0 <= i < limit - 1 && (#[trigger] script[i]).len() == expected {
        first_quorum(script, expected, limit - 1)
    } else {
        assert(witness == limit - 1);
        limit - 1
    }
}

/// An empty aggregate fails closed: where no attempt finds any price and at
/// least one source is configured, the request fails with
/// `NoPricesAvailable` after exactly `max_attempts` reads, having paused for
/// `max_attempts * interval_ms` milliseconds and no longer.
pub proof fn law_empty_cache_fails_closed(
    max_attempts: usize,
    interval_ms: u64,
    expected: usize,
    script: Seq<Seq<Price>>,
)
    requires
        expected > 0,
        script.len() >= max_attempts,
        forall|i: int| 0 <= i < max_attempts ==> (#[trigger] script[i]).len() == 0,
    ensures
        run(Poll::start(max_attempts, interval_ms, expected), script) == Some(
            PollOutcome {
                result: Err(AggregationError::NoPricesAvailable),
                reads: max_attempts as nat,
                waited_ms: (max_attempts * interval_ms) as nat,
            },
        ),
{
    if max_attempts > 0 {
        law_budget_ends_poll(max_attempts, interval_ms, expected, script);
    } else {
        assert(max_attempts * interval_ms == 0) by (nonlinear_arith)
            requires
                max_attempts == 0,
        ;
    }
}

/// A reading holds as many present prices as it has entries that are not
/// `None`: no more than its length, fewer where an entry is `None`, at
/// least one where an entry is `Some`, and as many as its length where no
/// entry is `None`.
pub proof fn lemma_present_count(readings: Seq<Option<Price>>)
    ensures
        present(readings).len() <= readings.len(),
        (forall|j: int| 0 <= j < readings.len() ==> (#[trigger] readings[j]) is Some) ==> present(
            readings,
        ).len() == readings.len(),
        (exists|j: int| 0 <= j < readings.len() && (#[trigger] readings[j]) is None) ==> present(
            readings,
        ).len() < readings.len(),
        (exists|j: int| 0 <= j < readings.len() && (#[trigger] readings[j]) is Some) ==> present(
            readings,
        ).len() > 0,
    decreases readings.len(),
{
    if readings.len() > 0 {
        let front = readings.drop_last();
        lemma_present_count(front);
        if forall|j: int| 0 <= j < readings.len() ==> (#[trigger] readings[j]) is Some {
            assert forall|j: int| 0 <= j < front.len() implies (#[trigger] front[j]) is Some by {
                assert(readings[j] is Some);
            }
            assert(readings[readings.len() - 1] is Some);
        }
        if exists|j: int| 0 <= j < readings.len() && (#[trigger] readings[j]) is None {
            let j = choose|j: int| 0 <= j < readings.len() && (#[trigger] readings[j]) is None;
            if j < readings.len() - 1 {
                assert(front[j] is None);
            }
        }
        if exists|j: int| 0 <= j < readings.len() && (#[trigger] readings[j]) is Some {
            let j = choose|j: int| 0 <= j < readings.len() && (#[trigger] readings[j]) is Some;
            if j < readings.len() - 1 {
                assert(front[j] is Some);
            }
        }
    }
}

/// Isolation on the read path: a source whose key is absent in every
/// attempt does not keep the others from being served. The poll then uses
/// its whole budget and answers with the mean of the prices that its last
/// attempt found, which is a success where that attempt found any.
pub proof fn law_absent_source_does_not_block(
    max_attempts: usize,
    interval_ms: u64,
    readings: Seq<Seq<Option<Price>>>,
    expected: usize,
    absent: int,
)
    requires
        max_attempts > 0,
        readings.len() >= max_attempts,
        0 <= absent < expected,
        forall|i: int|
            0 <= i < max_attempts ==> (#[trigger] readings[i]).len() == expected
                && readings[i][absent] is None,
    ensures
        run(
            Poll::start(max_attempts, interval_ms, expected),
            readings.map_values(|r: Seq<Option<Price>>| present(r)),
        ) == Some(
            PollOutcome {
                result: aggregate(present(readings[max_attempts - 1])),
                reads: max_attempts as nat,
                waited_ms: (max_attempts * interval_ms) as nat,
            },
        ),
        (exists|j: int|
            0 <= j < expected && (#[trigger] readings[max_attempts - 1][j]) is Some) ==> aggregate(
            present(readings[max_attempts - 1]),
        ) is Ok,
{
    let script = readings.map_values(|r: Seq<Option<Price>>| present(r));
    assert forall|i: int| 0 <= i < max_attempts implies (#[trigger] script[i]).len()
        != expected by {
        assert(script[i] == present(readings[i]));
        assert(readings[i][absent] is None);
        lemma_present_count(readings[i]);
    }
    law_budget_ends_poll(max_attempts, interval_ms, expected, script);
    assert(script[max_attempts - 1] == present(readings[max_attempts - 1]));
    lemma_present_count(readings[max_attempts - 1]);
}

/// Average correctness: the served average is a multiple of
/// `ROUNDING_STEP`, and none is nearer to the exact mean. Taken `n` times,
/// where `n` prices were averaged, it differs from their sum by at most half
/// of `n` steps.
pub proof fn law_average_is_nearest(prices: Seq<Price>)
    requires
        prices.len() > 0,
    ensures
        rounded_mean(prices) % (ROUNDING_STEP as int) == 0,
        2 * magnitude(rounded_mean(prices) * prices.len() - total(prices)) <= prices.len()
            * ROUNDING_STEP,
{
    let n = prices.len() as int;
    let den = n * ROUNDING_STEP;
    let q = div_round(total(prices), den);
    assert(den > 0) by (nonlinear_arith)
        requires
            n > 0,
            den == n * 10_000,
    ;
    lemma_div_round_is_nearest(total(prices), den);
    assert(q * den == (q * ROUNDING_STEP) * n) by (nonlinear_arith)
        requires
            den == n * ROUNDING_STEP,
    ;
    assert(q * ROUNDING_STEP == ROUNDING_STEP * q) by (nonlinear_arith);
    vstd::arithmetic::div_mod::lemma_fundamental_div_mod_converse(
        q * ROUNDING_STEP,
        ROUNDING_STEP as int,
        q,
        0,
    );
}

/// The average of a single price is that price rounded to a multiple of
/// `ROUNDING_STEP`; a price that is such a multiple is served unchanged.
pub proof fn law_single_source_average(price: Price)
    ensures
        aggregate(seq![price]) == Ok::<Price, AggregationError>(
            Price::of_units(div_round(price@, ROUNDING_STEP as int) * ROUNDING_STEP),
        ),
        price@ % (ROUNDING_STEP as int) == 0 ==> aggregate(seq![price]) == Ok::<
            Price,
            AggregationError,
        >(price),
{
    let one = seq![price];
    assert(one.drop_last() =~= Seq::<Price>::empty());
    assert(total(one) == total(one.drop_last()) + one.last()@);
    assert(total(one.drop_last()) == 0);
    assert(total(one) == price@);
    if price@ % (ROUNDING_STEP as int) == 0 {
        let k = price@ / (ROUNDING_STEP as int);
        vstd::arithmetic::div_mod::lemma_fundamental_div_mod(price@, ROUNDING_STEP as int);
        assert(price@ == k * ROUNDING_STEP) by (nonlinear_arith)
            requires
                price@ == ROUNDING_STEP * k + 0,
        ;
        lemma_div_round_exact(k, ROUNDING_STEP as int);
        Price::lemma_of_view(price);
    }
}

} // verus!
