//! The delays between the attempts of one run: exponential backoff with a
//! maximum, each delay shortened by a random jitter.

use crate::time::{Duration, NANOS_PER_MILLI};
use tokio_retry::strategy::{jitter, ExponentialBackoff};
use vstd::arithmetic::power::{lemma_pow_increases, lemma_pow_positive, pow};
use vstd::arithmetic::power2::{lemma2_to64, lemma_pow2, pow2};
use vstd::prelude::*;

verus! {

/// The first delay, in milliseconds; each further delay is as many times
/// longer than the one before it.
pub const BASE_DELAY_MILLIS: u64 = 2;

/// The longest delay, in milliseconds.
pub const MAX_DELAY_MILLIS: u64 = 30_000;

/// The greatest number of whole milliseconds for which the jitter is sure
/// to shorten a delay, never to lengthen it: up to here every whole number
/// is held exactly by the floating-point numbers in which the jitter is
/// applied.
pub const MAX_JITTERED_MILLIS: u64 = 0x20_0000_0000_0000;

/// The index from which on every delay is the longest one.
const SATURATED_INDEX: u64 = 14;

/// The smaller of two numbers.
pub open spec fn min_of(a: int, b: int) -> int {
    if a <= b {
        a
    } else {
        b
    }
}

/// The delay before jitter that follows the failed attempt with the given
/// index, counted from zero, in milliseconds: the base delay, grown by its
/// own factor once for each earlier attempt, and capped.
pub open spec fn backoff_millis(index: nat) -> nat {
    min_of(
        BASE_DELAY_MILLIS * pow(BASE_DELAY_MILLIS as int, index),
        MAX_DELAY_MILLIS as int,
    ) as nat
}

/// Whether a delay of `delay` nanoseconds can follow the failed attempt with
/// the given index after jitter: it is a whole number of milliseconds and
/// not longer than the backoff for that index.
pub open spec fn within_backoff(delay: nat, index: nat) -> bool {
    exists|millis: nat|
        delay == #[trigger] (millis * NANOS_PER_MILLI) && millis <= backoff_millis(index)
}

/// The item at `index`, counted from zero, of the sequence of delays that
/// `tokio_retry::strategy::ExponentialBackoff` yields when made with
/// `from_millis(base_millis)` and `max_delay` of `max_delay_millis`
/// milliseconds, in milliseconds.
///
/// That iterator starts at the base, multiplies by the base at each step,
/// saturating at `u64::MAX`, and yields the maximum in place of any longer
/// delay; it never ends. So the item at `index` is the base to the power of
/// `index + 1`, or the maximum where that power is greater.
#[verifier::external_body]
fn exponential_backoff_millis(base_millis: u64, max_delay_millis: u64, index: usize) -> (millis:
    u64)
    ensures
        millis == min_of(pow(base_millis as int, (index + 1) as nat), max_delay_millis as int),
{
    let longest = std::time::Duration::from_millis(max_delay_millis);
    let mut delays = ExponentialBackoff::from_millis(base_millis).max_delay(longest);
    delays.nth(index).unwrap_or(longest).as_millis() as u64
}

/// A delay of `delay_millis` milliseconds after
/// `tokio_retry::strategy::jitter`, in milliseconds.
///
/// `jitter` multiplies the delay by a random factor between zero and one,
/// both included, and drops what is less than a millisecond. The same delay
/// gives another result at each call; what holds of each is that it is not
/// longer than the delay.
#[verifier::external_body]
fn jittered_millis(delay_millis: u64) -> (millis: u64)
    requires
        delay_millis <= MAX_JITTERED_MILLIS,
    ensures
        millis <= delay_millis,
{
    jitter(std::time::Duration::from_millis(delay_millis)).as_millis() as u64
}

/// The delay before jitter that follows the failed attempt with the given
/// index, counted from zero.
pub fn backoff_delay(index: u64) -> (delay: Duration)
    ensures
        delay@ == backoff_millis(index as nat) * NANOS_PER_MILLI,
{
    let capped: u64 = if index > SATURATED_INDEX {
        SATURATED_INDEX
    } else {
        index
    };
    let millis = exponential_backoff_millis(BASE_DELAY_MILLIS, MAX_DELAY_MILLIS, capped as usize);
    proof {
        lemma_backoff_by_power(capped as nat);
        if index > SATURATED_INDEX {
            lemma_backoff_saturates(index as nat);
            lemma_backoff_saturates(capped as nat);
        }
    }
    Duration::from_millis(millis)
}

/// The delay that follows the failed attempt with the given index, counted
/// from zero, where the run may go on: there is none once `limit_opt`
/// attempts were made, since delays lie between attempts only.
///
/// The delay is the backoff for that index after jitter: a whole number of
/// milliseconds and never longer than the backoff.
pub fn retry_strategy(limit_opt: Option<usize>, index: u64) -> (delay: Option<Duration>)
    ensures
        delay is None <==> (limit_opt matches Some(limit) && index + 1 >= limit),
        delay matches Some(d) ==> within_backoff(d@, index as nat),
{
    let exhausted = match limit_opt {
        Some(limit) => index >= u64::MAX || index + 1 >= limit as u64,
        None => false,
    };
    if exhausted {
        None
    } else {
        let base = backoff_delay(index);
        let base_millis = base.as_millis();
        proof {
            lemma_backoff_bounds(index as nat);
        }
        let millis = jittered_millis(base_millis as u64);
        let delay = Duration::from_millis(millis);
        assert(delay@ == (millis as nat) * NANOS_PER_MILLI);
        Some(delay)
    }
}

/// Before jitter no delay is negative, and none is longer than the maximum.
pub proof fn lemma_backoff_bounds(index: nat)
    ensures
        0 <= backoff_millis(index) <= MAX_DELAY_MILLIS,
{
    lemma_pow_positive(BASE_DELAY_MILLIS as int, index);
}

/// Before jitter the delays never shrink from one attempt to the next.
pub proof fn lemma_backoff_monotonic(earlier: nat, later: nat)
    requires
        earlier <= later,
    ensures
        backoff_millis(earlier) <= backoff_millis(later),
{
    lemma_pow_increases(BASE_DELAY_MILLIS as nat, earlier, later);
    lemma_pow_positive(BASE_DELAY_MILLIS as int, earlier);
}

/// Below the maximum each delay before jitter is the base times as long as
/// the one before it, and the first is the base.
pub proof fn lemma_backoff_grows(index: nat)
    ensures
        backoff_millis(0) == BASE_DELAY_MILLIS,
        backoff_millis(index + 1) < MAX_DELAY_MILLIS ==> backoff_millis(index + 1)
            == BASE_DELAY_MILLIS * backoff_millis(index),
{
    reveal(pow);
    lemma_pow_positive(BASE_DELAY_MILLIS as int, index);
    assert(pow(BASE_DELAY_MILLIS as int, 0) == 1);
    assert(pow(BASE_DELAY_MILLIS as int, index + 1) == BASE_DELAY_MILLIS * pow(
        BASE_DELAY_MILLIS as int,
        index,
    ));
}

/// The base times its own power is the next power.
proof fn lemma_backoff_by_power(index: nat)
    ensures
        backoff_millis(index) == min_of(
            pow(BASE_DELAY_MILLIS as int, index + 1),
            MAX_DELAY_MILLIS as int,
        ),
{
    reveal(pow);
    assert(pow(BASE_DELAY_MILLIS as int, index + 1) == BASE_DELAY_MILLIS * pow(
        BASE_DELAY_MILLIS as int,
        index,
    ));
    lemma_pow_positive(BASE_DELAY_MILLIS as int, index);
}

/// From `SATURATED_INDEX` on every delay before jitter is the maximum.
proof fn lemma_backoff_saturates(index: nat)
    requires
        index >= SATURATED_INDEX,
    ensures
        backoff_millis(index) == MAX_DELAY_MILLIS,
{
    lemma2_to64();
    lemma_pow2(14);
    assert(pow2(14) == 0x4000);
    lemma_pow_increases(BASE_DELAY_MILLIS as nat, 14, index);
}

} // verus!
