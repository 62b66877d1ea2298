//! What the bins hold of a history of measurements.
//!
//! The statistics keep sums, not measurements. Here the measurements that
//! were added are written down one by one, and the bins are held against
//! them: with bins of a size above zero and measurements that come in the
//! order of their times, the bins count an unbroken run of the latest
//! measurements, every one of them taken within the window, and what was
//! dropped before that run was less than one bin away from leaving the
//! window.

use crate::stats::{
    accumulate, after_add, arrives_in_order, ascending, evict, expired,
    lemma_accumulate_keeps_order, lemma_evict_leaves_none_expired, lemma_evict_shape,
    lemma_suffix_keeps_order, lemma_sum_last, lemma_sum_push, none_expired, opens_bin, spaced,
    sum_count, sum_duration, BinView, StatsView,
};
use crate::time::span_between;
use vstd::prelude::*;

verus! {

/// One measurement: when it was taken and how long the measured thing
/// took, both in nanoseconds.
pub ghost struct Measurement {
    pub at: nat,
    pub value: nat,
}

/// The values of the measurements in `log`, added up.
pub open spec fn sum_values(log: Seq<Measurement>) -> nat
    decreases log.len(),
{
    if log.len() == 0 {
        0
    } else {
        sum_values(log.drop_last()) + log.last().value
    }
}

/// The bins of statistics that were empty at first, after the measurements
/// in `log` were added one by one.
pub open spec fn replay(window: nat, bin_size: nat, log: Seq<Measurement>) -> Seq<BinView>
    decreases log.len(),
{
    if log.len() == 0 {
        Seq::empty()
    } else {
        evict(
            accumulate(
                replay(window, bin_size, log.drop_last()),
                bin_size,
                log.last().at,
                log.last().value,
            ),
            log.last().at,
            window,
        )
    }
}

/// Statistics that hold what `log` comes to hold, after one more
/// measurement was added, what the longer history comes to.
pub proof fn lemma_add_replays(stats: StatsView, log: Seq<Measurement>, next: Measurement)
    requires
        stats.bins == replay(stats.window_size, stats.bin_size, log),
    ensures
        after_add(stats, next.at, next.value).bins == replay(
            stats.window_size,
            stats.bin_size,
            log.push(next),
        ),
{
    assert(log.push(next).drop_last() =~= log);
}

/// Measurement `j` was not taken before measurement `i`.
pub open spec fn not_before(log: Seq<Measurement>, i: int, j: int) -> bool {
    log[i].at <= log[j].at
}

/// The measurements in `log` stand in the order of their times.
pub open spec fn in_time_order(log: Seq<Measurement>) -> bool {
    forall|i: int, j: int| 0 <= i <= j < log.len() ==> #[trigger] not_before(log, i, j)
}

/// The bins hold the latest measurements of `log`, each bin an unbroken
/// run of them: the newest bin the last ones, as many as it counts, the
/// first of which opened it and none of which was taken a whole `bin_size`
/// after that; and so on for the bins before it.
spec fn covers(bins: Seq<BinView>, log: Seq<Measurement>, bin_size: nat) -> bool
    decreases bins.len(),
{
    if bins.len() == 0 {
        true
    } else {
        let bin = bins.last();
        let first = log.len() - bin.count;
        &&& 1 <= bin.count <= log.len()
        &&& bin.start == log[first].at
        &&& bin.duration == sum_values(log.subrange(first, log.len() as int))
        &&& forall|i: int| first <= i < log.len() ==> (#[trigger] log[i]).at < bin.start + bin_size
        &&& covers(bins.drop_last(), log.subrange(0, first), bin_size)
    }
}

proof fn lemma_sum_values_concat(a: Seq<Measurement>, b: Seq<Measurement>)
    ensures
        sum_values(a + b) == sum_values(a) + sum_values(b),
    decreases b.len(),
{
    if b.len() == 0 {
        assert(a + b =~= a);
    } else {
        lemma_sum_values_concat(a, b.drop_last());
        assert((a + b).drop_last() =~= a + b.drop_last());
        assert((a + b).last() == b.last());
    }
}

proof fn lemma_sum_accumulate(bins: Seq<BinView>, bin_size: nat, now: nat, value: nat)
    ensures
        sum_count(accumulate(bins, bin_size, now, value)) == sum_count(bins) + 1,
        sum_duration(accumulate(bins, bin_size, now, value)) == sum_duration(bins) + value,
{
    let filled = accumulate(bins, bin_size, now, value);
    if opens_bin(bins, bin_size, now) {
        lemma_sum_push(bins, BinView { start: now, duration: value, count: 1 });
    } else {
        lemma_sum_last(bins);
        lemma_sum_last(filled);
        assert(filled.drop_last() =~= bins.drop_last());
    }
}

proof fn lemma_covers_accumulate(
    bins: Seq<BinView>,
    log: Seq<Measurement>,
    bin_size: nat,
    next: Measurement,
)
    requires
        covers(bins, log, bin_size),
        bin_size > 0,
    ensures
        covers(accumulate(bins, bin_size, next.at, next.value), log.push(next), bin_size),
{
    let filled = accumulate(bins, bin_size, next.at, next.value);
    let longer = log.push(next);
    let bin = filled.last();
    let first = longer.len() - bin.count;
    if opens_bin(bins, bin_size, next.at) {
        assert(filled.drop_last() =~= bins);
        assert(longer.subrange(0, first) =~= log);
        let only = longer.subrange(first, longer.len() as int);
        assert(only.drop_last() =~= Seq::<Measurement>::empty());
        assert(sum_values(only.drop_last()) == 0);
        assert(only.last() == next);
    } else {
        let before = bins.last();
        assert(filled.drop_last() =~= bins.drop_last());
        assert(longer.subrange(0, first) =~= log.subrange(0, first));
        let run = longer.subrange(first, longer.len() as int);
        assert(run.drop_last() =~= log.subrange(first, log.len() as int));
        assert(run.last() == next);
        assert(longer[first] == log[first]);
        assert forall|i: int| first <= i < longer.len() implies (#[trigger] longer[i]).at
            < bin.start + bin_size by {
            if i < log.len() {
                assert(longer[i] == log[i]);
            }
        }
    }
}

proof fn lemma_covers_suffix(
    bins: Seq<BinView>,
    log: Seq<Measurement>,
    bin_size: nat,
    gone: int,
)
    requires
        covers(bins, log, bin_size),
        0 <= gone <= bins.len(),
    ensures
        covers(bins.subrange(gone, bins.len() as int), log, bin_size),
    decreases bins.len(),
{
    let stay = bins.subrange(gone, bins.len() as int);
    if gone < bins.len() {
        let first = log.len() - bins.last().count;
        lemma_covers_suffix(bins.drop_last(), log.subrange(0, first), bin_size, gone);
        assert(stay.drop_last() =~= bins.drop_last().subrange(gone, bins.len() - 1));
        assert(stay.last() == bins.last());
    }
}

/// The bins count no more measurements than there are, and their sum is
/// that of the latest measurements, as many as they count.
proof fn lemma_covers_sums(bins: Seq<BinView>, log: Seq<Measurement>, bin_size: nat)
    requires
        covers(bins, log, bin_size),
    ensures
        sum_count(bins) <= log.len(),
        sum_duration(bins) == sum_values(
            log.subrange(log.len() - sum_count(bins), log.len() as int),
        ),
    decreases bins.len(),
{
    if bins.len() == 0 {
        assert(log.subrange(log.len() as int, log.len() as int) =~= Seq::<Measurement>::empty());
    } else {
        let first = log.len() - bins.last().count;
        let older = log.subrange(0, first);
        lemma_covers_sums(bins.drop_last(), older, bin_size);
        let counted = sum_count(bins.drop_last());
        let left = older.subrange(first - counted, first);
        let right = log.subrange(first, log.len() as int);
        lemma_sum_values_concat(left, right);
        assert(left + right =~= log.subrange(first - counted, log.len() as int));
    }
}

/// Of measurements in the order of their times, those that the bins count
/// were taken less than a whole window before `now`, where no bin is
/// expired at `now`.
proof fn lemma_counted_within(
    bins: Seq<BinView>,
    log: Seq<Measurement>,
    bin_size: nat,
    now: nat,
    window: nat,
)
    requires
        covers(bins, log, bin_size),
        in_time_order(log),
        none_expired(bins, now, window),
    ensures
        sum_count(bins) <= log.len(),
        forall|i: int|
            log.len() - sum_count(bins) <= i < log.len() ==> span_between(
                (#[trigger] log[i]).at,
                now,
            ) < window,
    decreases bins.len(),
{
    lemma_covers_sums(bins, log, bin_size);
    if bins.len() > 0 {
        let bin = bins.last();
        let first = log.len() - bin.count;
        let older = log.subrange(0, first);
        assert forall|i: int, j: int| 0 <= i <= j < older.len() implies #[trigger] not_before(
            older,
            i,
            j,
        ) by {
            assert(not_before(log, i, j));
        }
        assert forall|k: int| 0 <= k < bins.drop_last().len() implies !expired(
            (#[trigger] bins.drop_last()[k]).start,
            now,
            window,
        ) by {
            assert(bins.drop_last()[k] == bins[k]);
        }
        lemma_counted_within(bins.drop_last(), older, bin_size, now, window);
        lemma_covers_sums(bins.drop_last(), older, bin_size);
        assert forall|i: int| log.len() - sum_count(bins) <= i < log.len() implies span_between(
            (#[trigger] log[i]).at,
            now,
        ) < window by {
            if i >= first {
                assert(not_before(log, first, i));
                assert(!expired(bins[bins.len() - 1].start, now, window));
            } else {
                assert(older[i] == log[i]);
            }
        }
    }
}

/// The measurements that the oldest `gone` bins count were taken less than
/// one bin short of a whole window before `now`, where those bins are
/// expired at `now`.
proof fn lemma_gone_are_old(
    bins: Seq<BinView>,
    log: Seq<Measurement>,
    bin_size: nat,
    gone: int,
    now: nat,
    window: nat,
)
    requires
        covers(bins, log, bin_size),
        0 <= gone <= bins.len(),
        forall|k: int| 0 <= k < gone ==> expired((#[trigger] bins[k]).start, now, window),
        forall|i: int| 0 <= i < log.len() ==> (#[trigger] log[i]).at <= now,
    ensures
        sum_count(bins.subrange(gone, bins.len() as int)) <= sum_count(bins) <= log.len(),
        forall|i: int|
            log.len() - sum_count(bins) <= i < log.len() - sum_count(
                bins.subrange(gone, bins.len() as int),
            ) ==> (#[trigger] log[i]).at + window < now + bin_size,
    decreases bins.len(),
{
    let stay = bins.subrange(gone, bins.len() as int);
    lemma_covers_sums(bins, log, bin_size);
    if bins.len() == 0 {
        assert(stay =~= bins);
    } else {
        let bin = bins.last();
        let first = log.len() - bin.count;
        let older = log.subrange(0, first);
        let rest = bins.drop_last();
        lemma_covers_sums(rest, older, bin_size);
        assert forall|i: int| 0 <= i < older.len() implies (#[trigger] older[i]).at <= now by {
            assert(older[i] == log[i]);
        }
        assert(log[first].at <= now);
        if gone == bins.len() {
            assert(stay =~= Seq::<BinView>::empty());
            assert(rest.subrange(gone - 1, rest.len() as int) =~= Seq::<BinView>::empty());
            assert forall|k: int| 0 <= k < gone - 1 implies expired(
                (#[trigger] rest[k]).start,
                now,
                window,
            ) by {
                assert(rest[k] == bins[k]);
            }
            lemma_gone_are_old(rest, older, bin_size, gone - 1, now, window);
            assert forall|i: int| log.len() - sum_count(bins) <= i < log.len() implies (
            #[trigger] log[i]).at + window < now + bin_size by {
                if i >= first {
                    assert(expired(bins[bins.len() - 1].start, now, window));
                } else {
                    assert(older[i] == log[i]);
                }
            }
        } else {
            assert(stay.drop_last() =~= rest.subrange(gone, rest.len() as int));
            assert(stay.last() == bin);
            assert forall|k: int| 0 <= k < gone implies expired(
                (#[trigger] rest[k]).start,
                now,
                window,
            ) by {
                assert(rest[k] == bins[k]);
            }
            lemma_gone_are_old(rest, older, bin_size, gone, now, window);
            assert forall|i: int|
                log.len() - sum_count(bins) <= i < log.len() - sum_count(stay) implies (
            #[trigger] log[i]).at + window < now + bin_size by {
                assert(older[i] == log[i]);
            }
        }
    }
}

/// What holds of the bins after every measurement of `log` was added: they
/// cover the latest measurements, are in order and not expired, and every
/// measurement before those that they count is nearly a window old.
spec fn tracks(window: nat, bin_size: nat, log: Seq<Measurement>) -> bool {
    let bins = replay(window, bin_size, log);
    &&& covers(bins, log, bin_size)
    &&& spaced(bins, bin_size)
    &&& ascending(bins)
    &&& sum_count(bins) <= log.len()
    &&& log.len() > 0 ==> none_expired(bins, log.last().at, window)
    &&& log.len() > 0 ==> forall|i: int|
        0 <= i < log.len() - sum_count(bins) ==> (#[trigger] log[i]).at + window < log.last().at
            + bin_size
}

proof fn lemma_replay_tracks(window: nat, bin_size: nat, log: Seq<Measurement>)
    requires
        bin_size > 0,
        in_time_order(log),
    ensures
        tracks(window, bin_size, log),
    decreases log.len(),
{
    if log.len() == 0 {
        reveal(ascending);
        reveal(spaced);
    } else {
        let earlier = log.drop_last();
        let next = log.last();
        assert forall|i: int, j: int| 0 <= i <= j < earlier.len() implies #[trigger] not_before(
            earlier,
            i,
            j,
        ) by {
            assert(not_before(log, i, j));
        }
        lemma_replay_tracks(window, bin_size, earlier);
        let held = replay(window, bin_size, earlier);
        let filled = accumulate(held, bin_size, next.at, next.value);
        let bins = replay(window, bin_size, log);
        assert(earlier.push(next) =~= log);
        lemma_covers_accumulate(held, earlier, bin_size, next);
        lemma_sum_accumulate(held, bin_size, next.at, next.value);
        assert(arrives_in_order(held, next.at)) by {
            if held.len() > 0 {
                let first = earlier.len() - held.last().count;
                assert(not_before(log, first, log.len() - 1));
                assert(earlier[first] == log[first]);
            }
        }
        lemma_accumulate_keeps_order(held, bin_size, next.at, next.value);
        let gone = lemma_evict_shape(filled, next.at, window);
        lemma_covers_suffix(filled, log, bin_size, gone as int);
        lemma_suffix_keeps_order(filled, bin_size, gone as int);
        lemma_evict_leaves_none_expired(filled, next.at, window);
        assert forall|i: int| 0 <= i < log.len() implies (#[trigger] log[i]).at <= next.at by {
            assert(not_before(log, i, log.len() - 1));
        }
        lemma_gone_are_old(filled, log, bin_size, gone as int, next.at, window);
        assert forall|i: int| 0 <= i < log.len() - sum_count(bins) implies (#[trigger] log[i]).at
            + window < next.at + bin_size by {
            if i < earlier.len() - sum_count(held) {
                assert(earlier[i] == log[i]);
                assert(not_before(log, earlier.len() - 1, log.len() - 1));
            }
        }
    }
}

/// The window is exact up to one bin at its far edge.
///
/// Let measurements be added in the order of their times to statistics
/// with bins of a size above zero. Then, after each of them, the bins count
/// an unbroken run of the latest measurements and hold the sum of their
/// values; every measurement that is counted was taken less than a whole
/// window ago; and every measurement that is no longer counted was taken
/// more than a window less one bin ago.
pub proof fn lemma_window_precision(window: nat, bin_size: nat, log: Seq<Measurement>)
    requires
        bin_size > 0,
        log.len() > 0,
        in_time_order(log),
    ensures
        ({
            let bins = replay(window, bin_size, log);
            let now = log.last().at;
            let dropped = log.len() - sum_count(bins);
            &&& 0 <= dropped <= log.len()
            &&& sum_duration(bins) == sum_values(log.subrange(dropped, log.len() as int))
            &&& forall|i: int|
                dropped <= i < log.len() ==> span_between((#[trigger] log[i]).at, now) < window
            &&& forall|i: int|
                0 <= i < dropped ==> span_between((#[trigger] log[i]).at, now) + bin_size > window
        }),
{
    lemma_replay_tracks(window, bin_size, log);
    let bins = replay(window, bin_size, log);
    let now = log.last().at;
    lemma_covers_sums(bins, log, bin_size);
    lemma_counted_within(bins, log, bin_size, now, window);
    let dropped = log.len() - sum_count(bins);
    assert forall|i: int| 0 <= i < dropped implies span_between((#[trigger] log[i]).at, now)
        + bin_size > window by {
        assert(not_before(log, i, log.len() - 1));
    }
}

} // verus!
