//! Exact statistics over a moving window of time, kept in bounded memory.
//!
//! Measurements are gathered into bins that each cover a fixed slice of
//! time. A running total always equals the sum over the bins that are still
//! held, and bins leave once they lie a whole window behind.

use crate::time::{span_between, Clock, Duration, Instant, MAX_NANOS, NANOS_PER_MILLI};
use std::collections::VecDeque;
use vstd::prelude::*;

verus! {

/// The most bins for which room is set aside when a `MovingStats` is made.
pub const MAX_INITIAL_BINS: usize = 4096;

/// One bin of measurements: it was opened at `start`, and `count`
/// measurements were added to it, whose durations add up to `duration`.
#[derive(Clone, Copy, Debug)]
pub struct Bin {
    pub start: Instant,
    pub duration: Duration,
    pub count: u32,
}

/// What a bin holds, in numbers: times in nanoseconds.
pub ghost struct BinView {
    pub start: nat,
    pub duration: nat,
    pub count: nat,
}

impl View for Bin {
    type V = BinView;

    open spec fn view(&self) -> BinView {
        BinView { start: self.start@, duration: self.duration@, count: self.count as nat }
    }
}

/// Whether the average of `count` measurements that add up to `total` is
/// above `threshold`, as far as `threshold` times `count` is a span that a
/// `Duration` can hold; where it is not, the answer is no.
pub open spec fn average_above(total: nat, count: nat, threshold: nat) -> bool {
    threshold * count <= MAX_NANOS && total > threshold * count
}

impl Bin {
    /// An empty bin opened at `start`.
    pub fn new(start: Instant) -> (bin: Bin)
        ensures
            bin@ == (BinView { start: start@, duration: 0, count: 0 }),
    {
        Bin { start, duration: Duration::zero(), count: 0 }
    }

    /// Adds one measurement to the bin.
    pub fn add(&mut self, duration: Duration)
        requires
            old(self).count < u32::MAX,
            old(self).duration@ + duration@ <= MAX_NANOS,
        ensures
            final(self)@ == (BinView {
                start: old(self)@.start,
                duration: old(self)@.duration + duration@,
                count: old(self)@.count + 1,
            }),
    {
        self.count = self.count + 1;
        self.duration = self.duration.checked_add(duration).unwrap();
    }

    /// Takes the measurements of `other` out of this bin.
    pub fn remove(&mut self, other: &Bin)
        requires
            other.count <= old(self).count,
            other.duration@ <= old(self).duration@,
        ensures
            final(self)@ == (BinView {
                start: old(self)@.start,
                duration: (old(self)@.duration - other@.duration) as nat,
                count: (old(self)@.count - other@.count) as nat,
            }),
    {
        self.count = self.count - other.count;
        self.duration = self.duration.checked_sub(other.duration).unwrap();
    }

    /// Whether the average of the measurements in this bin is above
    /// `duration`.
    ///
    /// The average is not computed: the bin's total is held against
    /// `duration` times the count. Where that product is longer than any
    /// `Duration`, the average counts as not above.
    pub fn average_gt(&self, duration: Duration) -> (above: bool)
        ensures
            above == average_above(self@.duration, self@.count, duration@),
    {
        match duration.checked_mul(self.count) {
            Some(rhs) => self.duration.as_nanos() > rhs.as_nanos(),
            None => false,
        }
    }
}

/// The measurements held by `bins`, counted.
pub open spec fn sum_count(bins: Seq<BinView>) -> nat
    decreases bins.len(),
{
    if bins.len() == 0 {
        0
    } else {
        sum_count(bins.drop_last()) + bins.last().count
    }
}

/// The durations of the measurements held by `bins`, added up.
pub open spec fn sum_duration(bins: Seq<BinView>) -> nat
    decreases bins.len(),
{
    if bins.len() == 0 {
        0
    } else {
        sum_duration(bins.drop_last()) + bins.last().duration
    }
}

/// Whether a measurement taken at `now` opens a new bin: it does where there
/// is no bin yet, and where the newest bin was opened at least `bin_size`
/// before `now`.
pub open spec fn opens_bin(bins: Seq<BinView>, bin_size: nat, now: nat) -> bool {
    bins.len() == 0 || span_between(bins.last().start, now) >= bin_size
}

/// The bins after a measurement of `value` taken at `now` has gone into the
/// newest bin, which is opened at `now` where `opens_bin` says so.
pub open spec fn accumulate(bins: Seq<BinView>, bin_size: nat, now: nat, value: nat) -> Seq<
    BinView,
> {
    if opens_bin(bins, bin_size, now) {
        bins.push(BinView { start: now, duration: value, count: 1 })
    } else {
        bins.update(
            bins.len() - 1,
            BinView {
                start: bins.last().start,
                duration: bins.last().duration + value,
                count: bins.last().count + 1,
            },
        )
    }
}

/// Whether a bin opened at `start` lies a whole `window` behind `now`.
pub open spec fn expired(start: nat, now: nat, window: nat) -> bool {
    span_between(start, now) >= window
}

/// No bin lies a whole `window` behind `now`.
pub open spec fn none_expired(bins: Seq<BinView>, now: nat, window: nat) -> bool {
    forall|i: int| 0 <= i < bins.len() ==> !expired((#[trigger] bins[i]).start, now, window)
}

/// A measurement taken at `now` does not come late: no bin was opened
/// after `now`.
pub open spec fn arrives_in_order(bins: Seq<BinView>, now: nat) -> bool {
    bins.len() > 0 ==> bins.last().start <= now
}

/// The bins that stay at `now`: the oldest bins leave, one after the other,
/// for as long as the oldest one is expired.
pub open spec fn evict(bins: Seq<BinView>, now: nat, window: nat) -> Seq<BinView>
    decreases bins.len(),
{
    if bins.len() > 0 && expired(bins[0].start, now, window) {
        evict(bins.subrange(1, bins.len() as int), now, window)
    } else {
        bins
    }
}

/// The time from the opening of bin `i` to that of the next one.
pub open spec fn gap_after(bins: Seq<BinView>, i: int) -> nat {
    span_between(bins[i].start, bins[i + 1].start)
}

/// Each bin was opened at least `gap` after the one before it.
#[verifier::opaque]
pub open spec fn spaced(bins: Seq<BinView>, gap: nat) -> bool {
    forall|i: int| 0 <= i && i + 1 < bins.len() ==> #[trigger] gap_after(bins, i) >= gap
}

/// Bin `j` was not opened before bin `i`.
pub open spec fn in_order(bins: Seq<BinView>, i: int, j: int) -> bool {
    bins[i].start <= bins[j].start
}

/// No bin was opened before an older one.
#[verifier::opaque]
pub open spec fn ascending(bins: Seq<BinView>) -> bool {
    forall|i: int, j: int| 0 <= i <= j < bins.len() ==> #[trigger] in_order(bins, i, j)
}

/// Every bin was opened less than a whole `window` before the newest one.
#[verifier::opaque]
pub open spec fn fresh(bins: Seq<BinView>, window: nat) -> bool {
    forall|i: int|
        0 <= i < bins.len() ==> span_between((#[trigger] bins[i]).start, bins.last().start)
            < window
}

/// What a `MovingStats` holds, in numbers: times in nanoseconds, the bins
/// from the oldest to the newest.
pub ghost struct StatsView {
    pub window_size: nat,
    pub bin_size: nat,
    pub bins: Seq<BinView>,
    pub total_duration: nat,
    pub total_count: nat,
}

/// The statistics after a measurement of `value` taken at `now` was added:
/// it goes into the newest bin and into the total, then the expired bins
/// leave and the total loses what they held.
pub open spec fn after_add(stats: StatsView, now: nat, value: nat) -> StatsView {
    let bins = evict(
        accumulate(stats.bins, stats.bin_size, now, value),
        now,
        stats.window_size,
    );
    StatsView {
        window_size: stats.window_size,
        bin_size: stats.bin_size,
        bins,
        total_duration: sum_duration(bins),
        total_count: sum_count(bins),
    }
}

/// The views of the bins in `bins`, in the same order.
pub open spec fn bin_views(bins: Seq<Bin>) -> Seq<BinView> {
    bins.map_values(|bin: Bin| bin@)
}

/// Statistics over a moving window of size `window_size`. To keep the memory
/// needed for the measurements inside the window constant, they are put
/// into bins of size `bin_size`: a window of five minutes with bins of one
/// second takes 300 bins.
pub struct MovingStats {
    window_size: Duration,
    bin_size: Duration,
    /// The bins with measurements, the oldest at the front.
    bins: VecDeque<Bin>,
    /// The sum over the bins. When this bin was opened means nothing.
    total: Bin,
    /// Tells the time for measurements that come without one.
    clock: Clock,
}

impl View for MovingStats {
    type V = StatsView;

    closed spec fn view(&self) -> StatsView {
        StatsView {
            window_size: self.window_size@,
            bin_size: self.bin_size@,
            bins: bin_views(self.bins@),
            total_duration: self.total@.duration,
            total_count: self.total@.count,
        }
    }
}

impl MovingStats {
    /// The total is the exact sum over the bins that are held.
    pub open spec fn total_is_exact(&self) -> bool {
        &&& self@.total_count == sum_count(self@.bins)
        &&& self@.total_duration == sum_duration(self@.bins)
    }

    /// What holds of every `MovingStats` between two calls: the total is
    /// exact, the bins lie at least `bin_size` apart, and with a `bin_size`
    /// above zero they are in the order in which they were opened and none
    /// lies a whole window behind the newest.
    pub open spec fn wf(&self) -> bool {
        &&& self.total_is_exact()
        &&& spaced(self@.bins, self@.bin_size)
        &&& self@.bin_size > 0 ==> ascending(self@.bins) && fresh(self@.bins, self@.window_size)
    }

    /// Empty statistics over a window of `window_size`, in bins of
    /// `bin_size`.
    pub fn new(window_size: Duration, bin_size: Duration) -> (stats: MovingStats)
        ensures
            stats.wf(),
            stats@ == (StatsView {
                window_size: window_size@,
                bin_size: bin_size@,
                bins: Seq::empty(),
                total_duration: 0,
                total_count: 0,
            }),
    {
        let capacity = initial_capacity(window_size, bin_size);
        let clock = Clock::start();
        let stats = MovingStats {
            window_size,
            bin_size,
            bins: VecDeque::with_capacity(capacity),
            total: Bin::new(clock.now()),
            clock,
        };
        proof {
            assert(stats@.bins =~= Seq::empty());
            reveal(spaced);
            reveal(ascending);
            reveal(fresh);
        }
        stats
    }

    /// Whether the average of the measurements within the window is above
    /// `duration`.
    ///
    /// No bin expires here: the answer is for the window as it was when the
    /// last measurement was added. The average is not computed: the total
    /// is held against `duration` times the count, and where that product
    /// is longer than any `Duration` the answer is no.
    pub fn average_gt(&self, duration: Duration) -> (above: bool)
        ensures
            above == average_above(self@.total_duration, self@.total_count, duration@),
    {
        self.total.average_gt(duration)
    }

    /// The average over the window, rounded down to the nanosecond; there is
    /// none where the window holds no measurement.
    pub fn average(&self) -> (mean: Option<Duration>)
        ensures
            mean is None <==> self@.total_count == 0,
            mean matches Some(d) ==> d@ == self@.total_duration / self@.total_count,
    {
        self.total.duration.checked_div(self.total.count)
    }

    /// Adds a measurement taken at the present moment, as this statistic's
    /// own clock tells it.
    pub fn add(&mut self, duration: Duration)
        requires
            old(self).wf(),
            old(self)@.total_count < u32::MAX,
            old(self)@.total_duration + duration@ <= MAX_NANOS,
        ensures
            final(self).wf(),
            exists|now: nat| final(self)@ == #[trigger] after_add(old(self)@, now, duration@),
    {
        let now = self.clock.now();
        self.add_at(now, duration);
    }

    /// Adds a measurement taken at `now`.
    ///
    /// It goes into the newest bin, or into a new one opened at `now` where
    /// the newest is at least `bin_size` old, and into the total. Then the
    /// oldest bins leave for as long as the oldest lies a whole window
    /// behind `now`, and the total loses what they held.
    ///
    /// Measurements are expected in the order of their times. One that
    /// comes late is still added to the newest bin, and bins then expire
    /// later than they should. With bins of a size above zero, and with
    /// measurements that come in order, no bin that stays is expired.
    pub fn add_at(&mut self, now: Instant, duration: Duration)
        requires
            old(self).wf(),
            old(self)@.total_count < u32::MAX,
            old(self)@.total_duration + duration@ <= MAX_NANOS,
        ensures
            final(self).wf(),
            final(self)@ == after_add(old(self)@, now@, duration@),
            final(self)@.bin_size > 0 ==> none_expired(
                final(self)@.bins,
                now@,
                final(self)@.window_size,
            ),
            ascending(old(self)@.bins) && arrives_in_order(old(self)@.bins, now@) ==> ascending(
                final(self)@.bins,
            ) && none_expired(final(self)@.bins, now@, final(self)@.window_size),
    {
        let ghost before = self@;
        let len = self.bins.len();
        let need_new_bin = if len == 0 {
            true
        } else {
            let newest = self.bins[len - 1];
            assert(newest@ == before.bins.last());
            now.saturating_duration_since(newest.start).as_nanos() >= self.bin_size.as_nanos()
        };
        assert(need_new_bin == opens_bin(before.bins, before.bin_size, now@));
        if need_new_bin {
            self.bins.push_back(Bin::new(now));
        }
        let ghost opened = bin_views(self.bins@);
        let ghost held = self.bins@;
        proof {
            if need_new_bin {
                assert(opened =~= before.bins.push(
                    BinView { start: now@, duration: 0, count: 0 },
                ));
                lemma_sum_push(before.bins, BinView { start: now@, duration: 0, count: 0 });
            } else {
                assert(opened =~= before.bins);
            }
            lemma_sum_last(opened);
        }
        let newest = self.bins.pop_back();
        let mut bin = newest.unwrap();
        assert(bin@ == opened.last());
        bin.add(duration);
        self.bins.push_back(bin);
        self.total.add(duration);
        proof {
            let filled = bin_views(self.bins@);
            assert(self.bins@ =~= held.drop_last().push(bin));
            assert(filled =~= opened.drop_last().push(bin@));
            assert(filled =~= accumulate(before.bins, before.bin_size, now@, duration@));
            lemma_sum_push(opened.drop_last(), bin@);
            lemma_add_keeps_order(before.bins, before.bin_size, before.window_size, now@, duration@);
        }
        self.expire_bins(now);
    }

    /// Lets the oldest bins go for as long as the oldest lies a whole window
    /// behind `now`, and takes what they held out of the total.
    fn expire_bins(&mut self, now: Instant)
        requires
            old(self).total_is_exact(),
        ensures
            final(self).total_is_exact(),
            final(self)@.bins == evict(old(self)@.bins, now@, old(self)@.window_size),
            final(self)@.window_size == old(self)@.window_size,
            final(self)@.bin_size == old(self)@.bin_size,
    {
        while self.oldest_expired(now)
            invariant
                self.total_is_exact(),
                evict(self@.bins, now@, self@.window_size) == evict(
                    old(self)@.bins,
                    now@,
                    old(self)@.window_size,
                ),
                self@.window_size == old(self)@.window_size,
                self@.bin_size == old(self)@.bin_size,
            decreases self@.bins.len(),
        {
            let ghost held = self.bins@;
            let ghost views = self@.bins;
            let oldest = self.bins.pop_front();
            let existing = oldest.unwrap();
            proof {
                assert(bin_views(self.bins@) =~= views.subrange(1, views.len() as int));
                assert(existing@ == views[0]);
                lemma_sum_first(views);
            }
            self.total.remove(&existing);
        }
    }

    /// Whether there is a bin and the oldest lies a whole window behind
    /// `now`.
    fn oldest_expired(&self, now: Instant) -> (gone: bool)
        ensures
            gone == (self@.bins.len() > 0 && expired(
                self@.bins[0].start,
                now@,
                self@.window_size,
            )),
    {
        if self.bins.len() == 0 {
            false
        } else {
            let oldest = self.bins[0];
            assert(oldest@ == self@.bins[0]);
            now.saturating_duration_since(oldest.start).as_nanos() >= self.window_size.as_nanos()
        }
    }

    /// The durations of the measurements within the window, added up.
    pub fn duration(&self) -> (total: Duration)
        ensures
            total@ == self@.total_duration,
    {
        self.total.duration
    }

    /// The durations of the measurements within the window, added up.
    pub fn total_duration(&self) -> (total: Duration)
        ensures
            total@ == self@.total_duration,
    {
        self.total.duration
    }

    /// The number of measurements within the window.
    pub fn total_count(&self) -> (count: u32)
        ensures
            count == self@.total_count,
    {
        self.total.count
    }

    /// The size of the window.
    pub fn window_size(&self) -> (size: Duration)
        ensures
            size@ == self@.window_size,
    {
        self.window_size
    }

    /// The size of a bin.
    pub fn bin_size(&self) -> (size: Duration)
        ensures
            size@ == self@.bin_size,
    {
        self.bin_size
    }

    /// The bins that are held, from the oldest to the newest.
    pub fn bins(&self) -> (bins: Vec<Bin>)
        ensures
            bin_views(bins@) == self@.bins,
    {
        let mut bins: Vec<Bin> = Vec::new();
        let len = self.bins.len();
        let mut i: usize = 0;
        while i < len
            invariant
                len == self.bins@.len(),
                i <= len,
                bins@ == self.bins@.subrange(0, i as int),
            decreases len - i,
        {
            bins.push(self.bins[i]);
            i = i + 1;
            assert(bins@ =~= self.bins@.subrange(0, i as int));
        }
        assert(bins@ =~= self.bins@);
        bins
    }
}

/// The bins for which room is set aside at the start: as many as the window
/// has room for, both sizes taken in whole milliseconds; one where a bin is
/// shorter than a millisecond; and never more than `MAX_INITIAL_BINS`.
pub open spec fn initial_bins(window_size: nat, bin_size: nat) -> nat {
    let bin_millis = bin_size / (NANOS_PER_MILLI as nat);
    let window_millis = window_size / (NANOS_PER_MILLI as nat);
    if bin_millis == 0 {
        1
    } else if window_millis / bin_millis < MAX_INITIAL_BINS {
        window_millis / bin_millis
    } else {
        MAX_INITIAL_BINS as nat
    }
}

/// The bins for which room is set aside at the start.
fn initial_capacity(window_size: Duration, bin_size: Duration) -> (capacity: usize)
    ensures
        capacity == initial_bins(window_size@, bin_size@),
{
    let bin_millis: u128 = bin_size.as_millis();
    if bin_millis > 0 {
        let wanted: u128 = window_size.as_millis() / bin_millis;
        if wanted < MAX_INITIAL_BINS as u128 {
            wanted as usize
        } else {
            MAX_INITIAL_BINS
        }
    } else {
        1
    }
}

pub(crate) proof fn lemma_sum_push(bins: Seq<BinView>, bin: BinView)
    ensures
        sum_count(bins.push(bin)) == sum_count(bins) + bin.count,
        sum_duration(bins.push(bin)) == sum_duration(bins) + bin.duration,
{
    assert(bins.push(bin).drop_last() =~= bins);
}

pub(crate) proof fn lemma_sum_last(bins: Seq<BinView>)
    requires
        bins.len() > 0,
    ensures
        sum_count(bins) == sum_count(bins.drop_last()) + bins.last().count,
        sum_duration(bins) == sum_duration(bins.drop_last()) + bins.last().duration,
{
}

proof fn lemma_sum_first(bins: Seq<BinView>)
    requires
        bins.len() > 0,
    ensures
        sum_count(bins) == bins[0].count + sum_count(bins.subrange(1, bins.len() as int)),
        sum_duration(bins) == bins[0].duration + sum_duration(
            bins.subrange(1, bins.len() as int),
        ),
    decreases bins.len(),
{
    let rest = bins.subrange(1, bins.len() as int);
    if bins.len() == 1 {
        assert(bins.drop_last() =~= Seq::<BinView>::empty());
        assert(rest =~= Seq::<BinView>::empty());
    } else {
        lemma_sum_first(bins.drop_last());
        assert(bins.drop_last().subrange(1, bins.len() - 1) =~= rest.drop_last());
        assert(rest.last() == bins.last());
    }
}

/// `evict` lets a number of the oldest bins go, all of them expired, and
/// stops at the first that is not.
pub(crate) proof fn lemma_evict_shape(bins: Seq<BinView>, now: nat, window: nat) -> (gone: nat)
    ensures
        gone <= bins.len(),
        evict(bins, now, window) == bins.subrange(gone as int, bins.len() as int),
        forall|i: int| 0 <= i < gone ==> expired((#[trigger] bins[i]).start, now, window),
        gone < bins.len() ==> !expired(bins[gone as int].start, now, window),
    decreases bins.len(),
{
    if bins.len() > 0 && expired(bins[0].start, now, window) {
        let rest = bins.subrange(1, bins.len() as int);
        let further = lemma_evict_shape(rest, now, window);
        let gone = further + 1;
        assert(rest.subrange(further as int, rest.len() as int) =~= bins.subrange(
            gone as int,
            bins.len() as int,
        ));
        assert forall|i: int| 0 <= i < gone implies expired(
            (#[trigger] bins[i]).start,
            now,
            window,
        ) by {
            if i > 0 {
                assert(bins[i] == rest[i - 1]);
            }
        }
        if gone < bins.len() {
            assert(bins[gone as int] == rest[further as int]);
        }
        gone
    } else {
        assert(bins.subrange(0, bins.len() as int) =~= bins);
        0
    }
}

/// Putting a measurement into the newest bin keeps the bins spaced, and
/// with a gap above zero in order.
pub(crate) proof fn lemma_accumulate_keeps_order(bins: Seq<BinView>, gap: nat, now: nat, value: nat)
    requires
        spaced(bins, gap),
        gap > 0 ==> ascending(bins),
    ensures
        spaced(accumulate(bins, gap, now, value), gap),
        gap > 0 ==> ascending(accumulate(bins, gap, now, value)),
        ascending(bins) && arrives_in_order(bins, now) ==> ascending(
            accumulate(bins, gap, now, value),
        ),
{
    reveal(spaced);
    reveal(ascending);
    let filled = accumulate(bins, gap, now, value);
    assert forall|i: int| 0 <= i && i + 1 < filled.len() implies #[trigger] gap_after(filled, i)
        >= gap by {
        if i + 1 < bins.len() {
            assert(gap_after(bins, i) >= gap);
        }
    }
    if gap > 0 || (ascending(bins) && arrives_in_order(bins, now)) {
        assert forall|i: int, j: int| 0 <= i <= j < filled.len() implies #[trigger] in_order(
            filled,
            i,
            j,
        ) by {
            if j < bins.len() {
                assert(in_order(bins, i, j));
            } else if i < bins.len() {
                assert(in_order(bins, i, bins.len() - 1));
            }
        }
    }
}

/// Bins that are spaced stay so when some of the oldest go, and likewise
/// bins that are in order.
pub(crate) proof fn lemma_suffix_keeps_order(bins: Seq<BinView>, gap: nat, gone: int)
    requires
        0 <= gone <= bins.len(),
        spaced(bins, gap),
    ensures
        spaced(bins.subrange(gone, bins.len() as int), gap),
        ascending(bins) ==> ascending(bins.subrange(gone, bins.len() as int)),
{
    reveal(spaced);
    reveal(ascending);
    let stay = bins.subrange(gone, bins.len() as int);
    assert forall|i: int| 0 <= i && i + 1 < stay.len() implies #[trigger] gap_after(stay, i)
        >= gap by {
        assert(gap_after(bins, i + gone) >= gap);
    }
    if ascending(bins) {
        assert forall|i: int, j: int| 0 <= i <= j < stay.len() implies #[trigger] in_order(
            stay,
            i,
            j,
        ) by {
            assert(in_order(bins, i + gone, j + gone));
        }
    }
}

/// Of bins in order, those that `evict` leaves are not expired.
pub(crate) proof fn lemma_evict_leaves_none_expired(bins: Seq<BinView>, now: nat, window: nat)
    requires
        ascending(bins),
    ensures
        none_expired(evict(bins, now, window), now, window),
{
    reveal(ascending);
    let stay = evict(bins, now, window);
    let gone = lemma_evict_shape(bins, now, window);
    assert forall|i: int| 0 <= i < stay.len() implies !expired(
        (#[trigger] stay[i]).start,
        now,
        window,
    ) by {
        assert(stay[i] == bins[i + gone]);
        assert(in_order(bins, gone as int, i + gone));
    }
}

/// Adding a measurement keeps the bins spaced, and with a gap above zero in
/// order and fresh; none of those that stay is then expired, nor where the
/// bins were in order and the measurement does not come late.
proof fn lemma_add_keeps_order(bins: Seq<BinView>, gap: nat, window: nat, now: nat, value: nat)
    requires
        spaced(bins, gap),
        gap > 0 ==> ascending(bins) && fresh(bins, window),
    ensures
        ({
            let stay = evict(accumulate(bins, gap, now, value), now, window);
            &&& spaced(stay, gap)
            &&& gap > 0 ==> ascending(stay) && fresh(stay, window) && none_expired(
                stay,
                now,
                window,
            )
            &&& ascending(bins) && arrives_in_order(bins, now) ==> ascending(stay)
                && none_expired(stay, now, window)
        }),
{
    reveal(fresh);
    let filled = accumulate(bins, gap, now, value);
    let stay = evict(filled, now, window);
    let gone = lemma_evict_shape(filled, now, window);
    lemma_accumulate_keeps_order(bins, gap, now, value);
    lemma_suffix_keeps_order(filled, gap, gone as int);
    if ascending(filled) {
        lemma_evict_leaves_none_expired(filled, now, window);
    }
    if gap > 0 {
        assert forall|i: int| 0 <= i < stay.len() implies span_between(
            (#[trigger] stay[i]).start,
            stay.last().start,
        ) < window by {
            assert(stay.last() == filled.last());
            assert(stay[i] == filled[i + gone]);
            if opens_bin(bins, gap, now) {
                assert(!expired(stay[i].start, now, window));
            } else {
                assert(filled[i + gone].start == bins[i + gone].start);
                assert(span_between(bins[i + gone].start, bins.last().start) < window);
            }
        }
    }
}

/// Bounded memory: with bins of a size above zero, the bins that are held,
/// but for one, fit into the window side by side.
pub proof fn lemma_bins_fit_window(stats: MovingStats)
    requires
        stats.wf(),
        stats@.bin_size > 0,
        stats@.bins.len() > 0,
    ensures
        (stats@.bins.len() - 1) * stats@.bin_size < stats@.window_size,
{
    reveal(fresh);
    let bins = stats@.bins;
    let newest = bins.len() - 1;
    lemma_spaced_distance(bins, stats@.bin_size, newest);
    assert(span_between(bins[0].start, bins.last().start) < stats@.window_size);
}

proof fn lemma_spaced_distance(bins: Seq<BinView>, gap: nat, j: int)
    requires
        spaced(bins, gap),
        gap > 0,
        0 <= j < bins.len(),
    ensures
        bins[j].start >= bins[0].start + j * gap,
    decreases j,
{
    reveal(spaced);
    if j > 0 {
        lemma_spaced_distance(bins, gap, j - 1);
        assert(gap_after(bins, j - 1) >= gap);
        assert(j * gap == (j - 1) * gap + gap) by (nonlinear_arith);
    } else {
        assert(j * gap == 0) by (nonlinear_arith)
            requires
                j == 0,
        ;
    }
}

} // verus!
