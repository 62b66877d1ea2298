use graph_util::stats::{Bin, MovingStats, MAX_INITIAL_BINS};
use graph_util::time::{Duration, Instant, MAX_NANOS};

fn at(start: Instant, offset: Duration) -> Instant {
    start.checked_add(offset).unwrap()
}

#[test]
fn add_one_const() {
    let mut stats = MovingStats::new(Duration::from_secs(5), Duration::from_secs(1));
    let start = Instant::after_start(Duration::from_secs(3));
    for i in 0..10 {
        stats.add_at(at(start, Duration::from_secs(i)), Duration::from_secs(1));
    }
    let bins = stats.bins();
    assert_eq!(5, bins.len());
    for (i, bin) in bins.iter().enumerate() {
        assert_eq!(1, bin.count);
        assert_eq!(Duration::from_secs(1), bin.duration);
        assert_eq!(
            Duration::from_secs(i as u64 + 5),
            bin.start.saturating_duration_since(start)
        );
    }
    assert_eq!(5, stats.total_count());
    assert_eq!(Duration::from_secs(5), stats.duration());
    assert!(stats.average_gt(Duration::from_millis(900)));
    assert!(!stats.average_gt(Duration::from_secs(1)));
}

#[test]
fn add_four_linear() {
    let mut stats = MovingStats::new(Duration::from_secs(5), Duration::from_secs(1));
    let start = Instant::after_start(Duration::from_secs(3));
    for i in 0..40 {
        stats.add_at(
            at(start, Duration::from_millis(250 * i)),
            Duration::from_secs(i),
        );
    }
    let bins = stats.bins();
    assert_eq!(5, bins.len());
    for (b, bin) in bins.iter().enumerate() {
        assert_eq!(4, bin.count);
        assert_eq!(Duration::from_secs(86 + 16 * b as u64), bin.duration);
    }
    assert_eq!(20, stats.total_count());
    assert_eq!(Duration::from_secs(5 * 86 + 16 * 10), stats.duration());
}

#[test]
fn new_stats_are_empty() {
    let stats = MovingStats::new(Duration::from_secs(300), Duration::from_secs(1));
    assert_eq!(0, stats.bins().len());
    assert_eq!(0, stats.total_count());
    assert_eq!(Duration::zero(), stats.duration());
    assert_eq!(Duration::zero(), stats.total_duration());
    assert_eq!(Duration::from_secs(300), stats.window_size());
    assert_eq!(Duration::from_secs(1), stats.bin_size());
    assert_eq!(None, stats.average());
    assert!(!stats.average_gt(Duration::zero()));
}

#[test]
fn new_accepts_extreme_sizes() {
    let longest = Duration::from_nanos(MAX_NANOS).unwrap();
    let mut wide = MovingStats::new(longest, Duration::from_millis(1));
    wide.add_at(Instant::after_start(Duration::zero()), Duration::from_secs(1));
    assert_eq!(1, wide.total_count());
    let mut fine = MovingStats::new(Duration::from_secs(1), Duration::zero());
    fine.add_at(Instant::after_start(Duration::zero()), Duration::from_secs(1));
    assert_eq!(1, fine.total_count());
    assert!(MAX_INITIAL_BINS >= 1);
}

#[test]
fn total_is_the_sum_over_the_bins() {
    let mut stats = MovingStats::new(Duration::from_secs(4), Duration::from_secs(2));
    let start = Instant::after_start(Duration::zero());
    for i in 0..25u64 {
        stats.add_at(
            at(start, Duration::from_millis(700 * i)),
            Duration::from_millis(10 + i),
        );
        let bins = stats.bins();
        let count: u32 = bins.iter().map(|bin| bin.count).sum();
        let nanos: u128 = bins.iter().map(|bin| bin.duration.as_nanos()).sum();
        assert_eq!(count, stats.total_count());
        assert_eq!(nanos, stats.total_duration().as_nanos());
    }
}

#[test]
fn measurements_share_a_bin_until_it_is_full() {
    let mut stats = MovingStats::new(Duration::from_secs(10), Duration::from_secs(1));
    let start = Instant::after_start(Duration::from_secs(1));
    stats.add_at(start, Duration::from_millis(5));
    stats.add_at(at(start, Duration::from_millis(999)), Duration::from_millis(7));
    let bins = stats.bins();
    assert_eq!(1, bins.len());
    assert_eq!(2, bins[0].count);
    assert_eq!(Duration::from_millis(12), bins[0].duration);
    assert_eq!(start, bins[0].start);
    stats.add_at(at(start, Duration::from_secs(1)), Duration::from_millis(1));
    let bins = stats.bins();
    assert_eq!(2, bins.len());
    assert_eq!(at(start, Duration::from_secs(1)), bins[1].start);
    assert_eq!(1, bins[1].count);
    assert_eq!(3, stats.total_count());
    assert_eq!(Duration::from_millis(13), stats.duration());
}

#[test]
fn bin_leaves_when_a_whole_window_behind() {
    let mut stats = MovingStats::new(Duration::from_secs(5), Duration::from_secs(1));
    let start = Instant::after_start(Duration::zero());
    stats.add_at(start, Duration::from_secs(2));
    stats.add_at(at(start, Duration::from_millis(4_999)), Duration::from_secs(3));
    assert_eq!(2, stats.bins().len());
    assert_eq!(Duration::from_secs(5), stats.duration());
    stats.add_at(at(start, Duration::from_secs(5)), Duration::from_secs(4));
    let bins = stats.bins();
    assert_eq!(1, bins.len());
    assert_eq!(at(start, Duration::from_millis(4_999)), bins[0].start);
    assert_eq!(Duration::from_secs(7), stats.duration());
    assert_eq!(2, stats.total_count());
}

#[test]
fn bins_fit_the_window() {
    let mut stats = MovingStats::new(Duration::from_secs(5), Duration::from_secs(1));
    let start = Instant::after_start(Duration::zero());
    for i in 0..200u64 {
        stats.add_at(at(start, Duration::from_millis(137 * i)), Duration::from_millis(1));
        let len = stats.bins().len() as u128;
        assert!(len >= 1);
        assert!((len - 1) * stats.bin_size().as_nanos() < stats.window_size().as_nanos());
    }
}

#[test]
fn late_measurement_goes_into_the_newest_bin() {
    let mut stats = MovingStats::new(Duration::from_secs(5), Duration::from_secs(1));
    let start = Instant::after_start(Duration::from_secs(100));
    stats.add_at(start, Duration::from_secs(1));
    stats.add_at(Instant::after_start(Duration::from_secs(10)), Duration::from_secs(2));
    let bins = stats.bins();
    assert_eq!(1, bins.len());
    assert_eq!(start, bins[0].start);
    assert_eq!(2, bins[0].count);
    assert_eq!(Duration::from_secs(3), stats.duration());
}

#[test]
fn empty_window_keeps_nothing() {
    let mut stats = MovingStats::new(Duration::zero(), Duration::from_secs(1));
    stats.add_at(Instant::after_start(Duration::from_secs(1)), Duration::from_secs(9));
    assert_eq!(0, stats.bins().len());
    assert_eq!(0, stats.total_count());
    assert_eq!(Duration::zero(), stats.duration());
    assert_eq!(None, stats.average());
}

#[test]
fn window_shorter_than_a_bin() {
    let mut stats = MovingStats::new(Duration::from_secs(1), Duration::from_secs(5));
    let start = Instant::after_start(Duration::zero());
    stats.add_at(start, Duration::from_secs(1));
    assert_eq!(1, stats.total_count());
    stats.add_at(at(start, Duration::from_secs(2)), Duration::from_secs(1));
    assert_eq!(0, stats.bins().len());
    assert_eq!(0, stats.total_count());
    assert_eq!(Duration::zero(), stats.duration());
    stats.add_at(at(start, Duration::from_secs(3)), Duration::from_secs(4));
    assert_eq!(1, stats.total_count());
    assert_eq!(Duration::from_secs(4), stats.duration());
}

#[test]
fn bins_of_no_size_hold_one_measurement_each() {
    let mut stats = MovingStats::new(Duration::from_secs(5), Duration::zero());
    let start = Instant::after_start(Duration::zero());
    for _ in 0..3 {
        stats.add_at(start, Duration::from_secs(1));
    }
    assert_eq!(3, stats.bins().len());
    assert_eq!(3, stats.total_count());
}

#[test]
fn average_is_total_over_count() {
    let mut stats = MovingStats::new(Duration::from_secs(60), Duration::from_secs(1));
    let start = Instant::after_start(Duration::zero());
    assert_eq!(None, stats.average());
    stats.add_at(start, Duration::from_secs(1));
    stats.add_at(start, Duration::from_secs(2));
    stats.add_at(start, Duration::from_secs(3));
    stats.add_at(start, Duration::from_secs(4));
    assert_eq!(Some(Duration::from_millis(2_500)), stats.average());
    stats.add_at(start, Duration::from_nanos(1).unwrap());
    assert_eq!(Duration::from_nanos(2_000_000_000).ok_or(()), stats.average().ok_or(()));
    assert!(stats.average_gt(Duration::from_millis(1_999)));
    assert!(!stats.average_gt(Duration::from_millis(2_001)));
}

#[test]
fn average_is_none_exactly_when_nothing_is_counted() {
    let mut stats = MovingStats::new(Duration::from_secs(2), Duration::from_secs(1));
    let start = Instant::after_start(Duration::zero());
    for i in 0..6u64 {
        assert_eq!(stats.total_count() == 0, stats.average().is_none());
        stats.add_at(at(start, Duration::from_secs(i)), Duration::zero());
        assert_eq!(stats.total_count() == 0, stats.average().is_none());
    }
    assert_eq!(Some(Duration::zero()), stats.average());
}

#[test]
fn average_gt_does_not_overflow() {
    let start = Instant::after_start(Duration::zero());
    let longest = Duration::from_nanos(MAX_NANOS).unwrap();
    let full = Bin { start, duration: longest, count: u32::MAX };
    assert!(!full.average_gt(longest));
    assert!(!full.average_gt(Duration::from_secs(u64::MAX)));
    assert!(full.average_gt(Duration::from_secs(4_294_967_297)));
    assert!(!full.average_gt(Duration::from_secs(4_294_967_298)));
    assert!(full.average_gt(Duration::zero()));
    let one = Bin { start, duration: longest, count: 1 };
    assert!(!one.average_gt(longest));
    let mut stats = MovingStats::new(Duration::from_secs(5), Duration::from_secs(1));
    stats.add_at(start, longest);
    assert!(stats.average_gt(Duration::from_secs(u64::MAX)));
    assert!(!stats.average_gt(longest));
    stats.add_at(start, Duration::zero());
    assert!(!stats.average_gt(longest));
    assert!(!stats.average_gt(Duration::from_secs(u64::MAX)));
    assert!(stats.average_gt(Duration::from_secs(u64::MAX / 2)));
}

#[test]
fn bin_add_and_remove() {
    let start = Instant::after_start(Duration::from_secs(7));
    let mut bin = Bin::new(start);
    assert_eq!(0, bin.count);
    assert_eq!(Duration::zero(), bin.duration);
    assert_eq!(start, bin.start);
    bin.add(Duration::from_secs(2));
    bin.add(Duration::from_secs(3));
    assert_eq!(2, bin.count);
    assert_eq!(Duration::from_secs(5), bin.duration);
    let mut other = Bin::new(Instant::after_start(Duration::zero()));
    other.add(Duration::from_secs(2));
    bin.remove(&other);
    assert_eq!(1, bin.count);
    assert_eq!(Duration::from_secs(3), bin.duration);
    assert_eq!(start, bin.start);
    assert!(bin.average_gt(Duration::from_millis(2_999)));
    assert!(!bin.average_gt(Duration::from_secs(3)));
}

#[test]
fn add_reads_the_clock() {
    let mut stats = MovingStats::new(Duration::from_secs(3_600), Duration::from_secs(600));
    stats.add(Duration::from_secs(1));
    stats.add(Duration::from_secs(2));
    let bins = stats.bins();
    assert_eq!(1, bins.len());
    assert_eq!(2, bins[0].count);
    assert!(bins[0].start.since_start() < Duration::from_secs(600));
    assert_eq!(2, stats.total_count());
    assert_eq!(Duration::from_secs(3), stats.duration());
}

#[test]
fn window_is_exact_up_to_one_bin() {
    let window = Duration::from_millis(5_000);
    let bin_size = Duration::from_millis(1_000);
    let mut stats = MovingStats::new(window, bin_size);
    let start = Instant::after_start(Duration::from_secs(1));
    let mut log: Vec<(Instant, Duration)> = Vec::new();
    let mut offset = 0u64;
    for i in 0..400u64 {
        offset += (i * 7_919) % 1_700;
        let now = at(start, Duration::from_millis(offset));
        let value = Duration::from_millis(1 + i % 13);
        stats.add_at(now, value);
        log.push((now, value));

        let counted = stats.total_count() as usize;
        assert!(counted >= 1 && counted <= log.len());
        let dropped = log.len() - counted;
        let nanos: u128 = log[dropped..].iter().map(|(_, value)| value.as_nanos()).sum();
        assert_eq!(nanos, stats.total_duration().as_nanos());
        for (taken, _) in log[dropped..].iter() {
            assert!(now.saturating_duration_since(*taken) < window);
        }
        for (taken, _) in log[..dropped].iter() {
            let age = now.saturating_duration_since(*taken);
            assert!(age.checked_add(bin_size).unwrap() > window);
        }
    }
}
