//! Spans of time and points on a timeline, held as whole nanoseconds.

use vstd::prelude::*;

verus! {

/// The number of nanoseconds in one second.
pub const NANOS_PER_SEC: u128 = 1_000_000_000;

/// The number of nanoseconds in one millisecond.
pub const NANOS_PER_MILLI: u128 = 1_000_000;

/// The longest span a `Duration` can hold: `u64::MAX` seconds and 999,999,999
/// nanoseconds.
pub const MAX_NANOS: u128 = 18_446_744_073_709_551_615_999_999_999;

/// A span of time with nanosecond precision.
///
/// Its view is the span in nanoseconds, which never exceeds [`MAX_NANOS`].
#[derive(Clone, Copy, Debug, PartialEq, Eq, PartialOrd, Ord, Hash)]
pub struct Duration {
    nanos: u128,
}

impl View for Duration {
    type V = nat;

    closed spec fn view(&self) -> nat {
        self.nanos as nat
    }
}

impl Duration {
    #[verifier::type_invariant]
    spec fn in_range(self) -> bool {
        self.nanos <= MAX_NANOS
    }

    /// The empty span.
    pub fn zero() -> (d: Duration)
        ensures
            d@ == 0,
    {
        Duration { nanos: 0 }
    }

    /// The span of `secs` whole seconds.
    pub fn from_secs(secs: u64) -> (d: Duration)
        ensures
            d@ == secs * NANOS_PER_SEC,
    {
        let wide: u128 = secs as u128;
        Duration { nanos: wide * NANOS_PER_SEC }
    }

    /// The span of `millis` whole milliseconds.
    pub fn from_millis(millis: u64) -> (d: Duration)
        ensures
            d@ == millis * NANOS_PER_MILLI,
    {
        let wide: u128 = millis as u128;
        Duration { nanos: wide * NANOS_PER_MILLI }
    }

    /// The span of `nanos` nanoseconds, unless it is longer than
    /// [`MAX_NANOS`].
    pub fn from_nanos(nanos: u128) -> (d: Option<Duration>)
        ensures
            d is Some <==> nanos <= MAX_NANOS,
            d matches Some(span) ==> span@ == nanos,
    {
        if nanos <= MAX_NANOS {
            Some(Duration { nanos })
        } else {
            None
        }
    }

    /// The span in nanoseconds.
    pub fn as_nanos(&self) -> (n: u128)
        ensures
            n == self@,
            n <= MAX_NANOS,
    {
        proof {
            use_type_invariant(self);
        }
        self.nanos
    }

    /// The whole milliseconds in the span.
    pub fn as_millis(&self) -> (n: u128)
        ensures
            n == self@ / (NANOS_PER_MILLI as nat),
    {
        self.nanos / NANOS_PER_MILLI
    }

    /// The whole seconds in the span.
    pub fn as_secs(&self) -> (n: u64)
        ensures
            n == self@ / (NANOS_PER_SEC as nat),
    {
        proof {
            use_type_invariant(self);
        }
        let secs: u128 = self.nanos / NANOS_PER_SEC;
        secs as u64
    }

    /// The sum of two spans, unless it is longer than [`MAX_NANOS`].
    pub fn checked_add(self, rhs: Duration) -> (sum: Option<Duration>)
        ensures
            sum is Some <==> self@ + rhs@ <= MAX_NANOS,
            sum matches Some(d) ==> d@ == self@ + rhs@,
    {
        proof {
            use_type_invariant(self);
            use_type_invariant(rhs);
        }
        let nanos: u128 = self.nanos + rhs.nanos;
        if nanos <= MAX_NANOS {
            Some(Duration { nanos })
        } else {
            None
        }
    }

    /// The difference of two spans, unless `rhs` is the longer one.
    pub fn checked_sub(self, rhs: Duration) -> (diff: Option<Duration>)
        ensures
            diff is Some <==> rhs@ <= self@,
            diff matches Some(d) ==> d@ == self@ - rhs@,
    {
        proof {
            use_type_invariant(self);
        }
        if rhs.nanos <= self.nanos {
            Some(Duration { nanos: self.nanos - rhs.nanos })
        } else {
            None
        }
    }

    /// The span repeated `rhs` times, unless that is longer than
    /// [`MAX_NANOS`].
    pub fn checked_mul(self, rhs: u32) -> (product: Option<Duration>)
        ensures
            product is Some <==> self@ * rhs <= MAX_NANOS,
            product matches Some(d) ==> d@ == self@ * rhs,
    {
        proof {
            use_type_invariant(self);
            assert(self.nanos * rhs <= MAX_NANOS * 0xffff_ffff) by (nonlinear_arith)
                requires
                    self.nanos <= MAX_NANOS,
                    rhs <= 0xffff_ffff,
            ;
        }
        let wide: u128 = rhs as u128;
        let nanos: u128 = self.nanos * wide;
        if nanos <= MAX_NANOS {
            Some(Duration { nanos })
        } else {
            None
        }
    }

    /// The span cut into `rhs` equal parts, rounded down to the nanosecond,
    /// unless `rhs` is zero.
    pub fn checked_div(self, rhs: u32) -> (quotient: Option<Duration>)
        ensures
            quotient is Some <==> rhs != 0,
            quotient matches Some(d) ==> d@ == self@ / (rhs as nat),
    {
        proof {
            use_type_invariant(self);
        }
        if rhs == 0 {
            None
        } else {
            let wide: u128 = rhs as u128;
            let nanos: u128 = self.nanos / wide;
            assert(nanos <= self.nanos) by (nonlinear_arith)
                requires
                    nanos == self.nanos / wide,
                    wide >= 1,
            ;
            Some(Duration { nanos })
        }
    }
}

/// A point on a timeline that starts when its clock does.
///
/// Its view is the time from the clock's start to the point, in
/// nanoseconds, which never exceeds [`MAX_NANOS`].
#[derive(Clone, Copy, Debug, PartialEq, Eq, PartialOrd, Ord, Hash)]
pub struct Instant {
    nanos: u128,
}

impl View for Instant {
    type V = nat;

    closed spec fn view(&self) -> nat {
        self.nanos as nat
    }
}

impl Instant {
    #[verifier::type_invariant]
    spec fn in_range(self) -> bool {
        self.nanos <= MAX_NANOS
    }

    /// The point that lies `elapsed` after the clock's start.
    pub fn after_start(elapsed: Duration) -> (t: Instant)
        ensures
            t@ == elapsed@,
    {
        Instant { nanos: elapsed.as_nanos() }
    }

    /// The time from the clock's start to this point.
    pub fn since_start(&self) -> (elapsed: Duration)
        ensures
            elapsed@ == self@,
    {
        proof {
            use_type_invariant(self);
        }
        Duration { nanos: self.nanos }
    }

    /// The point that lies `span` later, unless the timeline ends before it.
    pub fn checked_add(self, span: Duration) -> (later: Option<Instant>)
        ensures
            later is Some <==> self@ + span@ <= MAX_NANOS,
            later matches Some(t) ==> t@ == self@ + span@,
    {
        proof {
            use_type_invariant(self);
        }
        let nanos: u128 = self.nanos + span.as_nanos();
        if nanos <= MAX_NANOS {
            Some(Instant { nanos })
        } else {
            None
        }
    }

    /// The time that passed from `earlier` to this point, or the empty span
    /// where `earlier` is in fact the later of the two.
    pub fn saturating_duration_since(self, earlier: Instant) -> (elapsed: Duration)
        ensures
            elapsed@ == span_between(earlier@, self@),
    {
        proof {
            use_type_invariant(self);
        }
        if earlier.nanos <= self.nanos {
            Duration { nanos: self.nanos - earlier.nanos }
        } else {
            Duration { nanos: 0 }
        }
    }
}

/// The time from `earlier` to `later`, both in nanoseconds on one timeline;
/// zero where `earlier` is in fact the later of the two.
pub open spec fn span_between(earlier: nat, later: nat) -> nat {
    if earlier <= later {
        (later - earlier) as nat
    } else {
        0
    }
}

/// `std::time::Instant`, a reading of the system's monotonic clock. Nothing
/// is known of what such a value holds: it is kept and handed back only.
#[verifier::external_type_specification]
#[verifier::external_body]
pub struct ExStdInstant(std::time::Instant);

/// A monotonic clock whose timeline starts when the clock is made.
#[derive(Clone, Copy, Debug)]
pub struct Clock {
    origin: std::time::Instant,
}

impl Clock {
    /// Starts a clock at the present moment.
    ///
    /// Reads the system's monotonic clock with `std::time::Instant::now`.
    /// Nothing is claimed of the moment that it returns.
    #[verifier::external_body]
    pub(crate) fn start() -> Clock {
        Clock { origin: std::time::Instant::now() }
    }

    /// The present moment on this clock's timeline.
    ///
    /// Asks `std::time::Instant::elapsed` for the time since the clock was
    /// started. Nothing is claimed of how long that is, beyond what every
    /// `Instant` of this library holds: that it is at most [`MAX_NANOS`],
    /// the longest span that the standard library's durations can hold.
    #[verifier::external_body]
    pub(crate) fn now(&self) -> Instant {
        Instant { nanos: self.origin.elapsed().as_nanos() }
    }
}

} // verus!
