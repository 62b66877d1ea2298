use graph_util::backoff::backoff_delay;
use graph_util::retry::{
    decide, retry, AttemptOutcome, DeadlineError, Decision, RetryConfigProperty, RetryPolicy,
};
use graph_util::time::Duration;
use std::sync::Mutex;

/// Makes attempts until the policy ends the run; gives the result, the
/// delays that lay between the attempts and for each whether it was to be
/// logged.
fn drive<P, I, E, F>(
    policy: &RetryPolicy<P, I, E>,
    try_it: F,
) -> (Result<I, DeadlineError<E>>, Vec<(Duration, bool)>)
where
    P: Fn(&Result<I, E>) -> bool,
    F: Fn() -> Result<I, DeadlineError<E>>,
{
    let mut state = policy.start();
    assert_eq!(0, state.attempt_count());
    let mut waits = Vec::new();
    loop {
        assert!(state.attempt_count() < u64::MAX);
        match policy.on_attempt(&mut state, try_it()) {
            Decision::Finish(result) => {
                assert_eq!(waits.len() as u64 + 1, state.attempt_count());
                return (result, waits);
            }
            Decision::Retry { delay, log } => waits.push((delay, log)),
        }
    }
}

fn unwrap_inner<I, E>(result: Result<I, DeadlineError<E>>) -> Result<I, E> {
    result.map_err(|e| e.into_inner().unwrap())
}

#[test]
fn test() {
    let c = Mutex::new(0);
    let policy = retry("test")
        .when_err()
        .no_logging()
        .no_limit()
        .no_timeout()
        .policy();
    let (result, waits) = drive(&policy, move || {
        let mut c_guard = c.lock().unwrap();
        *c_guard += 1;

        if *c_guard >= 10 {
            Ok(*c_guard)
        } else {
            Err(DeadlineError::Inner(()))
        }
    });
    assert_eq!(unwrap_inner(result), Ok(10));
    assert_eq!(9, waits.len());
}

#[test]
fn limit_reached() {
    let c = Mutex::new(0);
    let policy = retry("test")
        .when_err()
        .no_logging()
        .limit(5)
        .no_timeout()
        .policy();
    let (result, waits) = drive(&policy, move || {
        let mut c_guard = c.lock().unwrap();
        *c_guard += 1;

        if *c_guard >= 10 {
            Ok(*c_guard)
        } else {
            Err(DeadlineError::Inner(*c_guard))
        }
    });
    assert_eq!(unwrap_inner(result), Err(5));
    assert_eq!(4, waits.len());
}

#[test]
fn limit_not_reached() {
    let c = Mutex::new(0);
    let policy = retry("test")
        .when_err()
        .no_logging()
        .limit(20)
        .no_timeout()
        .policy();
    let (result, waits) = drive(&policy, move || {
        let mut c_guard = c.lock().unwrap();
        *c_guard += 1;

        if *c_guard >= 10 {
            Ok(*c_guard)
        } else {
            Err(DeadlineError::Inner(*c_guard))
        }
    });
    assert_eq!(unwrap_inner(result), Ok(10));
    assert_eq!(9, waits.len());
}

#[test]
fn every_limit_gives_that_many_attempts() {
    for limit in 1..30usize {
        let c = Mutex::new(0usize);
        let policy = retry("test").when_err().limit(limit).no_timeout().policy();
        let (result, waits): (Result<(), _>, _) = drive(&policy, || {
            let mut c_guard = c.lock().unwrap();
            *c_guard += 1;
            Err(DeadlineError::Inner(*c_guard))
        });
        assert_eq!(Err(DeadlineError::Inner(limit)), result);
        assert_eq!(limit, *c.lock().unwrap());
        assert_eq!(limit - 1, waits.len());
    }
}

#[test]
fn limit_of_one_makes_one_attempt_without_delay() {
    let c = Mutex::new(0);
    let policy = retry("once").when_err().limit(1).timeout_secs(1).policy();
    let (result, waits): (Result<(), _>, _) = drive(&policy, || {
        let mut c_guard = c.lock().unwrap();
        *c_guard += 1;
        Err(DeadlineError::Inner("failed"))
    });
    assert_eq!(Err(DeadlineError::Inner("failed")), result);
    assert_eq!(1, *c.lock().unwrap());
    assert!(waits.is_empty());

    let timed_out = retry("once").when_err().limit(1).timeout_secs(1).policy();
    let (result, waits): (Result<(), DeadlineError<()>>, _) =
        drive(&timed_out, || Err(DeadlineError::Elapsed));
    assert_eq!(Err(DeadlineError::Elapsed), result);
    assert!(waits.is_empty());
}

#[test]
fn terminal_failure_stops_at_once() {
    let c = Mutex::new(0);
    let policy = retry("test")
        .when(|result: &Result<u32, u32>| match result {
            Err(code) => *code < 3,
            Ok(_) => false,
        })
        .no_limit()
        .no_timeout()
        .policy();
    let (result, waits) = drive(&policy, || {
        let mut c_guard = c.lock().unwrap();
        *c_guard += 1;
        Err(DeadlineError::Inner(*c_guard))
    });
    assert_eq!(Err(DeadlineError::Inner(3)), result);
    assert_eq!(2, waits.len());

    let never = retry("test")
        .when(|_: &Result<u32, u32>| false)
        .no_limit()
        .no_timeout()
        .policy();
    let (result, waits) = drive(&never, || Err(DeadlineError::Inner(7)));
    assert_eq!(Err(DeadlineError::Inner(7)), result);
    assert!(waits.is_empty());
}

#[test]
fn success_ends_the_run_whatever_the_predicate() {
    let policy = retry("test")
        .when(|_: &Result<u32, ()>| true)
        .no_limit()
        .no_timeout()
        .policy();
    let (result, waits) = drive(&policy, || Ok(1));
    assert_eq!(Ok(1), result);
    assert!(waits.is_empty());
}

#[test]
fn timeout_is_retried_whatever_the_predicate() {
    let c = Mutex::new(0);
    let policy = retry("test")
        .when(|_: &Result<u32, ()>| false)
        .limit(3)
        .timeout_millis(10)
        .policy();
    let (result, waits) = drive(&policy, || {
        let mut c_guard = c.lock().unwrap();
        *c_guard += 1;
        Err(DeadlineError::Elapsed)
    });
    assert_eq!(Err(DeadlineError::Elapsed), result);
    assert_eq!(3, *c.lock().unwrap());
    assert_eq!(2, waits.len());
}

#[test]
fn fetch_that_always_times_out() {
    let c = Mutex::new(0);
    let policy = retry("fetch")
        .when_err()
        .log_after(1)
        .limit(5)
        .timeout_secs(30)
        .policy();
    assert_eq!("fetch", policy.operation_name());
    assert_eq!(Some(Duration::from_secs(30)), policy.timeout());
    assert_eq!(Some(5), policy.limit());
    assert_eq!(1, policy.log_after());
    let (result, waits): (Result<u32, DeadlineError<()>>, _) = drive(&policy, || {
        let mut c_guard = c.lock().unwrap();
        *c_guard += 1;
        Err(DeadlineError::Elapsed)
    });
    assert_eq!(Err(DeadlineError::Elapsed), result);
    assert!(result.unwrap_err().is_elapsed());
    assert_eq!(5, *c.lock().unwrap());
    assert_eq!(4, waits.len());
    for (index, (delay, log)) in waits.iter().enumerate() {
        assert!(*delay <= backoff_delay(index as u64));
        assert!(*log);
    }
}

#[test]
fn last_error_is_returned_when_attempts_run_out() {
    let c = Mutex::new(0);
    let policy = retry("mixed").when_err().limit(4).timeout_secs(1).policy();
    let (result, _): (Result<(), _>, _) = drive(&policy, || {
        let mut c_guard = c.lock().unwrap();
        *c_guard += 1;
        if *c_guard % 2 == 1 {
            Err(DeadlineError::Elapsed)
        } else {
            Err(DeadlineError::Inner(*c_guard))
        }
    });
    assert_eq!(Err(DeadlineError::Inner(4)), result);
}

#[test]
fn retries_are_logged_from_the_threshold_on() {
    let policy = retry("test").when_err().log_after(3).limit(6).no_timeout().policy();
    let (_, waits): (Result<(), DeadlineError<()>>, _) =
        drive(&policy, || Err(DeadlineError::Inner(())));
    let logged: Vec<bool> = waits.iter().map(|(_, log)| *log).collect();
    assert_eq!(vec![false, false, true, true, true], logged);

    let by_default = retry("test").when_err().limit(3).no_timeout().policy();
    assert_eq!(1, by_default.log_after());
    let (_, waits): (Result<(), DeadlineError<()>>, _) =
        drive(&by_default, || Err(DeadlineError::Inner(())));
    assert_eq!(vec![true, true], waits.iter().map(|(_, log)| *log).collect::<Vec<bool>>());

    let silent = retry("test").when_err().no_logging().limit(3).no_timeout().policy();
    assert_eq!(u64::MAX, silent.log_after());
    let (_, waits): (Result<(), DeadlineError<()>>, _) =
        drive(&silent, || Err(DeadlineError::Inner(())));
    assert_eq!(vec![false, false], waits.iter().map(|(_, log)| *log).collect::<Vec<bool>>());
}

#[test]
fn delays_stay_within_the_backoff() {
    let policy = retry("test").when_err().limit(40).no_timeout().policy();
    let (_, waits): (Result<(), DeadlineError<()>>, _) =
        drive(&policy, || Err(DeadlineError::Inner(())));
    assert_eq!(39, waits.len());
    for (index, (delay, _)) in waits.iter().enumerate() {
        assert!(*delay <= backoff_delay(index as u64));
        assert!(*delay <= Duration::from_secs(30));
    }
}

#[test]
fn policy_keeps_what_was_configured() {
    let with_timeout = retry("a").when_err().no_limit().timeout_millis(1_500).policy();
    let _: &RetryPolicy<_, (), ()> = &with_timeout;
    assert_eq!(Some(Duration::from_millis(1_500)), with_timeout.timeout());
    assert_eq!(None, with_timeout.limit());
    let exact = retry("b")
        .when_err()
        .limit(2)
        .timeout(Duration::from_nanos(17).unwrap())
        .policy();
    let _: &RetryPolicy<_, (), ()> = &exact;
    assert_eq!(Duration::from_nanos(17), exact.timeout());
    assert_eq!(Some(2), exact.limit());
    let without = retry(&String::from("c")).when_err().no_limit().no_timeout().policy();
    let _: &RetryPolicy<_, (), ()> = &without;
    assert_eq!(None, without.timeout());
    assert_eq!("c", without.operation_name());
}

#[test]
fn classify_asks_the_predicate_about_errors_only() {
    let asked = Mutex::new(0);
    let policy = retry("test")
        .when(|result: &Result<u8, u8>| {
            *asked.lock().unwrap() += 1;
            matches!(result, Err(1))
        })
        .no_limit()
        .no_timeout()
        .policy();
    assert_eq!(AttemptOutcome::Success(9), policy.classify(Ok(9)));
    assert_eq!(AttemptOutcome::TimedOut, policy.classify(Err(DeadlineError::Elapsed)));
    assert_eq!(0, *asked.lock().unwrap());
    assert_eq!(
        AttemptOutcome::RetryableFailure(1),
        policy.classify(Err(DeadlineError::Inner(1)))
    );
    assert_eq!(
        AttemptOutcome::TerminalFailure(2),
        policy.classify(Err(DeadlineError::Inner(2)))
    );
    assert_eq!(2, *asked.lock().unwrap());
}

#[test]
fn decide_for_each_outcome() {
    let delay = Duration::from_millis(4);
    let success: AttemptOutcome<u8, u8> = AttemptOutcome::Success(1);
    assert_eq!(Decision::Finish(Ok(1)), decide(1, 1, success, Some(delay)));
    let terminal: AttemptOutcome<u8, u8> = AttemptOutcome::TerminalFailure(2);
    assert_eq!(
        Decision::Finish(Err(DeadlineError::Inner(2))),
        decide(1, 1, terminal, Some(delay))
    );
    let retryable: AttemptOutcome<u8, u8> = AttemptOutcome::RetryableFailure(3);
    assert_eq!(Decision::Retry { delay, log: true }, decide(2, 2, retryable, Some(delay)));
    let retryable: AttemptOutcome<u8, u8> = AttemptOutcome::RetryableFailure(3);
    assert_eq!(Decision::Retry { delay, log: false }, decide(3, 2, retryable, Some(delay)));
    let retryable: AttemptOutcome<u8, u8> = AttemptOutcome::RetryableFailure(3);
    assert_eq!(Decision::Finish(Err(DeadlineError::Inner(3))), decide(1, 2, retryable, None));
    let timed_out: AttemptOutcome<u8, u8> = AttemptOutcome::TimedOut;
    assert_eq!(Decision::Retry { delay, log: true }, decide(1, 5, timed_out, Some(delay)));
    let timed_out: AttemptOutcome<u8, u8> = AttemptOutcome::TimedOut;
    assert_eq!(Decision::Finish(Err(DeadlineError::Elapsed)), decide(1, 5, timed_out, None));
}

#[test]
fn deadline_error_parts() {
    let inner: DeadlineError<u8> = DeadlineError::Inner(4);
    assert!(!inner.is_elapsed());
    assert_eq!(Some(4), inner.into_inner());
    let elapsed: DeadlineError<u8> = DeadlineError::Elapsed;
    assert!(elapsed.is_elapsed());
    assert_eq!(None, elapsed.into_inner());
}

#[test]
fn property_is_made_once() {
    let mut limit: RetryConfigProperty<usize> = RetryConfigProperty::Unknown;
    limit.set(3);
    assert_eq!(RetryConfigProperty::Given(3), limit);
    assert_eq!(Some(3), limit.unwrap());
    let mut lifted: RetryConfigProperty<usize> = RetryConfigProperty::Unknown;
    lifted.clear();
    assert_eq!(RetryConfigProperty::Clear, lifted);
    assert_eq!(None, lifted.unwrap());
}

#[test]
fn policy_serves_many_runs() {
    let policy = retry("test").when_err().limit(3).no_timeout().policy();
    for _ in 0..4 {
        let c = Mutex::new(0);
        let (result, waits): (Result<(), _>, _) = drive(&policy, || {
            let mut c_guard = c.lock().unwrap();
            *c_guard += 1;
            Err(DeadlineError::Inner(*c_guard))
        });
        assert_eq!(Err(DeadlineError::Inner(3)), result);
        assert_eq!(2, waits.len());
    }
}
