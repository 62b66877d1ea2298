//! Retrying an unreliable operation under a policy.
//!
//! A policy is built in stages: `retry` names the operation, `when` or
//! `when_err` says which failures are worth another attempt, `limit` or
//! `no_limit` bounds the attempts, and `timeout` or `no_timeout` bounds each
//! of them. The finished `RetryPolicy` makes no attempt itself. For each
//! run it is told, together with the state of that run, how each attempt
//! ended, and answers with what to do next: hand a result to the caller, or
//! wait and try again. A policy serves any number of runs.

use crate::backoff::{retry_strategy, within_backoff};
use crate::time::{Duration, NANOS_PER_MILLI, NANOS_PER_SEC};
use std::marker::PhantomData;
use vstd::prelude::*;

verus! {

/// A setting that has to be made exactly once.
#[derive(Clone, Copy, Debug, PartialEq, Eq)]
pub enum RetryConfigProperty<V> {
    /// The setting was given a value.
    Given(V),
    /// The setting was switched off.
    Clear,
    /// The setting was not made yet.
    Unknown,
}

impl<V> RetryConfigProperty<V> {
    /// Gives the setting a value. It must not have been made before.
    pub fn set(&mut self, v: V)
        requires
            *old(self) is Unknown,
        ensures
            *final(self) == RetryConfigProperty::Given(v),
    {
        *self = RetryConfigProperty::Given(v);
    }

    /// Switches the setting off. It must not have been made before.
    pub fn clear(&mut self)
        requires
            *old(self) is Unknown,
        ensures
            *final(self) == RetryConfigProperty::<V>::Clear,
    {
        *self = RetryConfigProperty::Clear;
    }

    /// The value of the setting, if it has one. The setting must have been
    /// made.
    pub fn unwrap(self) -> (value: Option<V>)
        requires
            !(self is Unknown),
        ensures
            value == self.value(),
    {
        match self {
            RetryConfigProperty::Given(v) => Some(v),
            RetryConfigProperty::Clear => None,
            RetryConfigProperty::Unknown => vstd::pervasive::unreached(),
        }
    }

    /// The value of the setting, if it has one.
    pub open spec fn value(self) -> Option<V> {
        match self {
            RetryConfigProperty::Given(v) => Some(v),
            _ => None,
        }
    }
}

/// Why a run gave up: the last attempt failed with an error of its own, or
/// ran out of time.
#[derive(Debug, PartialEq, Eq)]
pub enum DeadlineError<E> {
    /// The attempt ended with this error.
    Inner(E),
    /// The attempt took longer than the timeout allows.
    Elapsed,
}

impl<E> DeadlineError<E> {
    /// Whether the attempt ran out of time.
    pub fn is_elapsed(&self) -> (elapsed: bool)
        ensures
            elapsed == (*self is Elapsed),
    {
        match self {
            DeadlineError::Elapsed => true,
            DeadlineError::Inner(_) => false,
        }
    }

    /// The attempt's own error, if it ended with one.
    pub fn into_inner(self) -> (inner: Option<E>)
        ensures
            inner == match self {
                DeadlineError::Inner(e) => Some(e),
                DeadlineError::Elapsed => None,
            },
    {
        match self {
            DeadlineError::Inner(e) => Some(e),
            DeadlineError::Elapsed => None,
        }
    }
}

/// What one attempt came to, once the policy has looked at it.
#[derive(Debug, PartialEq, Eq)]
pub enum AttemptOutcome<I, E> {
    /// The attempt gave a value.
    Success(I),
    /// The attempt failed, and the policy wants another one.
    RetryableFailure(E),
    /// The attempt failed, and the policy wants no other.
    TerminalFailure(E),
    /// The attempt ran out of time, which always calls for another one.
    TimedOut,
}

/// What to do after an attempt.
#[derive(Debug, PartialEq, Eq)]
pub enum Decision<I, E> {
    /// The run is over, with this result.
    Finish(Result<I, DeadlineError<E>>),
    /// Wait for `delay`, then make another attempt; where `log` is set, say
    /// so in the log first.
    Retry { delay: Duration, log: bool },
}

/// Whether the outcome calls for another attempt, if the policy allows one.
pub open spec fn is_retryable<I, E>(outcome: AttemptOutcome<I, E>) -> bool {
    outcome is RetryableFailure || outcome is TimedOut
}

/// The result that a run ends with when `outcome` was that of its last
/// attempt.
pub open spec fn final_result<I, E>(outcome: AttemptOutcome<I, E>) -> Result<
    I,
    DeadlineError<E>,
> {
    match outcome {
        AttemptOutcome::Success(value) => Ok(value),
        AttemptOutcome::RetryableFailure(error) => Err(DeadlineError::Inner(error)),
        AttemptOutcome::TerminalFailure(error) => Err(DeadlineError::Inner(error)),
        AttemptOutcome::TimedOut => Err(DeadlineError::Elapsed),
    }
}

/// Whether another attempt may follow once `attempt_count` were made.
pub open spec fn attempts_left(limit: Option<usize>, attempt_count: nat) -> bool {
    limit matches Some(most) ==> attempt_count < most
}

/// The result of the run, where the attempt with the number `attempt_count`,
/// counted from one, ends it: a success and a terminal failure always do,
/// a retryable failure and a timeout where no attempt is left.
pub open spec fn settle<I, E>(
    limit: Option<usize>,
    attempt_count: nat,
    outcome: AttemptOutcome<I, E>,
) -> Option<Result<I, DeadlineError<E>>> {
    if is_retryable(outcome) && attempts_left(limit, attempt_count) {
        None
    } else {
        Some(final_result(outcome))
    }
}

/// What to do after the attempt with the number `attempt_count`, counted
/// from one, given the delay that the backoff has for it, if any: a
/// retryable failure and a timeout are followed by another attempt where
/// there is a delay, and every other outcome ends the run.
pub open spec fn decision_for<I, E>(
    log_after: u64,
    attempt_count: nat,
    outcome: AttemptOutcome<I, E>,
    next_delay: Option<Duration>,
) -> Decision<I, E> {
    if is_retryable(outcome) && next_delay is Some {
        Decision::Retry { delay: next_delay->0, log: attempt_count >= log_after }
    } else {
        Decision::Finish(final_result(outcome))
    }
}

/// Decides what follows the attempt with the number `attempt_count`,
/// counted from one, given the delay that the backoff has for it, if any.
pub fn decide<I, E>(
    log_after: u64,
    attempt_count: u64,
    outcome: AttemptOutcome<I, E>,
    next_delay: Option<Duration>,
) -> (decision: Decision<I, E>)
    ensures
        decision == decision_for(log_after, attempt_count as nat, outcome, next_delay),
{
    match outcome {
        AttemptOutcome::Success(value) => Decision::Finish(Ok(value)),
        AttemptOutcome::TerminalFailure(error) => Decision::Finish(
            Err(DeadlineError::Inner(error)),
        ),
        AttemptOutcome::RetryableFailure(error) => match next_delay {
            Some(delay) => Decision::Retry { delay, log: attempt_count >= log_after },
            None => Decision::Finish(Err(DeadlineError::Inner(error))),
        },
        AttemptOutcome::TimedOut => match next_delay {
            Some(delay) => Decision::Retry { delay, log: attempt_count >= log_after },
            None => Decision::Finish(Err(DeadlineError::Elapsed)),
        },
    }
}

/// Whether `decision` is what a run under `limit` and `log_after` does
/// after the attempt with the number `attempt_count`, counted from one,
/// came to `outcome`: it ends where `settle` says so, with that result, and
/// else goes on after a delay within the backoff, logging from the
/// `log_after`th attempt on.
pub open spec fn follows<I, E>(
    limit: Option<usize>,
    log_after: u64,
    attempt_count: nat,
    outcome: AttemptOutcome<I, E>,
    decision: Decision<I, E>,
) -> bool {
    match settle(limit, attempt_count, outcome) {
        Some(result) => decision == Decision::Finish(result),
        None => {
            &&& decision matches Decision::Retry { delay, log }
            &&& log == (attempt_count >= log_after)
            &&& within_backoff(delay@, (attempt_count - 1) as nat)
        },
    }
}

/// Whether the policy's predicate `predicate` may make `outcome` of the
/// result `attempt`: a value is a success and a timeout is a timeout
/// whatever the predicate says, and an error is a retryable or a terminal
/// failure as the predicate answers for it.
pub open spec fn classifies<P, I, E>(
    predicate: P,
    attempt: Result<I, DeadlineError<E>>,
    outcome: AttemptOutcome<I, E>,
) -> bool where P: Fn(&Result<I, E>) -> bool {
    match attempt {
        Ok(value) => outcome == AttemptOutcome::<I, E>::Success(value),
        Err(DeadlineError::Elapsed) => outcome == AttemptOutcome::<I, E>::TimedOut,
        Err(DeadlineError::Inner(error)) => {
            ||| outcome == AttemptOutcome::<I, E>::RetryableFailure(error) && call_ensures(
                predicate,
                (&Err::<I, E>(error),),
                true,
            )
            ||| outcome == AttemptOutcome::<I, E>::TerminalFailure(error) && call_ensures(
                predicate,
                (&Err::<I, E>(error),),
                false,
            )
        },
    }
}

/// What a policy holds at any stage, in plain values: the timeout in
/// nanoseconds.
pub ghost struct PolicyView<P> {
    pub operation_name: Seq<char>,
    pub predicate: P,
    pub log_after: u64,
    pub limit: RetryConfigProperty<usize>,
    pub timeout: Option<nat>,
}

/// Starts a policy for the operation with the given name, which is used
/// when retries are logged.
///
/// The stages that follow are: `when_err` or `when`; if wanted, `log_after`
/// or `no_logging`; `limit` or `no_limit`; then one of `timeout_secs`,
/// `timeout_millis`, `timeout` and `no_timeout`; at last `policy`.
pub fn retry(operation_name: &str) -> (config: RetryConfig)
    ensures
        config@ == operation_name@,
{
    RetryConfig { operation_name: operation_name.to_owned() }
}

/// The first stage of a policy: the operation has a name.
pub struct RetryConfig {
    operation_name: String,
}

impl View for RetryConfig {
    type V = Seq<char>;

    closed spec fn view(&self) -> Seq<char> {
        self.operation_name@
    }
}

impl RetryConfig {
    /// Retry whenever an attempt ends with an error, or runs out of time.
    pub fn when_err<I, E>(self) -> (config: RetryConfigWithPredicate<
        impl Fn(&Result<I, E>) -> bool,
        I,
        E,
    >)
        ensures
            config@.operation_name == self@,
            config@.log_after == 1,
            config@.limit is Unknown,
            config@.timeout is None,
            forall|result: Result<I, E>, answer: bool|
                call_ensures(config@.predicate, (&result,), answer) ==> answer == result.is_err(),
    {
        let on_any_error = |result: &Result<I, E>| -> (answer: bool)
            ensures
                answer == result.is_err(),
            {
                result.is_err()
            };
        self.when(on_any_error)
    }

    /// Retry when `predicate` says so of the error that an attempt ended
    /// with, and whenever an attempt runs out of time.
    pub fn when<P, I, E>(self, predicate: P) -> (config: RetryConfigWithPredicate<P, I, E>) where
        P: Fn(&Result<I, E>) -> bool,

        requires
            forall|result: &Result<I, E>| call_requires(predicate, (result,)),
        ensures
            config@ == (PolicyView {
                operation_name: self@,
                predicate,
                log_after: 1,
                limit: RetryConfigProperty::Unknown,
                timeout: None,
            }),
    {
        RetryConfigWithPredicate {
            inner: self,
            predicate,
            log_after: 1,
            limit: RetryConfigProperty::Unknown,
            phantom_item: PhantomData,
            phantom_error: PhantomData,
        }
    }
}

/// The second stage of a policy: it knows which failures to retry.
pub struct RetryConfigWithPredicate<P, I, E> where P: Fn(&Result<I, E>) -> bool {
    inner: RetryConfig,
    predicate: P,
    log_after: u64,
    limit: RetryConfigProperty<usize>,
    phantom_item: PhantomData<I>,
    phantom_error: PhantomData<E>,
}

impl<P, I, E> View for RetryConfigWithPredicate<P, I, E> where P: Fn(&Result<I, E>) -> bool {
    type V = PolicyView<P>;

    closed spec fn view(&self) -> PolicyView<P> {
        PolicyView {
            operation_name: self.inner@,
            predicate: self.predicate,
            log_after: self.log_after,
            limit: self.limit,
            timeout: None,
        }
    }
}

impl<P, I, E> RetryConfigWithPredicate<P, I, E> where P: Fn(&Result<I, E>) -> bool {
    #[verifier::type_invariant]
    spec fn predicate_is_total(self) -> bool {
        forall|result: &Result<I, E>| call_requires(self.predicate, (result,))
    }

    /// The name of the operation.
    pub fn operation_name(&self) -> (name: &str)
        ensures
            name@ == self@.operation_name,
    {
        self.inner.operation_name.as_str()
    }

    /// What was said of the limit so far.
    pub fn configured_limit(&self) -> (limit: RetryConfigProperty<usize>)
        ensures
            limit == self@.limit,
    {
        self.limit
    }

    /// Log a retry only from the attempt with the number `min_attempts` on.
    pub fn log_after(self, min_attempts: u64) -> (config: Self)
        ensures
            config@ == (PolicyView {
                operation_name: self@.operation_name,
                predicate: self@.predicate,
                log_after: min_attempts,
                limit: self@.limit,
                timeout: None,
            }),
    {
        proof {
            use_type_invariant(&self);
        }
        let mut config = self;
        config.log_after = min_attempts;
        config
    }

    /// Never log a retry.
    pub fn no_logging(self) -> (config: Self)
        ensures
            config@ == (PolicyView {
                operation_name: self@.operation_name,
                predicate: self@.predicate,
                log_after: u64::MAX,
                limit: self@.limit,
                timeout: None,
            }),
    {
        proof {
            use_type_invariant(&self);
        }
        let mut config = self;
        config.log_after = u64::MAX;
        config
    }

    /// Make at most `limit` attempts. The limit must not have been set or
    /// lifted before.
    pub fn limit(self, limit: usize) -> (config: Self)
        requires
            self@.limit is Unknown,
            limit >= 1,
        ensures
            config@ == (PolicyView {
                operation_name: self@.operation_name,
                predicate: self@.predicate,
                log_after: self@.log_after,
                limit: RetryConfigProperty::Given(limit),
                timeout: None,
            }),
    {
        proof {
            use_type_invariant(&self);
        }
        let mut config = self;
        let mut property = config.limit;
        property.set(limit);
        config.limit = property;
        config
    }

    /// Make as many attempts as it takes. The limit must not have been set
    /// or lifted before.
    pub fn no_limit(self) -> (config: Self)
        requires
            self@.limit is Unknown,
        ensures
            config@ == (PolicyView {
                operation_name: self@.operation_name,
                predicate: self@.predicate,
                log_after: self@.log_after,
                limit: RetryConfigProperty::Clear,
                timeout: None,
            }),
    {
        proof {
            use_type_invariant(&self);
        }
        let mut config = self;
        let mut property = config.limit;
        property.clear();
        config.limit = property;
        config
    }

    /// Give up on an attempt that takes longer than `timeout_secs` seconds.
    pub fn timeout_secs(self, timeout_secs: u64) -> (config: RetryConfigWithTimeout<P, I, E>)
        ensures
            config@ == (PolicyView {
                operation_name: self@.operation_name,
                predicate: self@.predicate,
                log_after: self@.log_after,
                limit: self@.limit,
                timeout: Some((timeout_secs * NANOS_PER_SEC) as nat),
            }),
    {
        self.timeout(Duration::from_secs(timeout_secs))
    }

    /// Give up on an attempt that takes longer than `timeout_ms`
    /// milliseconds.
    pub fn timeout_millis(self, timeout_ms: u64) -> (config: RetryConfigWithTimeout<P, I, E>)
        ensures
            config@ == (PolicyView {
                operation_name: self@.operation_name,
                predicate: self@.predicate,
                log_after: self@.log_after,
                limit: self@.limit,
                timeout: Some((timeout_ms * NANOS_PER_MILLI) as nat),
            }),
    {
        self.timeout(Duration::from_millis(timeout_ms))
    }

    /// Give up on an attempt that takes longer than `timeout`.
    pub fn timeout(self, timeout: Duration) -> (config: RetryConfigWithTimeout<P, I, E>)
        ensures
            config@ == (PolicyView {
                operation_name: self@.operation_name,
                predicate: self@.predicate,
                log_after: self@.log_after,
                limit: self@.limit,
                timeout: Some(timeout@),
            }),
    {
        RetryConfigWithTimeout { inner: self, timeout }
    }

    /// Let an attempt take as long as it needs.
    pub fn no_timeout(self) -> (config: RetryConfigNoTimeout<P, I, E>)
        ensures
            config@ == self@,
    {
        RetryConfigNoTimeout { inner: self }
    }

    /// The finished policy with the given timeout.
    fn into_policy(self, timeout: Option<Duration>) -> (policy: RetryPolicy<P, I, E>)
        requires
            !(self@.limit is Unknown),
        ensures
            policy@ == (PolicyView {
                operation_name: self@.operation_name,
                predicate: self@.predicate,
                log_after: self@.log_after,
                limit: self@.limit,
                timeout: match timeout {
                    Some(span) => Some(span@),
                    None => None,
                },
            }),
    {
        proof {
            use_type_invariant(&self);
        }
        RetryPolicy {
            operation_name: self.inner.operation_name,
            predicate: self.predicate,
            log_after: self.log_after,
            limit_opt: self.limit.unwrap(),
            timeout,
            phantom_item: PhantomData,
            phantom_error: PhantomData,
        }
    }
}

/// A finished policy under which each attempt has a timeout.
pub struct RetryConfigWithTimeout<P, I, E> where P: Fn(&Result<I, E>) -> bool {
    inner: RetryConfigWithPredicate<P, I, E>,
    timeout: Duration,
}

impl<P, I, E> View for RetryConfigWithTimeout<P, I, E> where P: Fn(&Result<I, E>) -> bool {
    type V = PolicyView<P>;

    closed spec fn view(&self) -> PolicyView<P> {
        PolicyView {
            operation_name: self.inner@.operation_name,
            predicate: self.inner@.predicate,
            log_after: self.inner@.log_after,
            limit: self.inner@.limit,
            timeout: Some(self.timeout@),
        }
    }
}

impl<P, I, E> RetryConfigWithTimeout<P, I, E> where P: Fn(&Result<I, E>) -> bool {
    /// The name of the operation.
    pub fn operation_name(&self) -> (name: &str)
        ensures
            name@ == self@.operation_name,
    {
        self.inner.operation_name()
    }

    /// What was said of the limit.
    pub fn configured_limit(&self) -> (limit: RetryConfigProperty<usize>)
        ensures
            limit == self@.limit,
    {
        self.inner.configured_limit()
    }

    /// The policy as it is used for running the operation. The limit must
    /// have been set or lifted.
    pub fn policy(self) -> (policy: RetryPolicy<P, I, E>)
        requires
            !(self@.limit is Unknown),
        ensures
            policy@ == self@,
    {
        let timeout = self.timeout;
        self.inner.into_policy(Some(timeout))
    }
}

/// A finished policy under which an attempt may take as long as it needs.
pub struct RetryConfigNoTimeout<P, I, E> where P: Fn(&Result<I, E>) -> bool {
    inner: RetryConfigWithPredicate<P, I, E>,
}

impl<P, I, E> View for RetryConfigNoTimeout<P, I, E> where P: Fn(&Result<I, E>) -> bool {
    type V = PolicyView<P>;

    closed spec fn view(&self) -> PolicyView<P> {
        self.inner@
    }
}

impl<P, I, E> RetryConfigNoTimeout<P, I, E> where P: Fn(&Result<I, E>) -> bool {
    /// The name of the operation.
    pub fn operation_name(&self) -> (name: &str)
        ensures
            name@ == self@.operation_name,
    {
        self.inner.operation_name()
    }

    /// What was said of the limit.
    pub fn configured_limit(&self) -> (limit: RetryConfigProperty<usize>)
        ensures
            limit == self@.limit,
    {
        self.inner.configured_limit()
    }

    /// The policy as it is used for running the operation. The limit must
    /// have been set or lifted.
    pub fn policy(self) -> (policy: RetryPolicy<P, I, E>)
        requires
            !(self@.limit is Unknown),
        ensures
            policy@ == self@,
    {
        self.inner.into_policy(None)
    }
}

/// A finished policy: the name of the operation, which failures to retry,
/// from which attempt on to log, how many attempts to make at most, and
/// how long each may take.
///
/// A policy does not change. Each run under it has a `RetryState` of its
/// own.
pub struct RetryPolicy<P, I, E> where P: Fn(&Result<I, E>) -> bool {
    operation_name: String,
    predicate: P,
    log_after: u64,
    limit_opt: Option<usize>,
    timeout: Option<Duration>,
    phantom_item: PhantomData<I>,
    phantom_error: PhantomData<E>,
}

impl<P, I, E> View for RetryPolicy<P, I, E> where P: Fn(&Result<I, E>) -> bool {
    type V = PolicyView<P>;

    closed spec fn view(&self) -> PolicyView<P> {
        PolicyView {
            operation_name: self.operation_name@,
            predicate: self.predicate,
            log_after: self.log_after,
            limit: match self.limit_opt {
                Some(most) => RetryConfigProperty::Given(most),
                None => RetryConfigProperty::Clear,
            },
            timeout: match self.timeout {
                Some(span) => Some(span@),
                None => None,
            },
        }
    }
}

/// The state of one run: the number of attempts that were made.
#[derive(Clone, Copy, Debug, PartialEq, Eq)]
pub struct RetryState {
    attempt_count: u64,
}

impl View for RetryState {
    type V = nat;

    closed spec fn view(&self) -> nat {
        self.attempt_count as nat
    }
}

impl RetryState {
    /// The number of attempts that were made in this run.
    pub fn attempt_count(&self) -> (count: u64)
        ensures
            count == self@,
    {
        self.attempt_count
    }
}

impl<P, I, E> RetryPolicy<P, I, E> where P: Fn(&Result<I, E>) -> bool {
    #[verifier::type_invariant]
    spec fn predicate_is_total(self) -> bool {
        forall|result: &Result<I, E>| call_requires(self.predicate, (result,))
    }

    /// The name of the operation, for the log.
    pub fn operation_name(&self) -> (name: &str)
        ensures
            name@ == self@.operation_name,
    {
        self.operation_name.as_str()
    }

    /// The attempt from which on retries are logged.
    pub fn log_after(&self) -> (min_attempts: u64)
        ensures
            min_attempts == self@.log_after,
    {
        self.log_after
    }

    /// The most attempts that a run may make, if there is a limit.
    pub fn limit(&self) -> (limit: Option<usize>)
        ensures
            limit == self@.limit.value(),
            !(self@.limit is Unknown),
    {
        self.limit_opt
    }

    /// The time that each attempt may take, if it is bounded.
    pub fn timeout(&self) -> (timeout: Option<Duration>)
        ensures
            timeout is Some <==> self@.timeout is Some,
            timeout matches Some(span) ==> self@.timeout == Some(span@),
    {
        self.timeout
    }

    /// The state of a run that has made no attempt yet.
    pub fn start(&self) -> (state: RetryState)
        ensures
            state@ == 0,
    {
        RetryState { attempt_count: 0 }
    }

    /// Says what an attempt came to: a value is a success, a timeout calls
    /// for a retry whatever the predicate says, and of an error the
    /// predicate decides whether it is worth another attempt.
    pub fn classify(&self, attempt: Result<I, DeadlineError<E>>) -> (outcome: AttemptOutcome<I, E>)
        ensures
            classifies(self@.predicate, attempt, outcome),
    {
        proof {
            use_type_invariant(self);
        }
        match attempt {
            Ok(value) => AttemptOutcome::Success(value),
            Err(DeadlineError::Elapsed) => AttemptOutcome::TimedOut,
            Err(DeadlineError::Inner(error)) => {
                let result: Result<I, E> = Err(error);
                let again = (self.predicate)(&result);
                match result {
                    Err(error) => if again {
                        AttemptOutcome::RetryableFailure(error)
                    } else {
                        AttemptOutcome::TerminalFailure(error)
                    },
                    Ok(_) => vstd::pervasive::unreached(),
                }
            },
        }
    }

    /// Takes note in `state` of one more attempt, which ended as `attempt`
    /// says, and decides what follows.
    ///
    /// The run ends with a value, with an error that the predicate does not
    /// want retried, and with any failure of the last attempt that the
    /// limit allows; the result is then that of this attempt. Else another
    /// attempt follows after a delay within the backoff, and the retry is
    /// to be logged from the `log_after`th attempt on.
    pub fn on_attempt(
        &self,
        state: &mut RetryState,
        attempt: Result<I, DeadlineError<E>>,
    ) -> (decision: Decision<I, E>)
        requires
            old(state)@ < u64::MAX,
        ensures
            final(state)@ == old(state)@ + 1,
            exists|outcome: AttemptOutcome<I, E>| #[trigger]
                classifies(self@.predicate, attempt, outcome) && follows(
                    self@.limit.value(),
                    self@.log_after,
                    old(state)@ + 1,
                    outcome,
                    decision,
                ),
    {
        let outcome = self.classify(attempt);
        let index = state.attempt_count;
        state.attempt_count = state.attempt_count + 1;
        let next_delay = retry_strategy(self.limit_opt, index);
        decide(self.log_after, state.attempt_count, outcome, next_delay)
    }
}

/// How a run ends whose attempts come to `outcomes`, in this order, when
/// `made` of them were made and did not end it: the number of the attempt
/// that ends the run, counted from one, and the run's result. There is
/// none where the run still goes on after the last of `outcomes`.
pub open spec fn run_from<I, E>(
    limit: Option<usize>,
    outcomes: Seq<AttemptOutcome<I, E>>,
    made: nat,
) -> Option<(nat, Result<I, DeadlineError<E>>)>
    decreases outcomes.len() - made,
{
    if made >= outcomes.len() {
        None
    } else {
        match settle(limit, made + 1, outcomes[made as int]) {
            Some(result) => Some((made + 1, result)),
            None => run_from(limit, outcomes, made + 1),
        }
    }
}

/// How a run ends whose attempts come to `outcomes`, in this order: the
/// number of attempts made and the run's result.
pub open spec fn run_result<I, E>(
    limit: Option<usize>,
    outcomes: Seq<AttemptOutcome<I, E>>,
) -> Option<(nat, Result<I, DeadlineError<E>>)> {
    run_from(limit, outcomes, 0)
}

/// A run ends with the first attempt that settles it, and that attempt's
/// result is the run's.
pub proof fn lemma_run_ends_at<I, E>(
    limit: Option<usize>,
    outcomes: Seq<AttemptOutcome<I, E>>,
    last: nat,
)
    requires
        last < outcomes.len(),
        forall|i: int| 0 <= i < last ==> settle(limit, (i + 1) as nat, #[trigger] outcomes[i]) is None,
        settle(limit, last + 1, outcomes[last as int]) is Some,
    ensures
        run_result(limit, outcomes) == Some(
            (last + 1, settle(limit, last + 1, outcomes[last as int])->0),
        ),
{
    lemma_run_goes_on(limit, outcomes, last, 0);
}

proof fn lemma_run_goes_on<I, E>(
    limit: Option<usize>,
    outcomes: Seq<AttemptOutcome<I, E>>,
    last: nat,
    made: nat,
)
    requires
        made <= last < outcomes.len(),
        forall|i: int| 0 <= i < last ==> settle(limit, (i + 1) as nat, #[trigger] outcomes[i]) is None,
        settle(limit, last + 1, outcomes[last as int]) is Some,
    ensures
        run_from(limit, outcomes, made) == Some(
            (last + 1, settle(limit, last + 1, outcomes[last as int])->0),
        ),
    decreases last - made,
{
    if made < last {
        assert(settle(limit, (made + 1) as nat, outcomes[made as int]) is None);
        lemma_run_goes_on(limit, outcomes, last, made + 1);
    }
}

/// Under a limit, an operation whose attempts all fail in a way that is
/// retried is attempted exactly as often as the limit says, and the error
/// that the run returns is that of the last attempt.
pub proof fn lemma_limit_reached<I, E>(limit: usize, outcomes: Seq<AttemptOutcome<I, E>>)
    requires
        limit >= 1,
        outcomes.len() >= limit,
        forall|i: int| 0 <= i < limit ==> is_retryable(#[trigger] outcomes[i]),
    ensures
        run_result(Some(limit), outcomes) == Some(
            (limit as nat, final_result(outcomes[limit - 1])),
        ),
        final_result(outcomes[limit - 1]) is Err,
{
    lemma_run_ends_at(Some(limit), outcomes, (limit - 1) as nat);
}

/// Under a limit of one there is exactly one attempt, whatever it comes
/// to, and no delay: the first decision ends the run.
pub proof fn lemma_single_attempt<I, E>(
    outcomes: Seq<AttemptOutcome<I, E>>,
    log_after: u64,
    decision: Decision<I, E>,
)
    requires
        outcomes.len() >= 1,
        follows(Some(1usize), log_after, 1, outcomes[0], decision),
    ensures
        run_result(Some(1usize), outcomes) == Some((1nat, final_result(outcomes[0]))),
        decision == Decision::Finish(final_result(outcomes[0])),
{
    lemma_run_ends_at(Some(1usize), outcomes, 0);
}

/// Without a limit, an operation that succeeds at its `attempts`th attempt,
/// after failures that are retried, gives that success after exactly
/// `attempts` attempts.
pub proof fn lemma_success_ends_run<I, E>(
    outcomes: Seq<AttemptOutcome<I, E>>,
    attempts: nat,
    value: I,
)
    requires
        1 <= attempts <= outcomes.len(),
        forall|i: int| 0 <= i < attempts - 1 ==> is_retryable(#[trigger] outcomes[i]),
        outcomes[attempts - 1] == AttemptOutcome::<I, E>::Success(value),
    ensures
        run_result(None, outcomes) == Some((attempts, Ok::<I, DeadlineError<E>>(value))),
{
    lemma_run_ends_at(None, outcomes, (attempts - 1) as nat);
}

/// A failure that the predicate does not want retried ends the run at
/// once, with that error: at any attempt, the first included, and under
/// any limit or none.
pub proof fn lemma_terminal_failure_stops<I, E>(
    limit: Option<usize>,
    outcomes: Seq<AttemptOutcome<I, E>>,
    attempts: nat,
    error: E,
)
    requires
        1 <= attempts <= outcomes.len(),
        forall|i: int|
            0 <= i < attempts - 1 ==> is_retryable(#[trigger] outcomes[i]) && attempts_left(
                limit,
                (i + 1) as nat,
            ),
        outcomes[attempts - 1] == AttemptOutcome::<I, E>::TerminalFailure(error),
    ensures
        settle(limit, attempts, outcomes[attempts - 1]) == Some(
            Err::<I, DeadlineError<E>>(DeadlineError::Inner(error)),
        ),
        run_result(limit, outcomes) == Some(
            (attempts, Err::<I, DeadlineError<E>>(DeadlineError::Inner(error))),
        ),
{
    lemma_run_ends_at(limit, outcomes, (attempts - 1) as nat);
}

} // verus!
