//! Circuit breaker, retry policy and health check.
//!
//! These decide; calling, waiting and probing are left to the caller.

use crate::batcher::{elapsed, elapsed_ms};
use vstd::arithmetic::power2::{lemma2_to64, lemma_pow2_unfold, pow2};
use vstd::prelude::*;

verus! {

#[derive(Debug, Clone, Copy, PartialEq, Eq, Structural)]
pub enum CircuitState {
    /// Calls are made.
    Closed,
    /// Calls are refused.
    Open,
    /// A call is made to see whether the circuit can be closed again.
    HalfOpen,
}

#[derive(Debug)]
pub enum CircuitBreakerError<E> {
    Open,
    Inner(E),
}

/// Refuses calls after a number of failures in a row, for a time.
pub struct CircuitBreaker {
    state: CircuitState,
    failure_count: u32,
    last_failure_time: u64,
    failure_threshold: u32,
    recovery_timeout: u64,
}

/// Where a circuit breaker stands.
pub struct BreakerView {
    pub state: CircuitState,
    /// Failures since the last success.
    pub failures: u32,
    pub last_failure: u64,
}

impl View for CircuitBreaker {
    type V = BreakerView;

    closed spec fn view(&self) -> BreakerView {
        BreakerView {
            state: self.state,
            failures: self.failure_count,
            last_failure: self.last_failure_time,
        }
    }
}

/// Whether a call is refused at a time.
pub open spec fn refuses(b: BreakerView, recovery: u64, now: u64) -> bool {
    b.state == CircuitState::Open && elapsed(b.last_failure, now) <= recovery
}

/// The breaker after a call was asked for: once it has been open for long
/// enough, it lets one through.
pub open spec fn after_request(b: BreakerView, recovery: u64, now: u64) -> BreakerView {
    if b.state == CircuitState::Open && elapsed(b.last_failure, now) > recovery {
        BreakerView { state: CircuitState::HalfOpen, ..b }
    } else {
        b
    }
}

/// The breaker after a call succeeded.
pub open spec fn after_success(b: BreakerView) -> BreakerView {
    BreakerView { state: CircuitState::Closed, failures: 0, ..b }
}

/// The breaker after a call failed.
pub open spec fn after_failure(b: BreakerView, threshold: u32, now: u64) -> BreakerView {
    let failures = if b.failures < u32::MAX {
        (b.failures + 1) as u32
    } else {
        b.failures
    };
    BreakerView {
        state: if failures >= threshold {
            CircuitState::Open
        } else {
            b.state
        },
        failures,
        last_failure: now,
    }
}

impl CircuitBreaker {
    /// How many failures in a row open the circuit.
    pub closed spec fn threshold(&self) -> u32 {
        self.failure_threshold
    }

    /// How long the circuit stays open, in milliseconds.
    pub closed spec fn recovery(&self) -> u64 {
        self.recovery_timeout
    }

    /// The circuit is closed exactly while there are too few failures.
    pub open spec fn wf(&self) -> bool {
        &&& self@.state == CircuitState::Closed ==> self@.failures == 0 || self@.failures
            < self.threshold()
        &&& self@.state != CircuitState::Closed ==> self@.failures > 0 && self@.failures
            >= self.threshold()
    }

    pub fn new(failure_threshold: u32, recovery_timeout: u64) -> (r: Self)
        ensures
            r.wf(),
            r@ == (BreakerView { state: CircuitState::Closed, failures: 0, last_failure: 0 }),
            r.threshold() == failure_threshold,
            r.recovery() == recovery_timeout,
    {
        CircuitBreaker {
            state: CircuitState::Closed,
            failure_count: 0,
            last_failure_time: 0,
            failure_threshold,
            recovery_timeout,
        }
    }

    /// Whether a call is refused at the given time. Once the circuit has been
    /// open for long enough, a call is let through.
    pub fn is_open(&mut self, now: u64) -> (r: bool)
        requires
            old(self).wf(),
        ensures
            final(self).wf(),
            r == refuses(old(self)@, old(self).recovery(), now),
            final(self)@ == after_request(old(self)@, old(self).recovery(), now),
            final(self).threshold() == old(self).threshold(),
            final(self).recovery() == old(self).recovery(),
    {
        if self.state == CircuitState::Open {
            if elapsed_ms(self.last_failure_time, now) > self.recovery_timeout {
                self.state = CircuitState::HalfOpen;
                return false;
            }
            return true;
        }
        false
    }

    pub fn on_success(&mut self)
        requires
            old(self).wf(),
        ensures
            final(self).wf(),
            final(self)@ == after_success(old(self)@),
            final(self).threshold() == old(self).threshold(),
            final(self).recovery() == old(self).recovery(),
    {
        self.failure_count = 0;
        self.state = CircuitState::Closed;
    }

    pub fn on_failure(&mut self, now: u64)
        requires
            old(self).wf(),
        ensures
            final(self).wf(),
            final(self)@ == after_failure(old(self)@, old(self).threshold(), now),
            final(self).threshold() == old(self).threshold(),
            final(self).recovery() == old(self).recovery(),
    {
        self.failure_count = self.failure_count.saturating_add(1);
        self.last_failure_time = now;
        if self.failure_count >= self.failure_threshold {
            self.state = CircuitState::Open;
        }
    }

    /// Takes note of how a call went that was let through.
    pub fn call<T, E>(&mut self, outcome: Result<T, E>, now: u64) -> (r: Result<
        T,
        CircuitBreakerError<E>,
    >)
        requires
            old(self).wf(),
        ensures
            final(self).wf(),
            match outcome {
                Ok(t) => r == Ok::<T, CircuitBreakerError<E>>(t) && final(self)@ == after_success(
                    old(self)@,
                ),
                Err(e) => r == Err::<T, CircuitBreakerError<E>>(CircuitBreakerError::Inner(e))
                    && final(self)@ == after_failure(old(self)@, old(self).threshold(), now),
            },
            final(self).threshold() == old(self).threshold(),
            final(self).recovery() == old(self).recovery(),
    {
        match outcome {
            Ok(t) => {
                self.on_success();
                Ok(t)
            },
            Err(e) => {
                self.on_failure(now);
                Err(CircuitBreakerError::Inner(e))
            },
        }
    }

    pub fn state(&self) -> (r: CircuitState)
        ensures
            r == self@.state,
    {
        self.state
    }
}

/// The breaker after failures in a row at the given times.
pub open spec fn after_failures(b: BreakerView, threshold: u32, times: Seq<u64>) -> BreakerView
    decreases times.len(),
{
    if times.len() == 0 {
        b
    } else {
        after_failure(after_failures(b, threshold, times.drop_last()), threshold, times.last())
    }
}

/// A closed circuit opens with the failure that makes the threshold full, and
/// not before.
pub proof fn opens_at_threshold(b: BreakerView, threshold: u32, times: Seq<u64>)
    requires
        b.state == CircuitState::Closed,
        b.failures == 0,
        0 < times.len() <= threshold,
    ensures
        after_failures(b, threshold, times).failures == times.len(),
        after_failures(b, threshold, times).state == CircuitState::Open <==> times.len()
            == threshold,
    decreases times.len(),
{
    reveal_with_fuel(after_failures, 2);
    if times.len() > 1 {
        opens_at_threshold(b, threshold, times.drop_last());
    } else {
        assert(times.drop_last() =~= Seq::<u64>::empty());
    }
}

/// An open circuit refuses every call until the recovery time has gone by, then
/// lets one through; its success closes the circuit and its failure opens it
/// again.
pub proof fn recovers(b: BreakerView, threshold: u32, recovery: u64, now: u64)
    requires
        b.state == CircuitState::Open,
        b.failures >= threshold,
    ensures
        refuses(b, recovery, now) <==> elapsed(b.last_failure, now) <= recovery,
        !refuses(b, recovery, now) ==> {
            let h = after_request(b, recovery, now);
            &&& h.state == CircuitState::HalfOpen
            &&& after_success(h).state == CircuitState::Closed
            &&& after_failure(h, threshold, now).state == CircuitState::Open
        },
{
}

/// The longest pause between attempts, in milliseconds.
pub const MAX_RETRY_DELAY_MS: u64 = 30_000;

/// Tries again after failures, with pauses that double.
#[derive(Debug, Clone, Copy)]
pub struct RetryPolicy {
    pub max_attempts: u32,
    /// The first pause in milliseconds.
    pub base_delay: u64,
}

/// How far a series of attempts has come.
#[derive(Debug, Clone, Copy)]
pub struct RetryState {
    pub attempt: u32,
    pub delay: u64,
}

/// The pause after the failure of an attempt, counted from 1.
pub open spec fn delay_after(base_delay: u64, attempt: nat) -> int
    decreases attempt,
{
    if attempt <= 1 {
        base_delay as int
    } else {
        let twice = 2 * delay_after(base_delay, (attempt - 1) as nat);
        if twice < MAX_RETRY_DELAY_MS {
            twice
        } else {
            MAX_RETRY_DELAY_MS as int
        }
    }
}

impl RetryPolicy {
    pub fn new(max_attempts: u32, base_delay: u64) -> (r: Self)
        ensures
            r.max_attempts == max_attempts,
            r.base_delay == base_delay,
    {
        RetryPolicy { max_attempts, base_delay }
    }

    /// Whether a state belongs to a series of attempts that still goes on.
    pub open spec fn going(&self, s: RetryState) -> bool {
        &&& s.attempt < self.max_attempts || s.attempt == 0
        &&& s.delay == delay_after(self.base_delay, (s.attempt + 1) as nat)
    }

    /// The state before the first attempt.
    pub fn start(&self) -> (r: RetryState)
        ensures
            self.going(r),
            r.attempt == 0,
    {
        RetryState { attempt: 0, delay: self.base_delay }
    }

    /// After an attempt failed: how long to wait before the next one, or `None`
    /// where that was the last.
    pub fn execute(&self, state: &mut RetryState) -> (r: Option<u64>)
        requires
            self.going(*old(state)),
        ensures
            final(state).attempt == old(state).attempt + 1,
            r is Some <==> old(state).attempt + 1 < self.max_attempts,
            r matches Some(d) ==> {
                &&& d == delay_after(self.base_delay, (old(state).attempt + 1) as nat)
                &&& self.going(*final(state))
            },
    {
        state.attempt = state.attempt + 1;
        if state.attempt >= self.max_attempts {
            return None;
        }
        let delay: u64 = state.delay;
        state.delay = if delay < MAX_RETRY_DELAY_MS / 2 {
            2 * delay
        } else {
            MAX_RETRY_DELAY_MS
        };
        Some(delay)
    }
}

/// After the first, no pause is longer than the longest one.
pub proof fn pauses_are_bounded(base_delay: u64, attempt: nat)
    requires
        attempt > 1,
    ensures
        0 <= delay_after(base_delay, attempt) <= MAX_RETRY_DELAY_MS,
    decreases attempt,
{
    reveal_with_fuel(delay_after, 2);
    if attempt > 2 {
        pauses_are_bounded(base_delay, (attempt - 1) as nat);
    }
}

/// Time since the program started; none where the start was not noted.
pub fn elapsed_since_startup(startup: u64, now: u64) -> (r: u64)
    ensures
        r == (if startup == 0 {
            0
        } else {
            elapsed(startup, now)
        }),
{
    if startup == 0 {
        0
    } else {
        elapsed_ms(startup, now)
    }
}

/// When a check last went well, after one more; 0 where none did.
pub open spec fn last_good(checked_at: u64, passed: bool, now: u64) -> u64 {
    if passed {
        now
    } else {
        checked_at
    }
}

/// Whether a check went well within the last two intervals.
pub open spec fn healthy(checked_at: u64, interval: u64, now: u64) -> bool {
    checked_at != 0 && elapsed(checked_at, now) < 2 * interval
}

/// Remembers when a check last went well.
#[derive(Debug, Clone, Copy)]
pub struct HealthChecker {
    last_check: u64,
    check_interval: u64,
}

impl HealthChecker {
    /// When a check last went well; 0 where none did.
    pub closed spec fn checked_at(&self) -> u64 {
        self.last_check
    }

    /// How often checks are to be made, in milliseconds.
    pub closed spec fn interval(&self) -> u64 {
        self.check_interval
    }

    pub fn new(check_interval: u64) -> (r: Self)
        ensures
            r.checked_at() == 0,
            r.interval() == check_interval,
    {
        HealthChecker { last_check: 0, check_interval }
    }

    /// Takes note of a check.
    pub fn record(&mut self, passed: bool, now: u64)
        ensures
            final(self).checked_at() == last_good(old(self).checked_at(), passed, now),
            final(self).checked_at() == (if passed {
                now
            } else {
                old(self).checked_at()
            }),
            final(self).interval() == old(self).interval(),
    {
        if passed {
            self.last_check = now;
        }
    }

    /// When a check last went well, if one did.
    pub fn last_check_time(&self) -> (r: Option<u64>)
        ensures
            r == (if self.checked_at() == 0 {
                None
            } else {
                Some(self.checked_at())
            }),
    {
        if self.last_check == 0 {
            None
        } else {
            Some(self.last_check)
        }
    }

    /// Whether a check went well within the last two intervals.
    pub fn is_healthy(&self, now: u64) -> (r: bool)
        ensures
            r <==> healthy(self.checked_at(), self.interval(), now),
            r <==> self.checked_at() != 0 && elapsed(self.checked_at(), now) < 2 * self.interval(),
    {
        match self.last_check_time() {
            Some(t) => (elapsed_ms(t, now) as u128) < 2 * self.check_interval as u128,
            None => false,
        }
    }
}

/// Each failure counts, whatever the circuit is, and is remembered as the last; a success
/// wipes the count and closes the circuit. The circuit opens with a failure exactly where
/// the failures in a row are then as many as the threshold, and is otherwise as it was.
pub proof fn failures_are_counted(b: BreakerView, threshold: u32, now: u64)
    requires
        b.failures < u32::MAX,
    ensures
        after_failure(b, threshold, now).failures == b.failures + 1,
        after_failure(b, threshold, now).last_failure == now,
        b.failures + 1 >= threshold ==> after_failure(b, threshold, now).state
            == CircuitState::Open,
        b.failures + 1 < threshold ==> after_failure(b, threshold, now).state == b.state,
        after_success(b).failures == 0,
        after_success(b).state == CircuitState::Closed,
        after_success(b).last_failure == b.last_failure,
{
}

/// A failure that opens the circuit has calls refused exactly up to the recovery time
/// after it, and not at all once they are let through or the circuit is closed. Asking
/// for a call changes neither the count nor the time of the last failure.
pub proof fn refused_until_recovery(b: BreakerView, threshold: u32, recovery: u64, t: u64, now: u64)
    requires
        b.failures < u32::MAX,
        b.failures + 1 >= threshold,
    ensures
        refuses(after_failure(b, threshold, t), recovery, now) <==> now <= t + recovery,
        !refuses(after_success(b), recovery, now),
        !refuses(after_request(after_failure(b, threshold, t), recovery, now), recovery, now)
            <==> now > t + recovery,
        after_request(b, recovery, now).failures == b.failures,
        after_request(b, recovery, now).last_failure == b.last_failure,
        b.state != CircuitState::Open ==> after_request(b, recovery, now) == b,
{
}

/// The pauses are the first one, its double, its fourfold and so on, up to the longest.
pub proof fn pauses_double(base_delay: u64, attempt: nat)
    requires
        attempt >= 1,
    ensures
        delay_after(base_delay, 1) == base_delay,
        base_delay * pow2((attempt - 1) as nat) <= MAX_RETRY_DELAY_MS ==> delay_after(
            base_delay,
            attempt,
        ) == base_delay * pow2((attempt - 1) as nat),
        attempt > 1 && base_delay * pow2((attempt - 1) as nat) > MAX_RETRY_DELAY_MS
            ==> delay_after(base_delay, attempt) == 30_000,
    decreases attempt,
{
    lemma2_to64();
    let one = pow2(0);
    assert(base_delay * one == base_delay) by (nonlinear_arith)
        requires
            one == 1,
    ;
    if attempt > 1 {
        let k = (attempt - 1) as nat;
        pauses_double(base_delay, k);
        lemma_pow2_unfold(k);
        let p = pow2((k - 1) as nat);
        let q = pow2(k);
        assert(base_delay * q == 2 * (base_delay * p)) by (nonlinear_arith)
            requires
                q == 2 * p,
        ;
    }
}

/// A check that went well keeps the system healthy for just under two intervals, one that
/// failed changes nothing of that, and before the first good one it is not healthy.
pub proof fn good_checks_last_two_intervals(before: u64, interval: u64, t: u64, now: u64)
    requires
        t > 0,
        now >= t,
    ensures
        healthy(last_good(before, true, t), interval, now) <==> now < t + 2 * interval,
        healthy(last_good(before, false, t), interval, now) <==> healthy(before, interval, now),
        !healthy(0, interval, now),
{
}

} // verus!
