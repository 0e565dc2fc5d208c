//! Health and telemetry of one upstream endpoint.
//!
//! Instants are milliseconds on a monotonic clock that the caller reads and
//! hands in (`now_ms`); a deadline that would pass the end of that clock
//! stays at its last value.
use vstd::arithmetic::div_mod::{lemma_add_mod_noop, lemma_mod_twice};
use vstd::prelude::*;

verus! {

/// Whether an endpoint is in the active set or waiting in reserve.
#[derive(Debug, Clone, Copy, PartialEq, Eq, Structural)]
pub enum RosterStatus {
    Active,
    Reserve,
}

/// Sentinel for "no data" in the block height and latency fields.
pub const NONE_U64: u64 = 0;

/// Initial throttle backoff: 1 second.
pub const THROTTLE_BACKOFF_INIT_MS: u64 = 1000;

/// Maximum throttle backoff: 30 seconds.
pub const THROTTLE_BACKOFF_MAX_MS: u64 = 30000;

/// The health record of an endpoint as plain values.
#[derive(Debug, Clone, Copy)]
pub struct HealthState {
    pub consecutive_failures: u32,
    pub last_failure: Option<u64>,
    pub is_healthy: bool,
    /// When an unhealthy endpoint becomes eligible for probing again.
    pub unhealthy_until: Option<u64>,
    /// Until when a rate-limited endpoint is avoided.
    pub throttled_until: Option<u64>,
    /// Backoff applied at the next throttle; doubles up to a cap, reset on success.
    pub throttle_backoff_ms: u64,
    pub block_height: u64,
    pub last_latency_ms: u64,
    pub request_count: u64,
    pub success_count: u64,
    pub failure_count: u64,
    pub throttle_count: u64,
}

/// A counter after `n` more events; counters wrap as unsigned 64-bit values.
pub open spec fn bumped(x: u64, n: u64) -> u64 {
    ((x + n) % 0x1_0000_0000_0000_0000int) as u64
}

/// The instant `secs` seconds after `now_ms`, capped at the end of the clock.
pub open spec fn after_secs(now_ms: u64, secs: u64) -> u64 {
    if now_ms + secs * 1000 > u64::MAX {
        u64::MAX
    } else {
        (now_ms + secs * 1000) as u64
    }
}

/// The instant `ms` milliseconds after `now_ms`, capped at the end of the clock.
pub open spec fn after_ms(now_ms: u64, ms: u64) -> u64 {
    if now_ms + ms > u64::MAX {
        u64::MAX
    } else {
        (now_ms + ms) as u64
    }
}

/// The backoff that follows `b`: doubled, at most the cap.
pub open spec fn next_backoff(b: u64) -> u64 {
    if b * 2 < THROTTLE_BACKOFF_MAX_MS {
        (b * 2) as u64
    } else {
        THROTTLE_BACKOFF_MAX_MS
    }
}

impl HealthState {
    /// Every request was counted once, as a success, a failure or a throttle.
    pub open spec fn counts_balanced(self) -> bool {
        self.request_count as int == (self.success_count as int + self.failure_count as int
            + self.throttle_count as int) % 0x1_0000_0000_0000_0000int
    }

    /// The throttle backoff lies between its initial value and its cap.
    pub open spec fn backoff_in_range(self) -> bool {
        THROTTLE_BACKOFF_INIT_MS <= self.throttle_backoff_ms <= THROTTLE_BACKOFF_MAX_MS
    }

    /// What every health record keeps.
    pub open spec fn wf(self) -> bool {
        self.counts_balanced() && self.backoff_in_range()
    }

    /// A fresh record: healthy, no data, nothing counted.
    pub open spec fn initial() -> HealthState {
        HealthState {
            consecutive_failures: 0,
            last_failure: None,
            is_healthy: true,
            unhealthy_until: None,
            throttled_until: None,
            throttle_backoff_ms: THROTTLE_BACKOFF_INIT_MS,
            block_height: NONE_U64,
            last_latency_ms: NONE_U64,
            request_count: 0,
            success_count: 0,
            failure_count: 0,
            throttle_count: 0,
        }
    }

    /// After a successful request.
    pub open spec fn after_success(self) -> HealthState {
        HealthState {
            consecutive_failures: 0,
            is_healthy: true,
            last_failure: None,
            unhealthy_until: None,
            throttle_backoff_ms: THROTTLE_BACKOFF_INIT_MS,
            throttled_until: None,
            request_count: bumped(self.request_count, 1),
            success_count: bumped(self.success_count, 1),
            ..self
        }
    }

    /// After a failed request at `now_ms`: the failure is counted, and at the
    /// threshold the endpoint turns unhealthy with a cooldown deadline.
    pub open spec fn after_failure(
        self,
        max_failures: u32,
        cooldown_seconds: u64,
        now_ms: u64,
    ) -> HealthState {
        let counted = HealthState {
            consecutive_failures: vstd::wrapping::u32_specs::wrapping_add(self.consecutive_failures, 1),
            last_failure: Some(now_ms),
            request_count: bumped(self.request_count, 1),
            failure_count: bumped(self.failure_count, 1),
            ..self
        };
        if self.consecutive_failures + 1 >= max_failures {
            HealthState {
                is_healthy: false,
                unhealthy_until: Some(after_secs(now_ms, cooldown_seconds)),
                ..counted
            }
        } else {
            counted
        }
    }

    /// After an upstream 429 at `now_ms`: counted as a throttle, not a failure.
    pub open spec fn after_throttle(self, now_ms: u64) -> HealthState {
        HealthState {
            request_count: bumped(self.request_count, 1),
            throttle_count: bumped(self.throttle_count, 1),
            throttled_until: Some(after_ms(now_ms, self.throttle_backoff_ms)),
            throttle_backoff_ms: next_backoff(self.throttle_backoff_ms),
            ..self
        }
    }

    /// A throttle backoff is running at `now_ms`.
    pub open spec fn throttled_at(self, now_ms: u64) -> bool {
        self.throttled_until matches Some(u) && now_ms < u
    }

    /// The cooldown of an unhealthy endpoint has run out at `now_ms`.
    pub open spec fn cooldown_over(self, now_ms: u64) -> bool {
        self.unhealthy_until matches Some(u) && now_ms >= u
    }

    /// Whether the endpoint may take requests at `now_ms`.
    pub open spec fn available_at(self, now_ms: u64) -> bool {
        !self.throttled_at(now_ms) && (self.is_healthy || self.cooldown_over(now_ms))
    }

    /// The record after asking for availability at `now_ms`: an unhealthy
    /// endpoint whose cooldown has run out is re-enabled for probing.
    pub open spec fn after_availability_check(self, now_ms: u64) -> HealthState {
        if !self.throttled_at(now_ms) && !self.is_healthy && self.cooldown_over(now_ms) {
            HealthState {
                is_healthy: true,
                consecutive_failures: 0,
                unhealthy_until: None,
                ..self
            }
        } else {
            self
        }
    }

    /// After being marked unhealthy with a cooldown at `now_ms`.
    pub open spec fn after_mark_unhealthy(self, cooldown_seconds: u64, now_ms: u64) -> HealthState {
        HealthState {
            is_healthy: false,
            unhealthy_until: Some(after_secs(now_ms, cooldown_seconds)),
            ..self
        }
    }
}

proof fn lemma_bump_balanced(a: u64, b: u64, c: u64, r: u64)
    requires
        r as int == (a as int + b as int + c as int) % 0x1_0000_0000_0000_0000int,
    ensures
        bumped(r, 1) as int == (bumped(a, 1) as int + b as int + c as int)
            % 0x1_0000_0000_0000_0000int,
{
    let m = 0x1_0000_0000_0000_0000int;
    lemma_add_mod_noop(a as int, 1, m);
    lemma_add_mod_noop(a as int + 1, b as int + c as int, m);
    lemma_add_mod_noop((a as int + 1) % m, b as int + c as int, m);
    lemma_add_mod_noop(a as int + b as int + c as int, 1, m);
    lemma_mod_twice(a as int + b as int + c as int, m);
    assert((a as int + 1) % m == bumped(a, 1) as int);
    assert((r as int + 1) % m == bumped(r, 1) as int);
}


/// The state after a failure at each instant of `times`, in order.
pub open spec fn after_failures(
    s: HealthState,
    max_failures: u32,
    cooldown_seconds: u64,
    times: Seq<u64>,
) -> HealthState
    decreases times.len(),
{
    if times.len() == 0 {
        s
    } else {
        after_failures(s, max_failures, cooldown_seconds, times.drop_last()).after_failure(
            max_failures,
            cooldown_seconds,
            times.last(),
        )
    }
}

/// Recording a success, a failure, a throttle, an availability check or a
/// cooldown mark keeps a well-formed record well formed: in particular the
/// request count stays the sum of successes, failures and throttles.
pub proof fn lemma_updates_keep_wf(
    s: HealthState,
    max_failures: u32,
    cooldown_seconds: u64,
    now_ms: u64,
)
    requires
        s.wf(),
    ensures
        s.after_success().wf(),
        s.after_failure(max_failures, cooldown_seconds, now_ms).wf(),
        s.after_throttle(now_ms).wf(),
        s.after_availability_check(now_ms).wf(),
        s.after_mark_unhealthy(cooldown_seconds, now_ms).wf(),
{
    lemma_bump_balanced(s.success_count, s.failure_count, s.throttle_count, s.request_count);
    lemma_bump_balanced(s.failure_count, s.success_count, s.throttle_count, s.request_count);
    lemma_bump_balanced(s.throttle_count, s.success_count, s.failure_count, s.request_count);
}

/// Starting from a clean streak, an endpoint stays healthy through fewer
/// than `max_failures` consecutive failures, and is unhealthy once the
/// streak reaches `max_failures`.
pub proof fn lemma_unhealthy_after_max_failures(
    s: HealthState,
    max_failures: u32,
    cooldown_seconds: u64,
    times: Seq<u64>,
)
    requires
        s.consecutive_failures == 0,
        s.is_healthy,
        1 <= times.len() <= max_failures,
    ensures
        after_failures(s, max_failures, cooldown_seconds, times).consecutive_failures
            == times.len(),
        times.len() < max_failures ==> after_failures(
            s,
            max_failures,
            cooldown_seconds,
            times,
        ).is_healthy,
        times.len() == max_failures ==> !after_failures(
            s,
            max_failures,
            cooldown_seconds,
            times,
        ).is_healthy,
    decreases times.len(),
{
    let prev = after_failures(s, max_failures, cooldown_seconds, times.drop_last());
    if times.len() > 1 {
        lemma_unhealthy_after_max_failures(s, max_failures, cooldown_seconds, times.drop_last());
    } else {
        assert(times.drop_last().len() == 0);
        assert(prev == s);
    }
    assert(prev.consecutive_failures == times.len() - 1);
    assert(prev.consecutive_failures + 1 <= u32::MAX);
}

/// A success clears the failure streak and makes the endpoint healthy; if
/// no throttle is running it is available at once.
pub proof fn lemma_success_restores(s: HealthState, now_ms: u64)
    ensures
        s.after_success().consecutive_failures == 0,
        s.after_success().is_healthy,
        s.after_success().throttle_backoff_ms == THROTTLE_BACKOFF_INIT_MS,
        s.after_success().available_at(now_ms),
{
}

/// An endpoint that turns unhealthy at `now_ms` is unavailable until the
/// cooldown ends and available from then on, unless a throttle is running;
/// with a zero cooldown it is available again at once.
pub proof fn lemma_cooldown_recovery(
    s: HealthState,
    max_failures: u32,
    cooldown_seconds: u64,
    now_ms: u64,
    later_ms: u64,
)
    requires
        s.consecutive_failures + 1 >= max_failures,
        !s.after_failure(max_failures, cooldown_seconds, now_ms).throttled_at(later_ms),
    ensures
        later_ms < after_secs(now_ms, cooldown_seconds) ==> !s.after_failure(
            max_failures,
            cooldown_seconds,
            now_ms,
        ).available_at(later_ms),
        later_ms >= after_secs(now_ms, cooldown_seconds) ==> s.after_failure(
            max_failures,
            cooldown_seconds,
            now_ms,
        ).available_at(later_ms),
        later_ms >= after_secs(now_ms, cooldown_seconds) ==> s.after_failure(
            max_failures,
            cooldown_seconds,
            now_ms,
        ).after_availability_check(later_ms).is_healthy,
{
}

/// Two to the power `k`.
pub open spec fn two_to(k: nat) -> nat
    decreases k,
{
    if k == 0 {
        1
    } else {
        2 * two_to((k - 1) as nat)
    }
}

/// The throttle backoff after `k` throttles in a row from a fresh backoff:
/// one second doubled `k` times, at most thirty seconds.
pub open spec fn backoff_after(k: nat) -> int {
    let d = THROTTLE_BACKOFF_INIT_MS * two_to(k);
    if d < THROTTLE_BACKOFF_MAX_MS {
        d
    } else {
        THROTTLE_BACKOFF_MAX_MS as int
    }
}

/// The state after a throttle at each instant of `times`, in order.
pub open spec fn after_throttles(s: HealthState, times: Seq<u64>) -> HealthState
    decreases times.len(),
{
    if times.len() == 0 {
        s
    } else {
        after_throttles(s, times.drop_last()).after_throttle(times.last())
    }
}

/// Throttle backoff over a run of throttles: from a fresh backoff (a new
/// record, or any record after a success), the `k`-th throttle of a run
/// avoids the endpoint for one second doubled `k - 1` times, at most thirty
/// seconds, from the moment of that throttle; a success resets the backoff.
pub proof fn lemma_throttle_backoff_doubles(s: HealthState, times: Seq<u64>)
    requires
        s.throttle_backoff_ms == THROTTLE_BACKOFF_INIT_MS,
    ensures
        after_throttles(s, times).throttle_backoff_ms == backoff_after(times.len()),
        times.len() >= 1 ==> after_throttles(s, times).throttled_until == Some(
            after_ms(times.last(), backoff_after((times.len() - 1) as nat) as u64),
        ),
        after_throttles(s, times).after_success().throttle_backoff_ms == THROTTLE_BACKOFF_INIT_MS,
    decreases times.len(),
{
    if times.len() > 0 {
        let k = (times.len() - 1) as nat;
        lemma_throttle_backoff_doubles(s, times.drop_last());
        assert(two_to(k + 1) == 2 * two_to(k));
        let prev = after_throttles(s, times.drop_last());
        assert(prev.throttle_backoff_ms == backoff_after(k));
        assert(THROTTLE_BACKOFF_INIT_MS * two_to(k + 1) == 2 * (THROTTLE_BACKOFF_INIT_MS * two_to(k)))
            by (nonlinear_arith)
            requires
                two_to(k + 1) == 2 * two_to(k),
        ;
    }
}

/// Re-enabling after a cooldown starts afresh: an unhealthy endpoint whose
/// cooldown deadline has passed and that is not throttled becomes healthy
/// at its availability check, with a failure streak of zero and no
/// deadline; it then stays healthy through fewer than `max_failures`
/// further failures and turns unhealthy at exactly `max_failures`.
pub proof fn lemma_reenable_starts_fresh_streak(
    s: HealthState,
    now_ms: u64,
    max_failures: u32,
    cooldown_seconds: u64,
    times: Seq<u64>,
)
    requires
        !s.is_healthy,
        s.unhealthy_until matches Some(u) && now_ms >= u,
        !(s.throttled_until matches Some(t) && now_ms < t),
    ensures
        s.after_availability_check(now_ms).is_healthy,
        s.after_availability_check(now_ms).consecutive_failures == 0,
        s.after_availability_check(now_ms).unhealthy_until is None,
        1 <= times.len() < max_failures ==> after_failures(
            s.after_availability_check(now_ms),
            max_failures,
            cooldown_seconds,
            times,
        ).is_healthy,
        1 <= times.len() == max_failures ==> !after_failures(
            s.after_availability_check(now_ms),
            max_failures,
            cooldown_seconds,
            times,
        ).is_healthy,
{
    if 1 <= times.len() <= max_failures {
        lemma_unhealthy_after_max_failures(
            s.after_availability_check(now_ms),
            max_failures,
            cooldown_seconds,
            times,
        );
    }
}

/// A throttle is no failure: the failure streak and the health flag stay,
/// the endpoint is avoided for the current backoff, and the backoff doubles
/// up to its cap.
pub proof fn lemma_throttle_is_not_failure(s: HealthState, now_ms: u64)
    requires
        s.wf(),
    ensures
        s.after_throttle(now_ms).consecutive_failures == s.consecutive_failures,
        s.after_throttle(now_ms).is_healthy == s.is_healthy,
        s.after_throttle(now_ms).failure_count == s.failure_count,
        now_ms + s.throttle_backoff_ms <= u64::MAX ==> s.after_throttle(now_ms).throttled_at(
            now_ms,
        ),
        s.after_throttle(now_ms).throttle_backoff_ms == if s.throttle_backoff_ms * 2
            < THROTTLE_BACKOFF_MAX_MS {
            s.throttle_backoff_ms * 2
        } else {
            THROTTLE_BACKOFF_MAX_MS as int
        },
{
}

/// The health and telemetry record of one upstream endpoint.
#[derive(Debug)]
pub struct EndpointHealth {
    state: HealthState,
}

/// A point-in-time copy of health data.
#[derive(Debug, Clone, Copy)]
pub struct EndpointHealthSnapshot {
    pub consecutive_failures: u32,
    pub is_healthy: bool,
    pub is_throttled: bool,
    pub block_height: Option<u64>,
    pub last_latency_ms: Option<u64>,
    pub request_count: u64,
    pub success_count: u64,
    pub failure_count: u64,
    pub throttle_count: u64,
}

/// A stored value, with the "no data" sentinel read as `None`.
pub open spec fn optional(v: u64) -> Option<u64> {
    if v == NONE_U64 {
        None
    } else {
        Some(v)
    }
}

fn saturating_after_secs(now_ms: u64, secs: u64) -> (r: u64)
    ensures
        r == after_secs(now_ms, secs),
{
    match secs.checked_mul(1000) {
        Some(ms) => now_ms.saturating_add(ms),
        None => u64::MAX,
    }
}

impl View for EndpointHealth {
    type V = HealthState;

    closed spec fn view(&self) -> HealthState {
        self.state
    }
}

impl Default for EndpointHealth {
    fn default() -> (r: Self)
        ensures
            r@ == HealthState::initial(),
    {
        Self::new()
    }
}

impl EndpointHealth {
    #[verifier::type_invariant]
    spec fn inv(self) -> bool {
        self.state.wf()
    }

    /// A fresh record: healthy, no data, nothing counted.
    pub fn new() -> (r: Self)
        ensures
            r@ == HealthState::initial(),
    {
        EndpointHealth {
            state: HealthState {
                consecutive_failures: 0,
                last_failure: None,
                is_healthy: true,
                unhealthy_until: None,
                throttled_until: None,
                throttle_backoff_ms: THROTTLE_BACKOFF_INIT_MS,
                block_height: NONE_U64,
                last_latency_ms: NONE_U64,
                request_count: 0,
                success_count: 0,
                failure_count: 0,
                throttle_count: 0,
            },
        }
    }

    /// The record as plain values.
    pub fn state(&self) -> (r: HealthState)
        ensures
            r == self@,
            r.wf(),
    {
        proof {
            use_type_invariant(self);
        }
        self.state
    }

    /// A success clears the failure streak, the cooldown and the throttle
    /// backoff, and marks the endpoint healthy.
    pub fn record_success(&mut self)
        ensures
            final(self)@ == old(self)@.after_success(),
    {
        proof {
            use_type_invariant(&*self);
            let s = self.state;
            lemma_bump_balanced(s.success_count, s.failure_count, s.throttle_count, s.request_count);
        }
        let s = self.state;
        self.state = HealthState {
            consecutive_failures: 0,
            is_healthy: true,
            last_failure: None,
            unhealthy_until: None,
            throttle_backoff_ms: THROTTLE_BACKOFF_INIT_MS,
            throttled_until: None,
            request_count: s.request_count.wrapping_add(1),
            success_count: s.success_count.wrapping_add(1),
            ..s
        };
    }

    /// A failure at `now_ms` lengthens the failure streak; once the streak
    /// reaches `max_failures` the endpoint is unhealthy, and it becomes
    /// eligible again `cooldown_seconds` later (at once for a zero cooldown).
    pub fn record_failure(&mut self, max_failures: u32, cooldown_seconds: u64, now_ms: u64)
        ensures
            final(self)@ == old(self)@.after_failure(max_failures, cooldown_seconds, now_ms),
    {
        proof {
            use_type_invariant(&*self);
            let s = self.state;
            lemma_bump_balanced(s.failure_count, s.success_count, s.throttle_count, s.request_count);
        }
        let s = self.state;
        let prev = s.consecutive_failures;
        let reached = prev as u64 + 1 >= max_failures as u64;
        let unhealthy_until = if reached {
            Some(saturating_after_secs(now_ms, cooldown_seconds))
        } else {
            s.unhealthy_until
        };
        self.state = HealthState {
            consecutive_failures: prev.wrapping_add(1),
            last_failure: Some(now_ms),
            request_count: s.request_count.wrapping_add(1),
            failure_count: s.failure_count.wrapping_add(1),
            is_healthy: if reached { false } else { s.is_healthy },
            unhealthy_until,
            ..s
        };
    }

    /// An upstream 429 at `now_ms`: the endpoint is avoided for the current
    /// backoff, which then doubles up to 30 seconds. It is no failure.
    pub fn record_throttle(&mut self, now_ms: u64)
        ensures
            final(self)@ == old(self)@.after_throttle(now_ms),
    {
        proof {
            use_type_invariant(&*self);
            let s = self.state;
            lemma_bump_balanced(s.throttle_count, s.success_count, s.failure_count, s.request_count);
        }
        let s = self.state;
        let backoff_ms = s.throttle_backoff_ms;
        let doubled = backoff_ms * 2;
        let next = if doubled < THROTTLE_BACKOFF_MAX_MS { doubled } else { THROTTLE_BACKOFF_MAX_MS };
        self.state = HealthState {
            request_count: s.request_count.wrapping_add(1),
            throttle_count: s.throttle_count.wrapping_add(1),
            throttled_until: Some(now_ms.saturating_add(backoff_ms)),
            throttle_backoff_ms: next,
            ..s
        };
    }

    /// Whether the endpoint may take requests at `now_ms`: not throttled, and
    /// healthy or past its cooldown (which re-enables it for probing).
    pub fn is_available(&mut self, now_ms: u64) -> (r: bool)
        ensures
            r == old(self)@.available_at(now_ms),
            final(self)@ == old(self)@.after_availability_check(now_ms),
    {
        proof {
            use_type_invariant(&*self);
        }
        let s = self.state;
        if let Some(until) = s.throttled_until {
            if now_ms < until {
                return false;
            }
        }
        if s.is_healthy {
            return true;
        }
        if let Some(until) = s.unhealthy_until {
            if now_ms >= until {
                self.state = HealthState {
                    is_healthy: true,
                    consecutive_failures: 0,
                    unhealthy_until: None,
                    ..s
                };
                return true;
            }
        }
        false
    }

    /// Whether a throttle backoff is running at `now_ms`.
    pub fn is_throttled(&self, now_ms: u64) -> (r: bool)
        ensures
            r == self@.throttled_at(now_ms),
    {
        match self.state.throttled_until {
            Some(until) => now_ms < until,
            None => false,
        }
    }

    /// Records the latest block height reported by the endpoint.
    pub fn update_block_height(&mut self, height: u64)
        ensures
            final(self)@ == (HealthState { block_height: height, ..old(self)@ }),
    {
        proof {
            use_type_invariant(&*self);
        }
        let s = self.state;
        self.state = HealthState { block_height: height, ..s };
    }

    /// Records the latency of the last request.
    pub fn update_latency(&mut self, latency_ms: u64)
        ensures
            final(self)@ == (HealthState { last_latency_ms: latency_ms, ..old(self)@ }),
    {
        proof {
            use_type_invariant(&*self);
        }
        let s = self.state;
        self.state = HealthState { last_latency_ms: latency_ms, ..s };
    }

    /// The hard health flag, regardless of throttling and cooldown.
    pub fn is_healthy(&self) -> (r: bool)
        ensures
            r == self@.is_healthy,
    {
        self.state.is_healthy
    }

    /// The current failure streak.
    pub fn consecutive_failures(&self) -> (r: u32)
        ensures
            r == self@.consecutive_failures,
    {
        self.state.consecutive_failures
    }

    /// The last reported block height, if any.
    pub fn block_height(&self) -> (r: Option<u64>)
        ensures
            r == optional(self@.block_height),
    {
        let v = self.state.block_height;
        if v == NONE_U64 {
            None
        } else {
            Some(v)
        }
    }

    /// The latency of the last request, if any.
    pub fn last_latency_ms(&self) -> (r: Option<u64>)
        ensures
            r == optional(self@.last_latency_ms),
    {
        let v = self.state.last_latency_ms;
        if v == NONE_U64 {
            None
        } else {
            Some(v)
        }
    }

    /// Marks the endpoint unhealthy, with no cooldown change.
    pub fn mark_unhealthy(&mut self)
        ensures
            final(self)@ == (HealthState { is_healthy: false, ..old(self)@ }),
    {
        proof {
            use_type_invariant(&*self);
        }
        let s = self.state;
        self.state = HealthState { is_healthy: false, ..s };
    }

    /// Marks the endpoint unhealthy; it becomes eligible again
    /// `cooldown_seconds` after `now_ms` (at once for a zero cooldown).
    pub fn mark_unhealthy_with_cooldown(&mut self, cooldown_seconds: u64, now_ms: u64)
        ensures
            final(self)@ == old(self)@.after_mark_unhealthy(cooldown_seconds, now_ms),
    {
        proof {
            use_type_invariant(&*self);
        }
        let s = self.state;
        let unhealthy_until = Some(saturating_after_secs(now_ms, cooldown_seconds));
        self.state = HealthState { is_healthy: false, unhealthy_until, ..s };
    }

    /// Returns true if this endpoint failed earlier than `other`; an endpoint
    /// that never failed counts as earlier than one that did.
    pub fn failed_earlier_than(&self, other: &EndpointHealth) -> (r: bool)
        ensures
            r == failed_before(self@.last_failure, other@.last_failure),
    {
        match (self.state.last_failure, other.state.last_failure) {
            (Some(a), Some(b)) => a < b,
            (None, Some(_)) => true,
            _ => false,
        }
    }

    /// Whether a request may be tried at `now_ms`: the endpoint is healthy,
    /// has no recorded failure, or its last failure is at least
    /// `cooldown_secs` whole seconds old.
    pub fn should_retry(&self, cooldown_secs: u64, now_ms: u64) -> (r: bool)
        ensures
            r == (self@.is_healthy || match self@.last_failure {
                Some(last) => elapsed_secs(last, now_ms) >= cooldown_secs,
                None => true,
            }),
    {
        if self.state.is_healthy {
            return true;
        }
        match self.state.last_failure {
            Some(last) => {
                let elapsed = if now_ms >= last { (now_ms - last) / 1000 } else { 0 };
                elapsed >= cooldown_secs
            },
            None => true,
        }
    }

    /// Snapshot for status reporting at `now_ms`; the failure streak is read
    /// before the availability check, which may end a cooldown.
    pub fn snapshot(&mut self, now_ms: u64) -> (r: EndpointHealthSnapshot)
        ensures
            final(self)@ == old(self)@.after_availability_check(now_ms),
            r == snapshot_of(old(self)@, now_ms),
    {
        let consecutive_failures = self.state.consecutive_failures;
        let is_healthy = self.is_available(now_ms);
        let is_throttled = self.is_throttled(now_ms);
        EndpointHealthSnapshot {
            consecutive_failures,
            is_healthy,
            is_throttled,
            block_height: self.block_height(),
            last_latency_ms: self.last_latency_ms(),
            request_count: self.state.request_count,
            success_count: self.state.success_count,
            failure_count: self.state.failure_count,
            throttle_count: self.state.throttle_count,
        }
    }
}

/// Whole seconds from `last` to `now_ms`; zero if `now_ms` is earlier.
pub open spec fn elapsed_secs(last: u64, now_ms: u64) -> u64 {
    if now_ms >= last {
        ((now_ms - last) / 1000) as u64
    } else {
        0
    }
}

/// Ordering of last-failure instants: no failure comes before any failure.
pub open spec fn failed_before(a: Option<u64>, b: Option<u64>) -> bool {
    match (a, b) {
        (Some(x), Some(y)) => x < y,
        (None, Some(_)) => true,
        _ => false,
    }
}

/// The snapshot of a record taken at `now_ms`.
pub open spec fn snapshot_of(s: HealthState, now_ms: u64) -> EndpointHealthSnapshot {
    EndpointHealthSnapshot {
        consecutive_failures: s.consecutive_failures,
        is_healthy: s.available_at(now_ms),
        is_throttled: s.throttled_at(now_ms),
        block_height: optional(s.block_height),
        last_latency_ms: optional(s.last_latency_ms),
        request_count: s.request_count,
        success_count: s.success_count,
        failure_count: s.failure_count,
        throttle_count: s.throttle_count,
    }
}

} // verus!
