//! The retry loop of a proxied request, as a state machine: the caller
//! performs each action (wait, hedge, choose, forward) and reports what
//! came of it.
use crate::config::HedgeConfig;
use crate::health::pool::{
    checked, count_available, eligible_for, lemma_eligible_for_facts,
    lemma_eligible_weight_bounded, lemma_selection_respects_exclusion, select_from, ChainPool,
    PoolView,
};
use crate::health::state::{bumped, HealthState};
use crate::config::RotationStrategy;
use crate::metrics::ChainMetrics;
use crate::proxy::forwarder::{error_text, ForwardError};
use crate::proxy::hedge::HedgeOutcome;
use crate::proxy::request::ProxyReply;
use vstd::prelude::*;
use vstd::string::*;

verus! {

/// Where a request stands in its retry loop.
#[derive(Debug, Clone, Copy, PartialEq, Eq, Structural)]
pub enum RetryPhase {
    /// Before the current attempt; its delay has not been waited yet.
    Ready,
    /// The delay before the current attempt has been waited.
    Waited,
    /// An endpoint for the current attempt is being chosen.
    Selecting,
    /// The current attempt went to this endpoint.
    Forwarding(usize),
    /// The first attempt runs hedged.
    Hedging,
    /// The request has been answered.
    Done,
}

/// The retry loop as plain values.
pub struct RetryView {
    pub eligible: Seq<usize>,
    pub excluded: Seq<usize>,
    pub attempt: u64,
    pub total_attempts: u64,
    pub base_delay_ms: u64,
    pub request_count: u64,
    pub last_error: Seq<char>,
    pub phase: RetryPhase,
}

/// What the caller does next.
#[derive(Debug)]
pub enum RetryAction {
    /// Call `next`.
    Continue,
    /// Wait this many milliseconds, then call `next`.
    Sleep(u64),
    /// Run the first attempt hedged, then call `hedge_finished`.
    Hedge(HedgeConfig),
    /// Choose an endpoint among the eligible ones minus the excluded ones,
    /// then call `selected` (or let `select` choose).
    Select,
    /// Forward the request to this endpoint, then call `forward_finished`.
    Forward(usize, String),
    /// The upstream answer goes back to the client.
    Succeeded,
    /// The proxy answers with this error.
    Respond(ProxyReply),
}

/// The factor of the base delay before retry `attempt`: doubling per
/// retry, at most sixteen.
pub open spec fn backoff_factor(attempt: int) -> int {
    if attempt <= 1 {
        1
    } else if attempt == 2 {
        2
    } else if attempt == 3 {
        4
    } else if attempt == 4 {
        8
    } else {
        16
    }
}

/// The delay before attempt `attempt` (from 1): the base delay, or 100 ms
/// when the base is zero, times `backoff_factor(attempt)`.
pub open spec fn backoff_ms(base: u64, attempt: int) -> int {
    (if base > 0 {
        base as int
    } else {
        100
    }) * backoff_factor(attempt)
}

/// The longest delay of the policy fits in 64 bits.
pub open spec fn delays_fit(base: u64, max_retries: u32) -> bool {
    max_retries == 0 || backoff_ms(base, max_retries as int) <= u64::MAX
}

/// Whether the longest delay of a retry policy fits in 64 bits, as
/// `delays_fit` states it.
pub fn retry_policy_fits(base_delay_ms: u64, max_retries: u32) -> (r: bool)
    ensures
        r == delays_fit(base_delay_ms, max_retries),
{
    if max_retries == 0 {
        return true;
    }
    let unit: u64 = if base_delay_ms > 0 {
        base_delay_ms
    } else {
        100
    };
    let factor: u64 = if max_retries <= 1 {
        1
    } else if max_retries == 2 {
        2
    } else if max_retries == 3 {
        4
    } else if max_retries == 4 {
        8
    } else {
        16
    };
    unit <= u64::MAX / factor
}

proof fn lemma_backoff_monotone(base: u64, a: int, b: int)
    requires
        a <= b,
    ensures
        backoff_ms(base, a) <= backoff_ms(base, b),
{
    let unit: int = if base > 0 {
        base as int
    } else {
        100
    };
    let fa = backoff_factor(a);
    let fb = backoff_factor(b);
    assert(unit * fa <= unit * fb) by (nonlinear_arith)
        requires
            unit >= 0,
            fa <= fb,
    ;
}

/// The retry loop of one request.
#[derive(Debug)]
pub struct Retry {
    eligible: Vec<usize>,
    excluded: Vec<usize>,
    attempt: u64,
    total_attempts: u64,
    base_delay_ms: u64,
    request_count: u64,
    last_error: String,
    phase: RetryPhase,
}

impl View for Retry {
    type V = RetryView;

    closed spec fn view(&self) -> RetryView {
        RetryView {
            eligible: self.eligible@,
            excluded: self.excluded@,
            attempt: self.attempt,
            total_attempts: self.total_attempts,
            base_delay_ms: self.base_delay_ms,
            request_count: self.request_count,
            last_error: self.last_error@,
            phase: self.phase,
        }
    }
}

impl Retry {
    /// What every retry loop keeps: a nonempty set of distinct eligible
    /// endpoints, no more attempts than allowed, delays that fit, and
    /// attempts under way only while some are left.
    pub open spec fn retry_ok(v: RetryView) -> bool {
        &&& v.eligible.len() > 0
        &&& v.eligible.no_duplicates()
        &&& 1 <= v.total_attempts <= u32::MAX as int + 1
        &&& v.attempt <= v.total_attempts
        &&& (v.total_attempts > 1 ==> backoff_ms(v.base_delay_ms, v.total_attempts - 1) <= u64::MAX)
        &&& (v.phase is Waited || v.phase is Selecting || v.phase is Forwarding || v.phase is Hedging)
            ==> v.attempt < v.total_attempts
        &&& (v.phase is Hedging ==> v.attempt == 0)
    }

    #[verifier::type_invariant]
    spec fn inv(self) -> bool {
        Self::retry_ok(self@)
    }

    /// Starts the retry loop of a request for `method` carrying
    /// `request_count` calls, with the pool's retry policy. With no endpoint
    /// eligible for the method the request fails at once (503), counted as
    /// `request_count` failures.
    pub fn start(pool: &ChainPool, method: &str, request_count: u64, metrics: &mut ChainMetrics) -> (r: Result<Retry, ProxyReply>)
        requires
            delays_fit(pool@.health_config.retry_delay_ms, pool@.health_config.max_retries),
        ensures
            eligible_for(pool@, method@).len() == 0 ==> {
                &&& r matches Err(e) && e.status == 503 && e.message@
                    == "No endpoints configured for method: "@ + method@
                &&& *final(metrics) == (ChainMetrics {
                    failed_requests: bumped(old(metrics).failed_requests, request_count),
                    ..*old(metrics)
                })
            },
            eligible_for(pool@, method@).len() > 0 ==> {
                &&& r matches Ok(t) && t@ == (RetryView {
                    eligible: eligible_for(pool@, method@),
                    excluded: Seq::empty(),
                    attempt: 0,
                    total_attempts: (pool@.health_config.max_retries + 1) as u64,
                    base_delay_ms: pool@.health_config.retry_delay_ms,
                    request_count,
                    last_error: Seq::empty(),
                    phase: RetryPhase::Ready,
                })
                &&& *final(metrics) == *old(metrics)
            },
            r matches Ok(t) ==> Self::retry_ok(t@),
    {
        let n = pool.len();
        let eligible = pool.eligible_indices_for_method(method);
        proof {
            lemma_eligible_for_facts(pool@, method@);
        }
        if eligible.len() == 0 {
            metrics.record_failures(request_count);
            return Err(
                ProxyReply {
                    status: 503,
                    message: String::from_str("No endpoints configured for method: ").concat(method),
                },
            );
        }
        let policy = pool.health_config();
        let total_attempts: u64 = policy.max_retries as u64 + 1;
        let r = Retry {
            eligible,
            excluded: Vec::new(),
            attempt: 0,
            total_attempts,
            base_delay_ms: policy.retry_delay_ms,
            request_count,
            last_error: String::new(),
            phase: RetryPhase::Ready,
        };
        Ok(r)
    }

    /// The delay before the current attempt, as `backoff_ms` states it.
    fn backoff(&self) -> (r: u64)
        requires
            1 <= self@.attempt < self@.total_attempts,
            Self::retry_ok(self@),
        ensures
            r == backoff_ms(self@.base_delay_ms, self@.attempt as int),
    {
        proof {
            lemma_backoff_monotone(self.base_delay_ms, self.attempt as int, self.total_attempts - 1);
        }
        let unit: u64 = if self.base_delay_ms > 0 {
            self.base_delay_ms
        } else {
            100
        };
        let factor: u64 = if self.attempt <= 1 {
            1
        } else if self.attempt == 2 {
            2
        } else if self.attempt == 3 {
            4
        } else if self.attempt == 4 {
            8
        } else {
            16
        };
        unit * factor
    }

    /// The next step before an attempt. With no attempt left the request
    /// fails (502) with the last error, counted as failures. A retry first
    /// waits its backoff delay. The first attempt is hedged when the chain
    /// hedges and more than half of all endpoints are available among the
    /// active ones; otherwise an endpoint is chosen.
    pub fn next(&mut self, pool: &mut ChainPool, metrics: &mut ChainMetrics, now_ms: u64) -> (r: RetryAction)
        requires
            old(self)@.phase == RetryPhase::Ready || old(self)@.phase == RetryPhase::Waited,
        ensures
            Self::retry_ok(final(self)@),
            ({
                let v = old(self)@;
                let p = old(pool)@;
                let counted = checked(p.health, p.active, now_ms);
                if v.phase == RetryPhase::Ready && v.attempt >= v.total_attempts {
                    &&& final(self)@ == (RetryView { phase: RetryPhase::Done, ..v })
                    &&& final(pool)@ == p
                    &&& *final(metrics) == (ChainMetrics {
                        failed_requests: bumped(old(metrics).failed_requests, v.request_count),
                        ..*old(metrics)
                    })
                    &&& r matches RetryAction::Respond(e) && e.status == 502 && e.message@
                        == "All attempts failed: "@ + v.last_error
                } else if v.phase == RetryPhase::Ready && v.attempt > 0 {
                    &&& final(self)@ == (RetryView { phase: RetryPhase::Waited, ..v })
                    &&& final(pool)@ == p
                    &&& *final(metrics) == *old(metrics)
                    &&& r == RetryAction::Sleep(backoff_ms(v.base_delay_ms, v.attempt as int) as u64)
                } else if v.attempt == 0 && p.hedge_config is Some && count_available(
                    p.health,
                    p.active,
                    now_ms,
                ) > p.len() / 2 {
                    &&& final(self)@ == (RetryView { phase: RetryPhase::Hedging, ..v })
                    &&& final(pool)@ == p.with_health(counted)
                    &&& *final(metrics) == *old(metrics)
                    &&& r == RetryAction::Hedge(p.hedge_config.unwrap())
                } else {
                    &&& final(self)@ == (RetryView { phase: RetryPhase::Selecting, ..v })
                    &&& final(pool)@ == (if v.attempt == 0 && p.hedge_config is Some {
                        p.with_health(counted)
                    } else {
                        p
                    })
                    &&& *final(metrics) == *old(metrics)
                    &&& r == RetryAction::Select
                }
            }),
    {
        proof {
            use_type_invariant(&*self);
        }
        if self.phase == RetryPhase::Ready {
            if self.attempt >= self.total_attempts {
                metrics.record_failures(self.request_count);
                self.phase = RetryPhase::Done;
                return RetryAction::Respond(
                    ProxyReply {
                        status: 502,
                        message: String::from_str("All attempts failed: ").concat(
                            self.last_error.as_str(),
                        ),
                    },
                );
            }
            if self.attempt > 0 {
                let delay = self.backoff();
                self.phase = RetryPhase::Waited;
                return RetryAction::Sleep(delay);
            }
        }
        if self.attempt == 0 {
            match pool.hedge_config() {
                Some(hedge) => {
                    let healthy = pool.healthy_count(now_ms);
                    let total = pool.len();
                    if healthy > total / 2 {
                        self.phase = RetryPhase::Hedging;
                        return RetryAction::Hedge(hedge);
                    }
                },
                None => {},
            }
        }
        self.phase = RetryPhase::Selecting;
        RetryAction::Select
    }

    /// Takes the endpoint chosen for the current attempt: the request is
    /// forwarded there; when none could be chosen it fails (503), counted as
    /// failures.
    pub fn selected(&mut self, metrics: &mut ChainMetrics, choice: Option<(usize, String)>) -> (r: RetryAction)
        requires
            old(self)@.phase == RetryPhase::Selecting,
        ensures
            Self::retry_ok(final(self)@),
            match choice {
                None => {
                    &&& final(self)@ == (RetryView { phase: RetryPhase::Done, ..old(self)@ })
                    &&& *final(metrics) == (ChainMetrics {
                        failed_requests: bumped(old(metrics).failed_requests, old(self)@.request_count),
                        ..*old(metrics)
                    })
                    &&& r matches RetryAction::Respond(e) && e.status == 503 && e.message@
                        == "All endpoints are unhealthy"@
                },
                Some((idx, url)) => {
                    &&& final(self)@ == (RetryView { phase: RetryPhase::Forwarding(idx), ..old(self)@ })
                    &&& *final(metrics) == *old(metrics)
                    &&& r == RetryAction::Forward(idx, url)
                },
            },
    {
        proof {
            use_type_invariant(&*self);
        }
        match choice {
            None => {
                metrics.record_failures(self.request_count);
                self.phase = RetryPhase::Done;
                RetryAction::Respond(
                    ProxyReply { status: 503, message: String::from_str("All endpoints are unhealthy") },
                )
            },
            Some((idx, url)) => {
                self.phase = RetryPhase::Forwarding(idx);
                RetryAction::Forward(idx, url)
            },
        }
    }

    /// Chooses the endpoint of the current attempt by the pool's rotation
    /// (round robin or weighted) among the eligible endpoints that are not
    /// excluded, and goes on as `selected` does.
    pub fn select(&mut self, pool: &mut ChainPool, metrics: &mut ChainMetrics, now_ms: u64) -> (r: RetryAction)
        requires
            old(self)@.phase == RetryPhase::Selecting,
            old(pool)@.rotation != RotationStrategy::Latency,
            forall|j: int| 0 <= j < old(self)@.eligible.len() ==> (#[trigger] old(self)@.eligible[j]) < old(pool)@.len(),
        ensures
            Self::retry_ok(final(self)@),
            ({
                let v = old(self)@;
                let (pick, hs, c) = select_from(old(pool)@, v.eligible, v.excluded, now_ms);
                &&& final(pool)@ == (PoolView { health: hs, counter: c, ..old(pool)@ })
                &&& match pick {
                    None => {
                        &&& final(self)@ == (RetryView { phase: RetryPhase::Done, ..v })
                        &&& *final(metrics) == (ChainMetrics {
                            failed_requests: bumped(old(metrics).failed_requests, v.request_count),
                            ..*old(metrics)
                        })
                        &&& r matches RetryAction::Respond(e) && e.status == 503 && e.message@
                            == "All endpoints are unhealthy"@
                    },
                    Some(i) => {
                        &&& final(self)@ == (RetryView { phase: RetryPhase::Forwarding(i), ..v })
                        &&& *final(metrics) == *old(metrics)
                        &&& r matches RetryAction::Forward(j, u) && j == i && u@
                            == old(pool)@.endpoints[i as int].url
                    },
                }
            }),
    {
        proof {
            use_type_invariant(&*self);
        }
        let n = pool.len();
        let total = pool.total_weight();
        proof {
            lemma_eligible_weight_bounded(pool@, self.eligible@, self.excluded@);
        }
        let choice = pool.next_endpoint_from_eligible(&self.eligible, &self.excluded, now_ms);
        self.selected(metrics, choice)
    }

    /// Takes what came of forwarding the current attempt, with the upstream
    /// latency on success. A success is recorded on the endpoint and counted;
    /// a 429 records a throttle (no failure) and counts an upstream throttle;
    /// any other error records a failure. A failed attempt excludes its
    /// endpoint from the rest of the request and the loop goes on.
    pub fn forward_finished(
        &mut self,
        pool: &mut ChainPool,
        metrics: &mut ChainMetrics,
        result: Result<u64, ForwardError>,
        now_ms: u64,
    ) -> (r: RetryAction)
        requires
            old(self)@.phase matches RetryPhase::Forwarding(idx) && idx < old(pool)@.len(),
        ensures
            Self::retry_ok(final(self)@),
            ({
                let v = old(self)@;
                let p = old(pool)@;
                let idx = match v.phase {
                    RetryPhase::Forwarding(i) => i,
                    _ => 0,
                };
                let retry = RetryView {
                    excluded: v.excluded.push(idx),
                    attempt: (v.attempt + 1) as u64,
                    phase: RetryPhase::Ready,
                    ..v
                };
                match result {
                    Ok(latency) => {
                        &&& final(self)@ == (RetryView { phase: RetryPhase::Done, ..v })
                        &&& final(pool)@ == p.with_health(
                            p.health.update(
                                idx as int,
                                HealthState { last_latency_ms: latency, ..p.health[idx as int].after_success() },
                            ),
                        )
                        &&& *final(metrics) == (ChainMetrics {
                            successful_requests: bumped(old(metrics).successful_requests, v.request_count),
                            ..*old(metrics)
                        })
                        &&& r == RetryAction::Succeeded
                    },
                    Err(ForwardError::RateLimited) => {
                        &&& final(self)@ == (RetryView { last_error: "Rate limited (429)"@, ..retry })
                        &&& final(pool)@ == p.with_health(
                            p.health.update(idx as int, p.health[idx as int].after_throttle(now_ms)),
                        )
                        &&& *final(metrics) == (ChainMetrics {
                            upstream_throttled: bumped(old(metrics).upstream_throttled, 1),
                            ..*old(metrics)
                        })
                        &&& r == RetryAction::Continue
                    },
                    Err(e) => {
                        &&& final(self)@ == (RetryView { last_error: error_text(e), ..retry })
                        &&& final(pool)@ == p.with_health(
                            p.health.update(
                                idx as int,
                                p.health[idx as int].after_failure(
                                    p.health_config.max_consecutive_failures,
                                    p.health_config.cooldown_seconds,
                                    now_ms,
                                ),
                            ),
                        )
                        &&& *final(metrics) == *old(metrics)
                        &&& r == RetryAction::Continue
                    },
                }
            }),
    {
        proof {
            use_type_invariant(&*self);
        }
        let idx = match self.phase {
            RetryPhase::Forwarding(i) => i,
            _ => 0,
        };
        match result {
            Ok(latency) => {
                pool.record_success_with_latency(idx, latency);
                metrics.record_successes(self.request_count);
                self.phase = RetryPhase::Done;
                RetryAction::Succeeded
            },
            Err(ForwardError::RateLimited) => {
                pool.record_throttle(idx, now_ms);
                metrics.record_upstream_throttled();
                self.last_error = String::from_str("Rate limited (429)");
                let mut excluded = self.excluded.clone();
                excluded.push(idx);
                assert(excluded@ =~= old(self)@.excluded.push(idx));
                self.excluded = excluded;
                self.phase = RetryPhase::Ready;
                self.attempt = self.attempt + 1;
                RetryAction::Continue
            },
            Err(e) => {
                self.last_error = e.message();
                pool.record_failure(idx, now_ms);
                let mut excluded = self.excluded.clone();
                excluded.push(idx);
                assert(excluded@ =~= old(self)@.excluded.push(idx));
                self.excluded = excluded;
                self.phase = RetryPhase::Ready;
                self.attempt = self.attempt + 1;
                RetryAction::Continue
            },
        }
    }

    /// Takes how the hedged first attempt ended: a success answers the
    /// request; when every hedged request failed, their endpoints are
    /// excluded and the loop goes on with the next attempt; when no endpoint
    /// could be chosen the request fails (503), counted as failures.
    pub fn hedge_finished(&mut self, metrics: &mut ChainMetrics, outcome: HedgeOutcome) -> (r: RetryAction)
        requires
            old(self)@.phase == RetryPhase::Hedging,
        ensures
            Self::retry_ok(final(self)@),
            match outcome {
                HedgeOutcome::Success => {
                    &&& final(self)@ == (RetryView { phase: RetryPhase::Done, ..old(self)@ })
                    &&& *final(metrics) == *old(metrics)
                    &&& r == RetryAction::Succeeded
                },
                HedgeOutcome::AllFailed { last_err, failed } => {
                    &&& final(self)@ == (RetryView {
                        excluded: old(self)@.excluded + failed@,
                        attempt: 1,
                        last_error: last_err@,
                        phase: RetryPhase::Ready,
                        ..old(self)@
                    })
                    &&& *final(metrics) == *old(metrics)
                    &&& r == RetryAction::Continue
                },
                HedgeOutcome::NoEndpoints => {
                    &&& final(self)@ == (RetryView { phase: RetryPhase::Done, ..old(self)@ })
                    &&& *final(metrics) == (ChainMetrics {
                        failed_requests: bumped(old(metrics).failed_requests, old(self)@.request_count),
                        ..*old(metrics)
                    })
                    &&& r matches RetryAction::Respond(e) && e.status == 503 && e.message@
                        == "All endpoints are unhealthy"@
                },
            },
    {
        proof {
            use_type_invariant(&*self);
        }
        match outcome {
            HedgeOutcome::Success => {
                self.phase = RetryPhase::Done;
                RetryAction::Succeeded
            },
            HedgeOutcome::AllFailed { last_err, failed } => {
                let ghost f = failed@;
                let mut tail = failed;
                let mut excluded = self.excluded.clone();
                excluded.append(&mut tail);
                assert(excluded@ =~= old(self)@.excluded + f);
                self.excluded = excluded;
                self.last_error = last_err;
                self.phase = RetryPhase::Ready;
                self.attempt = 1;
                RetryAction::Continue
            },
            HedgeOutcome::NoEndpoints => {
                metrics.record_failures(self.request_count);
                self.phase = RetryPhase::Done;
                RetryAction::Respond(
                    ProxyReply { status: 503, message: String::from_str("All endpoints are unhealthy") },
                )
            },
        }
    }

    /// The endpoints eligible for the request.
    pub fn eligible(&self) -> (r: &Vec<usize>)
        ensures
            r@ == self@.eligible,
            Self::retry_ok(self@),
    {
        proof {
            use_type_invariant(self);
        }
        &self.eligible
    }

    /// The endpoints that failed or throttled this request so far.
    pub fn excluded(&self) -> (r: &Vec<usize>)
        ensures
            r@ == self@.excluded,
    {
        &self.excluded
    }

    /// The number of the current attempt, from 0.
    pub fn attempt(&self) -> (r: u64)
        ensures
            r == self@.attempt,
    {
        self.attempt
    }
}

/// Within one request, an endpoint that failed or throttled is never chosen
/// again: once excluded, every later choice by the pool's rotation skips it.
pub proof fn lemma_failed_endpoint_not_chosen_again(
    p: PoolView,
    v: RetryView,
    idx: usize,
    now_ms: u64,
)
    requires
        v.excluded.contains(idx),
    ensures
        select_from(p, v.eligible, v.excluded, now_ms).0 != Some(idx),
{
    lemma_selection_respects_exclusion(p, v.eligible, v.excluded, now_ms);
}

} // verus!
