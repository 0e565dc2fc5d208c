//! The hedged first attempt of a request, as a state machine: a primary
//! request, then after each hedge delay one more parallel request, up to the
//! configured count; the first success wins.
use crate::config::{HedgeConfig, RotationStrategy};
use crate::health::pool::{
    lemma_eligible_weight_bounded, lemma_selection_respects_exclusion, select_from, ChainPool,
    PoolView,
};
use crate::health::state::{bumped, HealthState};
use crate::metrics::ChainMetrics;
use crate::proxy::forwarder::{error_text, ForwardError};
use vstd::prelude::*;
use vstd::string::*;

verus! {

/// How the hedged first attempt ended.
#[derive(Debug)]
pub enum HedgeOutcome {
    Success,
    AllFailed { last_err: String, failed: Vec<usize> },
    NoEndpoints,
}

/// Where a hedged attempt stands.
#[derive(Debug, Clone, Copy, PartialEq, Eq, Structural)]
pub enum HedgePhase {
    /// The primary endpoint is being chosen.
    Primary,
    /// The hedge delay passed; an extra endpoint is being chosen.
    Hedging,
    /// Every request in flight failed; a replacement is being chosen.
    Replacing,
    /// Requests are in flight.
    Racing,
    /// The attempt has ended.
    Done,
}

/// A hedged attempt as plain values.
pub struct HedgeView {
    pub eligible: Seq<usize>,
    pub used: Seq<usize>,
    pub failed: Seq<usize>,
    pub hedges_fired: u64,
    pub max_hedges: u64,
    pub in_flight: u64,
    pub request_count: u64,
    pub last_err: Seq<char>,
    pub phase: HedgePhase,
}

/// What the caller does next.
#[derive(Debug)]
pub enum HedgeAction {
    /// Choose an endpoint among the eligible ones not used yet, then call
    /// `selected` (or let `select` choose).
    Select,
    /// Start a request to this endpoint, then wait.
    Fire(usize, String),
    /// Wait for a request to complete (`completed`) or, while more hedges
    /// may be fired, for the hedge delay (`timer_fired`).
    Wait,
    /// The hedged attempt has ended.
    Finished(HedgeOutcome),
}

/// A hedged attempt.
#[derive(Debug)]
pub struct Hedge {
    eligible: Vec<usize>,
    used: Vec<usize>,
    failed: Vec<usize>,
    hedges_fired: u64,
    max_hedges: u64,
    in_flight: u64,
    request_count: u64,
    last_err: String,
    phase: HedgePhase,
}

impl View for Hedge {
    type V = HedgeView;

    closed spec fn view(&self) -> HedgeView {
        HedgeView {
            eligible: self.eligible@,
            used: self.used@,
            failed: self.failed@,
            hedges_fired: self.hedges_fired,
            max_hedges: self.max_hedges,
            in_flight: self.in_flight,
            request_count: self.request_count,
            last_err: self.last_err@,
            phase: self.phase,
        }
    }
}

impl Hedge {
    /// What every hedged attempt keeps: no more used endpoints than the
    /// primary and the hedges fired, no more hedges than allowed, and
    /// requests in flight while racing.
    pub open spec fn hedge_ok(v: HedgeView) -> bool {
        &&& v.eligible.no_duplicates()
        &&& v.max_hedges <= u32::MAX
        &&& v.hedges_fired <= v.max_hedges
        &&& (v.phase is Primary ==> v.hedges_fired == 0)
        &&& v.used.len() <= v.hedges_fired + 1
        &&& v.in_flight <= v.used.len()
        &&& (v.phase is Racing ==> v.in_flight >= 1)
        &&& (v.phase is Hedging ==> v.hedges_fired < v.max_hedges && v.in_flight >= 1)
        &&& (v.phase is Replacing ==> v.hedges_fired < v.max_hedges)
    }

    #[verifier::type_invariant]
    spec fn inv(self) -> bool {
        Self::hedge_ok(self@)
    }

    /// Starts a hedged attempt over `eligible` with the chain's hedging
    /// policy, for a request carrying `request_count` calls: the primary
    /// endpoint is chosen first.
    pub fn start(eligible: Vec<usize>, config: HedgeConfig, request_count: u64) -> (r: (Hedge, HedgeAction))
        requires
            eligible@.no_duplicates(),
        ensures
            r.0@ == (HedgeView {
                eligible: eligible@,
                used: Seq::empty(),
                failed: Seq::empty(),
                hedges_fired: 0,
                max_hedges: config.max_count as u64,
                in_flight: 0,
                request_count,
                last_err: Seq::empty(),
                phase: HedgePhase::Primary,
            }),
            r.1 == HedgeAction::Select,
            Self::hedge_ok(r.0@),
    {
        let h = Hedge {
            eligible,
            used: Vec::new(),
            failed: Vec::new(),
            hedges_fired: 0,
            max_hedges: config.max_count as u64,
            in_flight: 0,
            request_count,
            last_err: String::new(),
            phase: HedgePhase::Primary,
        };
        (h, HedgeAction::Select)
    }

    /// Takes the endpoint chosen for the primary request or an extra one.
    /// A chosen endpoint gets a request (an extra one counts as a hedged
    /// request). With none to choose: no primary means no endpoint; a
    /// missing replacement ends the attempt with the last error; after the
    /// hedge delay the attempt just waits on.
    pub fn selected(&mut self, metrics: &mut ChainMetrics, choice: Option<(usize, String)>) -> (r: HedgeAction)
        requires
            old(self)@.phase == HedgePhase::Primary || old(self)@.phase == HedgePhase::Hedging
                || old(self)@.phase == HedgePhase::Replacing,
        ensures
            Self::hedge_ok(final(self)@),
            ({
                let v = old(self)@;
                match choice {
                    Some((idx, url)) => {
                        &&& r == HedgeAction::Fire(idx, url)
                        &&& if v.phase == HedgePhase::Primary {
                            &&& final(self)@ == (HedgeView {
                                used: seq![idx],
                                in_flight: 1,
                                phase: HedgePhase::Racing,
                                ..v
                            })
                            &&& *final(metrics) == *old(metrics)
                        } else {
                            &&& final(self)@ == (HedgeView {
                                used: v.used.push(idx),
                                hedges_fired: (v.hedges_fired + 1) as u64,
                                in_flight: (v.in_flight + 1) as u64,
                                phase: HedgePhase::Racing,
                                ..v
                            })
                            &&& *final(metrics) == (ChainMetrics {
                                hedged_requests: bumped(old(metrics).hedged_requests, 1),
                                ..*old(metrics)
                            })
                        }
                    },
                    None => {
                        &&& *final(metrics) == *old(metrics)
                        &&& if v.phase == HedgePhase::Primary {
                            &&& final(self)@ == (HedgeView { phase: HedgePhase::Done, ..v })
                            &&& r == HedgeAction::Finished(HedgeOutcome::NoEndpoints)
                        } else if v.phase == HedgePhase::Replacing {
                            &&& final(self)@ == (HedgeView { phase: HedgePhase::Done, ..v })
                            &&& r matches HedgeAction::Finished(HedgeOutcome::AllFailed { last_err, failed })
                                && last_err@ == v.last_err && failed@ == v.failed
                        } else {
                            &&& final(self)@ == (HedgeView { phase: HedgePhase::Racing, ..v })
                            &&& r == HedgeAction::Wait
                        }
                    },
                }
            }),
    {
        proof {
            use_type_invariant(&*self);
        }
        match choice {
            Some((idx, url)) => {
                if self.phase == HedgePhase::Primary {
                    let mut used: Vec<usize> = Vec::new();
                    used.push(idx);
                    assert(used@ =~= seq![idx]);
                    self.used = used;
                    self.in_flight = 1;
                    self.phase = HedgePhase::Racing;
                } else {
                    let mut used = self.used.clone();
                    used.push(idx);
                    assert(used@ =~= old(self)@.used.push(idx));
                    *self = Hedge {
                        eligible: self.eligible.clone(),
                        used,
                        failed: self.failed.clone(),
                        hedges_fired: self.hedges_fired + 1,
                        max_hedges: self.max_hedges,
                        in_flight: self.in_flight + 1,
                        request_count: self.request_count,
                        last_err: self.last_err.clone(),
                        phase: HedgePhase::Racing,
                    };
                    assert(self.eligible@ =~= old(self)@.eligible);
                    assert(self.failed@ =~= old(self)@.failed);
                    metrics.record_hedged_requests(1);
                }
                HedgeAction::Fire(idx, url)
            },
            None => {
                if self.phase == HedgePhase::Primary {
                    self.phase = HedgePhase::Done;
                    HedgeAction::Finished(HedgeOutcome::NoEndpoints)
                } else if self.phase == HedgePhase::Replacing {
                    self.phase = HedgePhase::Done;
                    HedgeAction::Finished(
                        HedgeOutcome::AllFailed {
                            last_err: self.last_err.clone(),
                            failed: self.failed.clone(),
                        },
                    )
                } else {
                    self.phase = HedgePhase::Racing;
                    HedgeAction::Wait
                }
            },
        }
    }

    /// Chooses the primary or an extra endpoint by the pool's rotation (round
    /// robin or weighted) among the eligible endpoints not used yet, and goes
    /// on as `selected` does.
    pub fn select(&mut self, pool: &mut ChainPool, metrics: &mut ChainMetrics, now_ms: u64) -> (r: HedgeAction)
        requires
            old(self)@.phase == HedgePhase::Primary || old(self)@.phase == HedgePhase::Hedging
                || old(self)@.phase == HedgePhase::Replacing,
            old(pool)@.rotation != RotationStrategy::Latency,
            forall|j: int| 0 <= j < old(self)@.eligible.len() ==> (#[trigger] old(self)@.eligible[j]) < old(pool)@.len(),
        ensures
            Self::hedge_ok(final(self)@),
            ({
                let v = old(self)@;
                let (pick, hs, c) = select_from(old(pool)@, v.eligible, v.used, now_ms);
                &&& final(pool)@ == (PoolView { health: hs, counter: c, ..old(pool)@ })
                &&& match pick {
                    Some(i) => {
                        &&& r matches HedgeAction::Fire(j, u) && j == i && u@ == old(pool)@.endpoints[i as int].url
                        &&& final(self)@.used == (if v.phase == HedgePhase::Primary {
                            seq![i]
                        } else {
                            v.used.push(i)
                        })
                        &&& final(self)@.phase == HedgePhase::Racing
                    },
                    None => {
                        &&& v.phase == HedgePhase::Primary ==> r == HedgeAction::Finished(HedgeOutcome::NoEndpoints)
                        &&& v.phase == HedgePhase::Replacing ==> (r matches HedgeAction::Finished(
                            HedgeOutcome::AllFailed { last_err, failed },
                        ) && last_err@ == v.last_err && failed@ == v.failed)
                        &&& v.phase == HedgePhase::Hedging ==> r == HedgeAction::Wait
                        &&& final(self)@.used == v.used
                    },
                }
            }),
    {
        proof {
            use_type_invariant(&*self);
        }
        let n = pool.len();
        let total = pool.total_weight();
        proof {
            lemma_eligible_weight_bounded(pool@, self.eligible@, self.used@);
        }
        let choice = pool.next_endpoint_from_eligible(&self.eligible, &self.used, now_ms);
        self.selected(metrics, choice)
    }

    /// The hedge delay passed while more hedges may be fired: an extra
    /// endpoint is to be chosen.
    pub fn timer_fired(&mut self) -> (r: HedgeAction)
        requires
            old(self)@.phase == HedgePhase::Racing,
            old(self)@.hedges_fired < old(self)@.max_hedges,
        ensures
            Self::hedge_ok(final(self)@),
            final(self)@ == (HedgeView { phase: HedgePhase::Hedging, ..old(self)@ }),
            r == HedgeAction::Select,
    {
        proof {
            use_type_invariant(&*self);
        }
        self.phase = HedgePhase::Hedging;
        HedgeAction::Select
    }

    /// A request to endpoint `idx` completed, with the upstream latency on
    /// success. A success is recorded on the endpoint, counted, and wins. A
    /// 429 records a throttle (and counts an upstream throttle), any other
    /// error a failure; the endpoint joins the failed ones. When it was the
    /// last request in flight, a replacement is chosen while hedges are left,
    /// and otherwise the attempt ends with this error.
    pub fn completed(
        &mut self,
        pool: &mut ChainPool,
        metrics: &mut ChainMetrics,
        idx: usize,
        result: Result<u64, ForwardError>,
        now_ms: u64,
    ) -> (r: HedgeAction)
        requires
            old(self)@.phase == HedgePhase::Racing,
            idx < old(pool)@.len(),
        ensures
            Self::hedge_ok(final(self)@),
            ({
                let v = old(self)@;
                let p = old(pool)@;
                let left = (v.in_flight - 1) as u64;
                match result {
                    Ok(latency) => {
                        &&& final(self)@ == (HedgeView { phase: HedgePhase::Done, ..v })
                        &&& final(pool)@ == p.with_health(
                            p.health.update(
                                idx as int,
                                HealthState { last_latency_ms: latency, ..p.health[idx as int].after_success() },
                            ),
                        )
                        &&& *final(metrics) == (ChainMetrics {
                            successful_requests: bumped(old(metrics).successful_requests, v.request_count),
                            ..*old(metrics)
                        })
                        &&& r == HedgeAction::Finished(HedgeOutcome::Success)
                    },
                    Err(e) => {
                        &&& (e is RateLimited) ==> {
                            &&& final(pool)@ == p.with_health(
                                p.health.update(idx as int, p.health[idx as int].after_throttle(now_ms)),
                            )
                            &&& *final(metrics) == (ChainMetrics {
                                upstream_throttled: bumped(old(metrics).upstream_throttled, 1),
                                ..*old(metrics)
                            })
                        }
                        &&& !(e is RateLimited) ==> {
                            &&& final(pool)@ == p.with_health(
                                p.health.update(
                                    idx as int,
                                    p.health[idx as int].after_failure(
                                        p.health_config.max_consecutive_failures,
                                        p.health_config.cooldown_seconds,
                                        now_ms,
                                    ),
                                ),
                            )
                            &&& *final(metrics) == *old(metrics)
                        }
                        &&& final(self)@.failed == v.failed.push(idx)
                        &&& final(self)@.in_flight == left
                        &&& final(self)@.used == v.used
                        &&& final(self)@.hedges_fired == v.hedges_fired
                        &&& if left > 0 {
                            &&& final(self)@.phase == HedgePhase::Racing
                            &&& r == HedgeAction::Wait
                        } else if v.hedges_fired < v.max_hedges {
                            &&& final(self)@.phase == HedgePhase::Replacing
                            &&& final(self)@.last_err == error_text(e)
                            &&& r == HedgeAction::Select
                        } else {
                            &&& final(self)@.phase == HedgePhase::Done
                            &&& r matches HedgeAction::Finished(HedgeOutcome::AllFailed { last_err, failed })
                                && last_err@ == error_text(e) && failed@ == v.failed.push(idx)
                        }
                    },
                }
            }),
    {
        proof {
            use_type_invariant(&*self);
        }
        match result {
            Ok(latency) => {
                pool.record_success_with_latency(idx, latency);
                metrics.record_successes(self.request_count);
                self.phase = HedgePhase::Done;
                HedgeAction::Finished(HedgeOutcome::Success)
            },
            Err(e) => {
                match e {
                    ForwardError::RateLimited => {
                        pool.record_throttle(idx, now_ms);
                        metrics.record_upstream_throttled();
                    },
                    _ => {
                        pool.record_failure(idx, now_ms);
                    },
                }
                let mut failed = self.failed.clone();
                failed.push(idx);
                assert(failed@ =~= old(self)@.failed.push(idx));
                self.failed = failed;
                if self.in_flight > 1 {
                    self.in_flight = self.in_flight - 1;
                    HedgeAction::Wait
                } else if self.hedges_fired < self.max_hedges {
                    self.phase = HedgePhase::Replacing;
                    self.in_flight = 0;
                    assert(self@.used == old(self)@.used);
                    self.last_err = e.message();
                    HedgeAction::Select
                } else {
                    self.phase = HedgePhase::Done;
                    self.in_flight = 0;
                    HedgeAction::Finished(
                        HedgeOutcome::AllFailed { last_err: e.message(), failed: self.failed.clone() },
                    )
                }
            },
        }
    }

    /// Whether another hedge may still be fired.
    pub fn can_hedge(&self) -> (r: bool)
        ensures
            r == (self@.hedges_fired < self@.max_hedges),
    {
        self.hedges_fired < self.max_hedges
    }

    /// The endpoints eligible for the request.
    pub fn eligible(&self) -> (r: &Vec<usize>)
        ensures
            r@ == self@.eligible,
            Self::hedge_ok(self@),
    {
        proof {
            use_type_invariant(self);
        }
        &self.eligible
    }

    /// The endpoints whose request failed so far.
    pub fn failed(&self) -> (r: &Vec<usize>)
        ensures
            r@ == self@.failed,
    {
        &self.failed
    }

    /// The endpoints a request was sent to so far.
    pub fn used(&self) -> (r: &Vec<usize>)
        ensures
            r@ == self@.used,
    {
        &self.used
    }
}

/// A hedged attempt never sends two requests to the same endpoint: the
/// endpoint the pool's rotation chooses for the primary or an extra request
/// is an eligible one that has not been used yet.
pub proof fn lemma_hedge_never_repeats_an_endpoint(p: PoolView, v: HedgeView, now_ms: u64)
    ensures
        select_from(p, v.eligible, v.used, now_ms).0 matches Some(i) ==> v.eligible.contains(i)
            && !v.used.contains(i),
{
    lemma_selection_respects_exclusion(p, v.eligible, v.used, now_ms);
}

} // verus!
