//! What a background health check makes of each endpoint's answer, and how
//! a round of answers updates the pool.
use crate::health::pool::{ChainPool, PoolView};
use crate::health::state::{after_secs, HealthState};
use crate::text::{parse_u64_radix, parse_unsigned, strip_hex_prefixes, trim_hex_prefixes};
use vstd::prelude::*;
use vstd::string::*;

verus! {

/// The outcome of one health check request.
#[derive(Debug, Clone, Copy, PartialEq, Eq, Structural)]
pub enum HealthCheckResult {
    /// The endpoint answered with this block height.
    Height(u64),
    /// The endpoint answered 429: alive, but rate limiting.
    Throttled,
    /// The check failed (no answer, an error status, an unusable body).
    Failed,
}

/// A member of a JSON object, as the health check reads it.
#[derive(Debug)]
pub enum ResultField {
    /// The body is not JSON.
    Unreadable,
    /// The body has no such member.
    Missing,
    /// The member is a string.
    Text(String),
    /// The member is a number that fits an unsigned 64-bit integer.
    Number(u64),
    /// The member is any other value.
    Other,
}

/// The member `key` of the JSON text `body`, coded as a tag (0 not JSON,
/// 1 missing, 2 string, 3 unsigned 64-bit number, 4 other), the string's
/// characters and the number.
pub uninterp spec fn json_member(body: Seq<u8>, key: Seq<char>) -> (int, Seq<char>, u64);

/// The code of a `ResultField` in the form `json_member` gives.
pub open spec fn field_code(f: ResultField) -> (int, Seq<char>, u64) {
    match f {
        ResultField::Unreadable => (0, Seq::empty(), 0),
        ResultField::Missing => (1, Seq::empty(), 0),
        ResultField::Text(s) => (2, s@, 0),
        ResultField::Number(n) => (3, Seq::empty(), n),
        ResultField::Other => (4, Seq::empty(), 0),
    }
}

/// `serde_json::from_slice::<serde_json::Value>` on the body, then
/// `Value::get(key)`, and `Value::as_u64` on a non-string: the result is a
/// function of the bytes and the key alone, named `json_member`.
#[verifier::external_body]
fn read_member(body: &[u8], key: &str) -> (r: ResultField)
    ensures
        field_code(r) == json_member(body@, key@),
{
    match serde_json::from_slice::<serde_json::Value>(body) {
        Err(_) => ResultField::Unreadable,
        Ok(v) => match v.get(key) {
            None => ResultField::Missing,
            Some(serde_json::Value::String(s)) => ResultField::Text(s.clone()),
            Some(other) => match other.as_u64() {
                Some(n) => ResultField::Number(n),
                None => ResultField::Other,
            },
        },
    }
}

/// The block height a `result` member gives: a string is read as
/// hexadecimal after any leading `0x` prefixes, a number as it is.
pub open spec fn height_of_field(code: (int, Seq<char>, u64)) -> HealthCheckResult {
    if code.0 == 2 {
        match parse_unsigned(strip_hex_prefixes(code.1), 16) {
            Some(h) => HealthCheckResult::Height(h),
            None => HealthCheckResult::Failed,
        }
    } else if code.0 == 3 {
        HealthCheckResult::Height(code.2)
    } else {
        HealthCheckResult::Failed
    }
}

/// The outcome of a health check from the `result` member of the answer.
pub fn result_from_field(field: &ResultField) -> (r: HealthCheckResult)
    ensures
        r == height_of_field(field_code(*field)),
{
    match field {
        ResultField::Text(s) => {
            let digits = trim_hex_prefixes(s.as_str());
            match parse_u64_radix(digits.as_str(), 16) {
                Some(h) => HealthCheckResult::Height(h),
                None => HealthCheckResult::Failed,
            }
        },
        ResultField::Number(n) => HealthCheckResult::Height(*n),
        _ => HealthCheckResult::Failed,
    }
}

/// The outcome of a health check from the HTTP status and body of the
/// answer: 429 is a throttle, any other status outside 200..=299 a failure,
/// and a success status is read through the body's `result` member.
pub fn check_response(status: u16, body: &[u8]) -> (r: HealthCheckResult)
    ensures
        status == 429 ==> r == HealthCheckResult::Throttled,
        status != 429 && !(200 <= status <= 299) ==> r == HealthCheckResult::Failed,
        200 <= status <= 299 ==> r == height_of_field(json_member(body@, "result"@)),
{
    if status == 429 {
        return HealthCheckResult::Throttled;
    }
    if status < 200 || status > 299 {
        return HealthCheckResult::Failed;
    }
    let field = read_member(body, "result");
    result_from_field(&field)
}

/// One endpoint's answer in a round of health checks, with how long it took.
#[derive(Debug, Clone, Copy)]
pub struct HealthReport {
    pub idx: usize,
    pub result: HealthCheckResult,
    pub latency_ms: u64,
}

/// The health records after the latencies of the first `k` successful
/// checks are recorded.
pub open spec fn latency_pass(hs: Seq<HealthState>, rs: Seq<HealthReport>, k: int) -> Seq<HealthState>
    decreases k,
{
    if k <= 0 {
        hs
    } else {
        let prev = latency_pass(hs, rs, k - 1);
        let r = rs[k - 1];
        match r.result {
            HealthCheckResult::Height(_) => prev.update(
                r.idx as int,
                HealthState { last_latency_ms: r.latency_ms, ..prev[r.idx as int] },
            ),
            _ => prev,
        }
    }
}

/// The highest block height among the first `k` answers, 0 when none gave one.
pub open spec fn max_reported_height(rs: Seq<HealthReport>, k: int) -> u64
    decreases k,
{
    if k <= 0 {
        0
    } else {
        let prev = max_reported_height(rs, k - 1);
        match rs[k - 1].result {
            HealthCheckResult::Height(h) => if h > prev {
                h
            } else {
                prev
            },
            _ => prev,
        }
    }
}

/// The health records after the verdicts on the first `k` answers: an
/// endpoint more than `max_lag` blocks behind `max_height` is marked
/// unhealthy (stale), one within the lag recovers as after a success, a
/// throttled one records a throttle, and a failed check changes nothing.
/// Each reported height is stored.
pub open spec fn verdict_pass(
    hs: Seq<HealthState>,
    rs: Seq<HealthReport>,
    k: int,
    max_height: u64,
    max_lag: u64,
    cooldown_seconds: u64,
    now_ms: u64,
) -> Seq<HealthState>
    decreases k,
{
    if k <= 0 {
        hs
    } else {
        let prev = verdict_pass(hs, rs, k - 1, max_height, max_lag, cooldown_seconds, now_ms);
        let r = rs[k - 1];
        let i = r.idx as int;
        match r.result {
            HealthCheckResult::Height(h) => {
                let stored = HealthState { block_height: h, ..prev[i] };
                if max_height - h > max_lag {
                    prev.update(i, stored.after_mark_unhealthy(cooldown_seconds, now_ms))
                } else {
                    prev.update(i, stored.after_success())
                }
            },
            HealthCheckResult::Throttled => prev.update(i, prev[i].after_throttle(now_ms)),
            HealthCheckResult::Failed => prev,
        }
    }
}

/// The health records after a whole round: latencies first; then, when some
/// endpoint gave a nonzero height, the verdicts against the highest one.
pub open spec fn health_round(
    hs: Seq<HealthState>,
    rs: Seq<HealthReport>,
    max_lag: u64,
    cooldown_seconds: u64,
    now_ms: u64,
) -> Seq<HealthState> {
    let timed = latency_pass(hs, rs, rs.len() as int);
    let top = max_reported_height(rs, rs.len() as int);
    if top == 0 {
        timed
    } else {
        verdict_pass(timed, rs, rs.len() as int, top, max_lag, cooldown_seconds, now_ms)
    }
}

proof fn lemma_max_reported_bounds(rs: Seq<HealthReport>, k: int, j: int)
    requires
        0 <= j < k <= rs.len(),
    ensures
        rs[j].result matches HealthCheckResult::Height(h) ==> h <= max_reported_height(rs, k),
        max_reported_height(rs, k) >= max_reported_height(rs, j),
    decreases k,
{
    if j < k - 1 {
        lemma_max_reported_bounds(rs, k - 1, j);
    }
}

proof fn lemma_pass_len(
    hs: Seq<HealthState>,
    rs: Seq<HealthReport>,
    k: int,
    max_height: u64,
    max_lag: u64,
    cooldown_seconds: u64,
    now_ms: u64,
)
    requires
        0 <= k <= rs.len(),
        forall|j: int| 0 <= j < rs.len() ==> (#[trigger] rs[j]).idx < hs.len(),
    ensures
        latency_pass(hs, rs, k).len() == hs.len(),
        verdict_pass(hs, rs, k, max_height, max_lag, cooldown_seconds, now_ms).len() == hs.len(),
    decreases k,
{
    if k > 0 {
        lemma_pass_len(hs, rs, k - 1, max_height, max_lag, cooldown_seconds, now_ms);
    }
}

/// Each endpoint answers at most once in a round, and only endpoints of the
/// pool answer.
pub open spec fn distinct_reports(rs: Seq<HealthReport>, n: nat) -> bool {
    &&& forall|j: int| 0 <= j < rs.len() ==> (#[trigger] rs[j]).idx < n
    &&& forall|j: int, k: int| 0 <= j < k < rs.len() ==> (#[trigger] rs[j]).idx != (#[trigger] rs[k]).idx
}

proof fn lemma_passes_skip(
    hs: Seq<HealthState>,
    rs: Seq<HealthReport>,
    k: int,
    i: int,
    max_height: u64,
    max_lag: u64,
    cooldown_seconds: u64,
    now_ms: u64,
)
    requires
        0 <= k <= rs.len(),
        0 <= i < hs.len(),
        forall|j: int| 0 <= j < rs.len() ==> (#[trigger] rs[j]).idx < hs.len(),
        forall|m: int| 0 <= m < k ==> (#[trigger] rs[m]).idx != i || rs[m].result is Failed,
    ensures
        latency_pass(hs, rs, k)[i] == hs[i],
        verdict_pass(hs, rs, k, max_height, max_lag, cooldown_seconds, now_ms)[i] == hs[i],
    decreases k,
{
    if k > 0 {
        lemma_pass_len(hs, rs, k - 1, max_height, max_lag, cooldown_seconds, now_ms);
        lemma_passes_skip(hs, rs, k - 1, i, max_height, max_lag, cooldown_seconds, now_ms);
    }
}

proof fn lemma_verdict_kept(
    hs: Seq<HealthState>,
    rs: Seq<HealthReport>,
    j: int,
    k: int,
    max_height: u64,
    max_lag: u64,
    cooldown_seconds: u64,
    now_ms: u64,
)
    requires
        0 <= j < k <= rs.len(),
        distinct_reports(rs, hs.len()),
    ensures
        verdict_pass(hs, rs, k, max_height, max_lag, cooldown_seconds, now_ms)[rs[j].idx as int]
            == verdict_pass(hs, rs, j + 1, max_height, max_lag, cooldown_seconds, now_ms)[rs[j].idx as int],
    decreases k,
{
    if k > j + 1 {
        lemma_verdict_kept(hs, rs, j, k - 1, max_height, max_lag, cooldown_seconds, now_ms);
        lemma_pass_len(hs, rs, k - 1, max_height, max_lag, cooldown_seconds, now_ms);
        assert(rs[k - 1].idx != rs[j].idx);
    }
}

/// A failed health check never changes the endpoint's record: failures
/// are counted by the requests themselves.
pub proof fn lemma_failed_check_changes_nothing(
    hs: Seq<HealthState>,
    rs: Seq<HealthReport>,
    j: int,
    max_lag: u64,
    cooldown_seconds: u64,
    now_ms: u64,
)
    requires
        distinct_reports(rs, hs.len()),
        0 <= j < rs.len(),
        rs[j].result is Failed,
    ensures
        health_round(hs, rs, max_lag, cooldown_seconds, now_ms)[rs[j].idx as int] == hs[rs[j].idx as int],
{
    let i = rs[j].idx as int;
    let n = rs.len() as int;
    let top = max_reported_height(rs, n);
    lemma_pass_len(hs, rs, n, top, max_lag, cooldown_seconds, now_ms);
    lemma_passes_skip(hs, rs, n, i, top, max_lag, cooldown_seconds, now_ms);
    let timed = latency_pass(hs, rs, n);
    lemma_passes_skip(timed, rs, n, i, top, max_lag, cooldown_seconds, now_ms);
}

/// An endpoint that reports the highest block height of a round is never
/// marked stale: it comes out of the round healthy.
pub proof fn lemma_leader_stays_healthy(
    hs: Seq<HealthState>,
    rs: Seq<HealthReport>,
    j: int,
    max_lag: u64,
    cooldown_seconds: u64,
    now_ms: u64,
)
    requires
        distinct_reports(rs, hs.len()),
        0 <= j < rs.len(),
        rs[j].result == HealthCheckResult::Height(max_reported_height(rs, rs.len() as int)),
        max_reported_height(rs, rs.len() as int) > 0,
    ensures
        health_round(hs, rs, max_lag, cooldown_seconds, now_ms)[rs[j].idx as int].is_healthy,
{
    let n = rs.len() as int;
    let top = max_reported_height(rs, n);
    lemma_pass_len(hs, rs, n, top, max_lag, cooldown_seconds, now_ms);
    let timed = latency_pass(hs, rs, n);
    lemma_verdict_kept(timed, rs, j, n, top, max_lag, cooldown_seconds, now_ms);
    lemma_pass_len(timed, rs, j, top, max_lag, cooldown_seconds, now_ms);
}

proof fn lemma_max_reported_attained(rs: Seq<HealthReport>, k: int)
    requires
        0 <= k <= rs.len(),
    ensures
        max_reported_height(rs, k) == 0 || exists|m: int|
            0 <= m < k && rs[m].result == HealthCheckResult::Height(max_reported_height(rs, k)),
    decreases k,
{
    if k > 0 {
        lemma_max_reported_attained(rs, k - 1);
    }
}

proof fn lemma_max_reported_is_top(rs: Seq<HealthReport>, top: u64)
    requires
        top > 0,
        forall|k: int| 0 <= k < rs.len() ==> ((#[trigger] rs[k]).result matches HealthCheckResult::Height(x)
            ==> x <= top),
        exists|k: int| 0 <= k < rs.len() && (#[trigger] rs[k]).result == HealthCheckResult::Height(top),
    ensures
        max_reported_height(rs, rs.len() as int) == top,
{
    let n = rs.len() as int;
    let k = choose|k: int| 0 <= k < rs.len() && (#[trigger] rs[k]).result == HealthCheckResult::Height(top);
    lemma_max_reported_bounds(rs, n, k);
    lemma_max_reported_attained(rs, n);
    if max_reported_height(rs, n) != 0 {
        let m = choose|m: int| 0 <= m < n && rs[m].result == HealthCheckResult::Height(max_reported_height(rs, n));
        assert(rs[m].result matches HealthCheckResult::Height(x) ==> (x <= top));
    }
}

/// Stale marking: after a round whose highest reported height is `top`, an
/// endpoint that reported height `h` more than `max_lag` blocks below `top`
/// is unhealthy, eligible again `cooldown_seconds` after `now_ms`, and
/// records `h` as its block height, whatever its record was before the
/// round; an endpoint within the lag is healthy with a clean failure streak.
pub proof fn lemma_health_round_verdicts(
    hs: Seq<HealthState>,
    rs: Seq<HealthReport>,
    j: int,
    h: u64,
    top: u64,
    max_lag: u64,
    cooldown_seconds: u64,
    now_ms: u64,
)
    requires
        distinct_reports(rs, hs.len()),
        0 <= j < rs.len(),
        rs[j].result == HealthCheckResult::Height(h),
        top > 0,
        forall|k: int| 0 <= k < rs.len() ==> ((#[trigger] rs[k]).result matches HealthCheckResult::Height(x)
            ==> x <= top),
        exists|k: int| 0 <= k < rs.len() && (#[trigger] rs[k]).result == HealthCheckResult::Height(top),
    ensures
        ({
            let after = health_round(hs, rs, max_lag, cooldown_seconds, now_ms)[rs[j].idx as int];
            &&& after.block_height == h
            &&& top - h > max_lag ==> !after.is_healthy && after.unhealthy_until == Some(
                after_secs(now_ms, cooldown_seconds),
            )
            &&& top - h <= max_lag ==> after.is_healthy && after.consecutive_failures == 0
        }),
{
    lemma_max_reported_is_top(rs, top);
    let n = rs.len() as int;
    lemma_pass_len(hs, rs, n, top, max_lag, cooldown_seconds, now_ms);
    let timed = latency_pass(hs, rs, n);
    lemma_verdict_kept(timed, rs, j, n, top, max_lag, cooldown_seconds, now_ms);
    lemma_pass_len(timed, rs, j, top, max_lag, cooldown_seconds, now_ms);
}

impl ChainPool {
    /// Applies a round of health-check answers: records the latency of each
    /// successful check, then, when some endpoint gave a nonzero height,
    /// marks endpoints lagging more than `max_lag` blocks behind the highest
    /// height stale, lets the others recover, and records throttles. Failed
    /// checks leave the endpoint as it is: failures are counted by the
    /// requests themselves.
    pub fn apply_health_round(&mut self, reports: &Vec<HealthReport>, max_lag: u64, now_ms: u64)
        requires
            forall|j: int| 0 <= j < reports@.len() ==> (#[trigger] reports@[j]).idx < old(self)@.len(),
        ensures
            final(self)@ == old(self)@.with_health(
                health_round(
                    old(self)@.health,
                    reports@,
                    max_lag,
                    old(self)@.health_config.cooldown_seconds,
                    now_ms,
                ),
            ),
    {
        let n = self.len();
        let ghost p0 = self@;
        let mut i: usize = 0;
        let mut top: u64 = 0;
        while i < reports.len()
            invariant
                n == p0.len(),
                p0.health.len() == p0.len(),
                i <= reports@.len(),
                forall|j: int| 0 <= j < reports@.len() ==> (#[trigger] reports@[j]).idx < n,
                self@ == p0.with_health(latency_pass(p0.health, reports@, i as int)),
                top == max_reported_height(reports@, i as int),
            decreases reports@.len() - i,
        {
            let r = reports[i];
            proof {
                lemma_pass_len(p0.health, reports@, i as int, 0, 0, 0, 0);
            }
            match r.result {
                HealthCheckResult::Height(h) => {
                    self.update_latency(r.idx, r.latency_ms);
                    if h > top {
                        top = h;
                    }
                },
                _ => {},
            }
            i = i + 1;
        }
        if top == 0 {
            return;
        }
        let ghost timed = self@.health;
        proof {
            lemma_pass_len(p0.health, reports@, reports@.len() as int, 0, 0, 0, 0);
        }
        let cooldown = self.health_config().cooldown_seconds;
        let mut k: usize = 0;
        while k < reports.len()
            invariant
                n == p0.len(),
                timed.len() == p0.len(),
                timed == latency_pass(p0.health, reports@, reports@.len() as int),
                k <= reports@.len(),
                cooldown == p0.health_config.cooldown_seconds,
                top == max_reported_height(reports@, reports@.len() as int),
                forall|j: int| 0 <= j < reports@.len() ==> (#[trigger] reports@[j]).idx < n,
                self@ == p0.with_health(
                    verdict_pass(timed, reports@, k as int, top, max_lag, cooldown, now_ms),
                ),
            decreases reports@.len() - k,
        {
            let r = reports[k];
            let ghost prev = verdict_pass(timed, reports@, k as int, top, max_lag, cooldown, now_ms);
            proof {
                lemma_pass_len(timed, reports@, k as int, top, max_lag, cooldown, now_ms);
            }
            match r.result {
                HealthCheckResult::Height(h) => {
                    proof {
                        lemma_max_reported_bounds(reports@, reports@.len() as int, k as int);
                    }
                    let ghost stored = HealthState { block_height: h, ..prev[r.idx as int] };
                    self.update_block_height(r.idx, h);
                    if top - h > max_lag {
                        self.mark_stale(r.idx, now_ms);
                        assert(self@.health =~= prev.update(
                            r.idx as int,
                            stored.after_mark_unhealthy(cooldown, now_ms),
                        ));
                    } else {
                        self.record_success(r.idx);
                        assert(self@.health =~= prev.update(r.idx as int, stored.after_success()));
                    }
                },
                HealthCheckResult::Throttled => {
                    self.record_throttle(r.idx, now_ms);
                },
                HealthCheckResult::Failed => {},
            }
            assert(self@.health =~= verdict_pass(timed, reports@, k + 1, top, max_lag, cooldown, now_ms));
            k = k + 1;
        }
    }
}

} // verus!
